use wpdm::kernel::GrowCircleTransition;

const W: u32 = 8;
const H: u32 = 6;

fn buffers() -> (Vec<u8>, Vec<u8>, Vec<u8>) {
    let len = (W * H * 4) as usize;
    (vec![1u8; len], vec![2u8; len], vec![9u8; len])
}

fn pixel(buf: &[u8], x: u32, y: u32) -> [u8; 4] {
    let p = ((y * W + x) * 4) as usize;
    [buf[p], buf[p + 1], buf[p + 2], buf[p + 3]]
}

#[test]
fn default_kernel_has_forty_frames() {
    let k = GrowCircleTransition::new(1920, 1080);
    assert_eq!(k.n_frames, 40);
    assert_eq!(k.width, 1920);
    assert_eq!(k.height, 1080);
}

#[test]
fn first_frame_equals_from() {
    let k = GrowCircleTransition::new(W, H);
    let (from, to, mut out) = buffers();
    let done = k.render(0, &from, &to, &mut out);
    assert!(!done);
    assert_eq!(out, from);
}

#[test]
fn last_frame_equals_to_but_corner_pixel() {
    let k = GrowCircleTransition::new(W, H);
    let (from, to, mut out) = buffers();
    assert!(!k.render(40, &from, &to, &mut out));
    assert_eq!(pixel(&out, 0, 0), [1, 1, 1, 1]);
    for j in 4..out.len() {
        assert_eq!(out[j], 2, "byte {}", j);
    }
}

#[test]
fn middle_frame_shows_central_disc() {
    // At frame 20 of 40 the disc has half the largest radius: four times the
    // squared distance must stay below 25 on an 8 by 6 output.
    let k = GrowCircleTransition::new(W, H);
    let (from, to, mut out) = buffers();
    assert!(!k.render(20, &from, &to, &mut out));
    assert_eq!(pixel(&out, 4, 3), [2, 2, 2, 2]);
    assert_eq!(pixel(&out, 2, 3), [2, 2, 2, 2]);
    assert_eq!(pixel(&out, 4, 1), [2, 2, 2, 2]);
    assert_eq!(pixel(&out, 1, 3), [1, 1, 1, 1]);
    assert_eq!(pixel(&out, 4, 0), [1, 1, 1, 1]);
    assert_eq!(pixel(&out, 0, 0), [1, 1, 1, 1]);
    assert_eq!(pixel(&out, 7, 5), [1, 1, 1, 1]);
}

#[test]
fn frame_past_the_end_is_terminal_and_writes_nothing() {
    let k = GrowCircleTransition::new(W, H);
    let (from, to, mut out) = buffers();
    assert!(k.render(41, &from, &to, &mut out));
    assert_eq!(out, vec![9u8; out.len()]);
    assert!(k.render(u32::MAX, &from, &to, &mut out));
}

#[test]
fn every_frame_keeps_the_frame_size() {
    let k = GrowCircleTransition::new_with_frames(W, H, 5);
    let (from, to, mut out) = buffers();
    for f in 0..=5 {
        assert!(!k.render(f, &from, &to, &mut out));
        assert_eq!(out.len(), (W * H * 4) as usize);
    }
    assert!(k.render(6, &from, &to, &mut out));
}

#[test]
fn ties_fall_on_the_from_side() {
    // A 2 by 2 output: at the last frame only pixel (0, 0) sits exactly on
    // the largest radius.
    let k = GrowCircleTransition::new_with_frames(2, 2, 1);
    let from = vec![1u8; 16];
    let to = vec![2u8; 16];
    let mut out = vec![0u8; 16];
    assert!(!k.render(1, &from, &to, &mut out));
    assert_eq!(out, vec![1, 1, 1, 1, 2, 2, 2, 2, 2, 2, 2, 2, 2, 2, 2, 2]);
}

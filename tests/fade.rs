use wpdm::fade::{
    apply_velocity, get_velocity, load_current_wallpaper, load_wallpaper, FadeInAnimation,
    ImageTransition, Wallpaper,
};

#[test]
fn velocity_is_the_sign_of_the_change() {
    assert_eq!(get_velocity(&[10, 20, 30], &[20, 20, 5]), vec![1, 0, -1]);
    assert_eq!(get_velocity(&[1, 2], &[3]), vec![1]);
}

#[test]
fn fade_steps_and_stops_at_the_target() {
    let a = [10u8, 20, 30];
    let b = [20u8, 20, 5];
    let v = get_velocity(&a, &b);
    assert_eq!(apply_velocity(&a, &b, &v, 0), vec![10, 20, 30]);
    assert_eq!(apply_velocity(&a, &b, &v, 5), vec![15, 20, 25]);
    assert_eq!(apply_velocity(&a, &b, &v, 100), vec![20, 20, 5]);
}

#[test]
fn image_transition_finishes_on_a_tenth_frame() {
    let mut t = ImageTransition::new(vec![0, 10], vec![3, 10]);
    assert!(!t.is_finished());
    for k in 0..10u8 {
        assert_eq!(t.get_frame(), vec![k.min(3), 10]);
        assert!(!t.is_finished());
    }
    assert_eq!(t.get_frame(), vec![3, 10]);
    assert!(t.is_finished());
}

#[test]
fn image_transition_reads_same_size_images_as_bgra() {
    let out = ImageTransition::read_image_as_argb(vec![1, 2, 3, 4, 5, 6, 7, 8], 2, 1, 2, 1);
    assert_eq!(out, vec![3, 2, 1, 4, 7, 6, 5, 8]);
    let resized = ImageTransition::read_image_as_argb([9u8, 8, 7, 255].repeat(4), 2, 2, 1, 1);
    assert_eq!(resized, vec![7, 8, 9, 255]);
}

#[test]
fn fade_in_writes_the_common_prefix() {
    let mut anim = FadeInAnimation::create(&[0, 0], &[5, 5]);
    let mut frame = [7u8; 3];
    anim.frame(&[0, 0], &[5, 5], &mut frame, 2);
    assert_eq!(frame, [2, 2, 7]);
}

#[test]
fn blank_wallpapers_have_the_frame_size() {
    assert_eq!(load_current_wallpaper(4, 3), vec![0u8; 48]);
    assert_eq!(load_wallpaper("/imgs/a.png", 2, 2), vec![0u8; 16]);
}

#[test]
fn wallpaper_draws_nothing_yet() {
    let mut wp = Wallpaper::new();
    wp.handle_set_wallpaper();
    let mut frame = [1u8; 4];
    assert!(!wp.frame(&mut frame));
    assert_eq!(frame, [1u8; 4]);
}

use memmap2::{Mmap, MmapMut};
use wpdm::kernel::GrowCircleTransition;
use wpdm::manager::{AdmitError, RenderOutcome, TransitionManager};
use wpdm::monitors::{partition_by_size, MonitorMeta, SizeGroup};

fn mapped(bytes: &[u8]) -> Mmap {
    let mut m = MmapMut::map_anon(bytes.len()).unwrap();
    m.copy_from_slice(bytes);
    m.make_read_only().unwrap()
}

fn filled(w: i32, h: i32, v: u8) -> Mmap {
    mapped(&vec![v; (w * h * 4) as usize])
}

fn group(w: i32, h: i32, names: &[&str]) -> SizeGroup {
    SizeGroup { width: w, height: h, monitors: names.iter().map(|s| s.to_string()).collect() }
}

fn canvas(w: i32, h: i32) -> Vec<u8> {
    vec![0u8; (w * h * 4) as usize]
}

fn meta(name: &str, w: i32, h: i32) -> MonitorMeta {
    MonitorMeta { name: name.to_string(), width: w, height: h }
}

const W: i32 = 192;
const H: i32 = 108;

#[test]
fn cold_start_shows_cached_buffer_then_retires() {
    // "from" and "to" are the same cached buffer.
    let cached: Vec<u8> = (0..(W * H * 4)).map(|i| (i % 251) as u8).collect();
    let mut m = TransitionManager::new();
    assert!(!m.has_transitions());
    m.add_transition(group(W, H, &["eDP-1"]), mapped(&cached), mapped(&cached)).unwrap();
    assert!(m.has_transitions());
    let mut out = canvas(W, H);
    for _ in 0..=40 {
        assert_eq!(m.render_transition("eDP-1", &mut out), RenderOutcome::Rendered);
        assert_eq!(out, cached);
    }
    assert_eq!(m.render_transition("eDP-1", &mut out), RenderOutcome::Retired);
    assert!(!m.has_transitions());
    assert_eq!(m.render_transition("eDP-1", &mut out), RenderOutcome::NoTransition);
}

#[test]
fn one_transition_for_two_outputs_of_one_size() {
    let metas = vec![meta("HDMI-A-1", W, H), meta("DP-1", W, H)];
    let names = vec!["HDMI-A-1".to_string(), "DP-1".to_string()];
    let groups = partition_by_size(&names, &metas);
    assert_eq!(groups.len(), 1);
    let mut m = TransitionManager::new();
    for g in groups {
        m.add_transition(g, filled(W, H, 1), filled(W, H, 2)).unwrap();
    }
    assert_eq!(m.transitions.len(), 1);
    let k = GrowCircleTransition::new(W as u32, H as u32);
    let centre = (((H / 2) * W + W / 2) * 4) as usize;
    for frame in 0..=40u32 {
        for name in ["HDMI-A-1", "DP-1"] {
            let mut out = canvas(W, H);
            assert_eq!(m.render_transition(name, &mut out), RenderOutcome::Rendered);
            if frame == 20 {
                assert_eq!(out[centre], 2);
                assert_eq!(out[0], 1);
                let mut expect = canvas(W, H);
                k.render(20, &vec![1u8; out.len()], &vec![2u8; out.len()], &mut expect);
                assert_eq!(out, expect);
            }
        }
    }
    for name in ["HDMI-A-1", "DP-1"] {
        let mut out = canvas(W, H);
        assert_eq!(m.render_transition(name, &mut out), RenderOutcome::Retired);
        assert_eq!(out, canvas(W, H));
    }
    assert!(!m.has_transitions());
}

#[test]
fn mixed_sizes_make_two_transitions() {
    let metas = vec![meta("HDMI-A-1", 192, 108), meta("eDP-1", 256, 144)];
    let names = vec!["HDMI-A-1".to_string(), "eDP-1".to_string()];
    let groups = partition_by_size(&names, &metas);
    assert_eq!(groups.len(), 2);
    let mut m = TransitionManager::new();
    for g in groups {
        let (w, h) = (g.width, g.height);
        m.add_transition(g, filled(w, h, 1), filled(w, h, 2)).unwrap();
    }
    assert_eq!(m.transitions.len(), 2);
    assert_eq!(m.transitions[0].monitors, vec!["HDMI-A-1".to_string()]);
    assert_eq!((m.transitions[0].transition.width, m.transitions[0].transition.height), (192, 108));
    assert_eq!(m.transitions[1].monitors, vec!["eDP-1".to_string()]);
    assert_eq!((m.transitions[1].transition.width, m.transitions[1].transition.height), (256, 144));
    assert_eq!(m.transitions[0].frames, vec![0]);
    assert_eq!(m.transitions[1].frames, vec![0]);
    let mut a = canvas(192, 108);
    let mut b = canvas(256, 144);
    assert_eq!(m.render_transition("HDMI-A-1", &mut a), RenderOutcome::Rendered);
    assert_eq!(m.render_transition("HDMI-A-1", &mut a), RenderOutcome::Rendered);
    assert_eq!(m.render_transition("eDP-1", &mut b), RenderOutcome::Rendered);
    assert_eq!(m.transitions[0].frames, vec![2]);
    assert_eq!(m.transitions[1].frames, vec![1]);
}

#[test]
fn missing_or_short_buffer_skips_only_that_size() {
    let mut m = TransitionManager::new();
    let short = mapped(&vec![0u8; 100]);
    assert_eq!(
        m.add_transition(group(256, 144, &["eDP-1"]), short, filled(256, 144, 2)),
        Err(AdmitError::FromLength(100))
    );
    assert_eq!(
        m.add_transition(group(256, 144, &["eDP-1"]), filled(256, 144, 1), mapped(&[7u8; 12])),
        Err(AdmitError::ToLength(12))
    );
    assert_eq!(
        m.add_transition(group(-1, 144, &["eDP-1"]), filled(1, 1, 1), filled(1, 1, 1)),
        Err(AdmitError::InvalidSize)
    );
    assert!(!m.has_transitions());
    m.add_transition(group(W, H, &["HDMI-A-1"]), filled(W, H, 1), filled(W, H, 2)).unwrap();
    let mut out = canvas(256, 144);
    assert_eq!(m.render_transition("eDP-1", &mut out), RenderOutcome::NoTransition);
    assert_eq!(out, canvas(256, 144));
    let mut out = canvas(W, H);
    assert_eq!(m.render_transition("HDMI-A-1", &mut out), RenderOutcome::Rendered);
}

#[test]
fn newer_command_wins_and_older_entry_is_pruned() {
    let mut m = TransitionManager::new();
    m.add_transition(group(W, H, &["HDMI-A-1", "DP-1"]), filled(W, H, 1), filled(W, H, 2))
        .unwrap();
    let mut out = canvas(W, H);
    for _ in 0..5 {
        assert_eq!(m.render_transition("HDMI-A-1", &mut out), RenderOutcome::Rendered);
    }
    assert_eq!(m.render_transition("DP-1", &mut out), RenderOutcome::Rendered);
    m.add_transition(group(W, H, &["HDMI-A-1"]), filled(W, H, 3), filled(W, H, 4)).unwrap();
    assert_eq!(m.transitions.len(), 2);
    assert_eq!(m.transitions[0].monitors, vec!["DP-1".to_string()]);
    assert_eq!(m.transitions[0].frames, vec![1]);
    assert_eq!(m.transitions[1].frames, vec![0]);
    assert_eq!(m.render_transition("HDMI-A-1", &mut out), RenderOutcome::Rendered);
    assert_eq!(out, vec![3u8; out.len()]);
    assert_eq!(m.transitions[1].frames, vec![1]);
    assert_eq!(m.render_transition("DP-1", &mut out), RenderOutcome::Rendered);
    assert_eq!(m.transitions[0].frames, vec![2]);
}

#[test]
fn superseding_every_output_drops_the_old_transition() {
    let mut m = TransitionManager::new();
    m.add_transition(group(W, H, &["A"]), filled(W, H, 1), filled(W, H, 2)).unwrap();
    m.add_transition(group(W, H, &["A"]), filled(W, H, 5), filled(W, H, 6)).unwrap();
    assert_eq!(m.transitions.len(), 1);
    let mut out = canvas(W, H);
    assert_eq!(m.render_transition("A", &mut out), RenderOutcome::Rendered);
    assert_eq!(out, vec![5u8; out.len()]);
}

#[test]
fn frame_index_rises_by_one_per_rendered_frame() {
    let mut m = TransitionManager::new();
    m.add_transition(group(W, H, &["A", "B"]), filled(W, H, 1), filled(W, H, 2)).unwrap();
    let mut out = canvas(W, H);
    let mut last = None;
    for _ in 0..10 {
        assert_eq!(m.render_transition("A", &mut out), RenderOutcome::Rendered);
        let now = m.transitions[0].frames[0];
        if let Some(prev) = last {
            assert_eq!(now, prev + 1);
        }
        last = Some(now);
    }
    assert_eq!(m.transitions[0].frames, vec![10, 0]);
}

#[test]
fn wrong_canvas_size_is_skipped_without_retiring() {
    let mut m = TransitionManager::new();
    m.add_transition(group(W, H, &["A"]), filled(W, H, 1), filled(W, H, 2)).unwrap();
    let mut small = vec![0u8; 16];
    assert_eq!(m.render_transition("A", &mut small), RenderOutcome::Skipped);
    assert_eq!(small, vec![0u8; 16]);
    assert_eq!(m.transitions[0].frames, vec![0]);
}

#[test]
fn empty_group_changes_nothing() {
    let mut m = TransitionManager::new();
    assert_eq!(m.add_transition(group(W, H, &[]), filled(W, H, 1), filled(W, H, 2)), Ok(()));
    assert!(!m.has_transitions());
}

#[test]
fn unplugged_output_leaves_its_transition() {
    let mut m = TransitionManager::new();
    m.add_transition(group(W, H, &["A", "B"]), filled(W, H, 1), filled(W, H, 2)).unwrap();
    m.remove_monitor("A");
    assert_eq!(m.transitions[0].monitors, vec!["B".to_string()]);
    let mut out = canvas(W, H);
    assert_eq!(m.render_transition("A", &mut out), RenderOutcome::NoTransition);
    m.remove_monitor("B");
    assert!(!m.has_transitions());
    m.remove_monitor("C");
    assert!(!m.has_transitions());
}

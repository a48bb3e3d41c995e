use wpdm::monitors::MonitorMeta;
use wpdm::protocol::{
    config_dir, config_path, handle_message, render_command, startup_request, RenderCommand,
    ServerAction, WpdmMessage, WpdmMonitors, WpdmSetWallpaper,
};

fn meta(name: &str, w: i32, h: i32) -> MonitorMeta {
    MonitorMeta { name: name.to_string(), width: w, height: h }
}

fn metas() -> Vec<MonitorMeta> {
    vec![meta("HDMI-A-1", 1920, 1080), meta("DP-1", 2560, 1440)]
}

#[test]
fn query_gets_the_output_list() {
    match handle_message(WpdmMessage::QueryMonitor, None, &metas()) {
        ServerAction::Reply(WpdmMessage::Monitors(list)) => {
            assert_eq!(list.monitors.len(), 2);
            assert_eq!(list.monitors[0].name, "HDMI-A-1");
            assert_eq!((list.monitors[0].width, list.monitors[0].height), (1920, 1080));
            assert_eq!(list.monitors[1].name, "DP-1");
            assert_eq!((list.monitors[1].width, list.monitors[1].height), (2560, 1440));
        }
        _ => panic!("expected a monitor list"),
    }
}

#[test]
fn wallpaper_request_goes_from_current_to_new() {
    let msg = WpdmMessage::set_wallpaper("/imgs/b.png".to_string(), vec!["HDMI-A-1".to_string(), "DP-1".to_string()]);
    match handle_message(msg, Some("/imgs/a.png".to_string()), &metas()) {
        ServerAction::Render { command: RenderCommand::Transition { monitors, src_argb_buff_path, dest_argb_buff_path }, path } => {
            assert_eq!(monitors, vec!["HDMI-A-1".to_string(), "DP-1".to_string()]);
            assert_eq!(src_argb_buff_path, "/imgs/a.png");
            assert_eq!(dest_argb_buff_path, "/imgs/b.png");
            assert_eq!(path, "/imgs/b.png");
        }
        _ => panic!("expected a render command"),
    }
}

#[test]
fn without_a_current_wallpaper_the_new_one_is_both_ends() {
    let request = WpdmSetWallpaper { path: "/imgs/b.png".to_string(), monitors: vec!["DP-1".to_string()] };
    let (RenderCommand::Transition { src_argb_buff_path, dest_argb_buff_path, .. }, path) =
        render_command(request, None);
    assert_eq!(src_argb_buff_path, "/imgs/b.png");
    assert_eq!(dest_argb_buff_path, "/imgs/b.png");
    assert_eq!(path, "/imgs/b.png");
}

#[test]
fn monitor_lists_are_ignored() {
    let msg = WpdmMessage::Monitors(WpdmMonitors { monitors: Vec::new() });
    assert!(matches!(handle_message(msg, None, &metas()), ServerAction::Ignore));
}

#[test]
fn restart_shows_the_recorded_wallpaper_everywhere() {
    let request = startup_request("/imgs/a.png".to_string(), &metas());
    assert_eq!(request.path, "/imgs/a.png");
    assert_eq!(request.monitors, vec!["HDMI-A-1".to_string(), "DP-1".to_string()]);
    match handle_message(WpdmMessage::SetWallpaper(request), Some("/imgs/a.png".to_string()), &metas()) {
        ServerAction::Render { command: RenderCommand::Transition { src_argb_buff_path, dest_argb_buff_path, .. }, .. } => {
            assert_eq!(src_argb_buff_path, dest_argb_buff_path);
        }
        _ => panic!("expected a render command"),
    }
}

#[test]
fn state_file_lives_under_home() {
    assert_eq!(config_dir("/home/u"), "/home/u/.local/state/wpdm");
    assert_eq!(config_path("/home/u"), "/home/u/.local/state/wpdm/config.conf");
}

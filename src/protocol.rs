//! Control-plane messages and the control server's decisions.
use crate::monitors::{names_of, MonitorMeta};
use vstd::prelude::*;

verus! {

/// Asks the daemon to show `path` on the outputs named in `monitors`.
pub struct WpdmSetWallpaper {
    pub path: String,
    pub monitors: Vec<String>,
}

/// An output as the daemon reports it to a controller.
pub struct WpdmMonitor {
    pub name: String,
    pub height: i32,
    pub width: i32,
}

pub struct WpdmMonitors {
    pub monitors: Vec<WpdmMonitor>,
}

/// A message on the control channel.
pub enum WpdmMessage {
    SetWallpaper(WpdmSetWallpaper),
    QueryMonitor,
    Monitors(WpdmMonitors),
}

/// What the control side hands to the renderer.
pub enum RenderCommand {
    Transition { monitors: Vec<String>, src_argb_buff_path: String, dest_argb_buff_path: String },
}

/// What the control server does with a message.
pub enum ServerAction {
    /// Send this reply to the controller.
    Reply(WpdmMessage),
    /// Hand `command` to the renderer, then record `path` as the current wallpaper.
    Render { command: RenderCommand, path: String },
    /// Nothing.
    Ignore,
}

impl WpdmMessage {
    pub fn set_wallpaper(path: String, monitors: Vec<String>) -> (r: Self)
        ensures
            r == WpdmMessage::SetWallpaper(WpdmSetWallpaper { path, monitors }),
    {
        WpdmMessage::SetWallpaper(WpdmSetWallpaper { path, monitors })
    }
}

/// An output's name and size, as a message carries it.
pub open spec fn reported(m: WpdmMonitor) -> (Seq<char>, i32, i32) {
    (m.name@, m.width, m.height)
}

/// An output's name and size, as the daemon knows it.
pub open spec fn known(m: MonitorMeta) -> (Seq<char>, i32, i32) {
    (m.name@, m.width, m.height)
}

pub open spec fn reported_list(ms: Seq<WpdmMonitor>) -> Seq<(Seq<char>, i32, i32)> {
    ms.map_values(|m: WpdmMonitor| reported(m))
}

pub open spec fn known_list(ms: Seq<MonitorMeta>) -> Seq<(Seq<char>, i32, i32)> {
    ms.map_values(|m: MonitorMeta| known(m))
}

pub open spec fn meta_names(ms: Seq<MonitorMeta>) -> Seq<Seq<char>> {
    ms.map_values(|m: MonitorMeta| m.name@)
}

/// The outputs the daemon knows, in the form a `Monitors` reply carries them.
pub fn monitor_list(metas: &Vec<MonitorMeta>) -> (r: Vec<WpdmMonitor>)
    ensures
        reported_list(r@) == known_list(metas@),
{
    let mut r: Vec<WpdmMonitor> = Vec::new();
    let mut k: usize = 0;
    while k < metas.len()
        invariant
            k <= metas.len(),
            r@.len() == k,
            reported_list(r@) == known_list(metas@.take(k as int)),
        decreases metas.len() - k,
    {
        let meta = &metas[k];
        assert(metas@.take(k + 1) =~= metas@.take(k as int).push(metas@[k as int]));
        let ghost before = r@;
        r.push(WpdmMonitor { name: meta.name.clone(), height: meta.height, width: meta.width });
        assert forall|i: int| 0 <= i <= k implies #[trigger] reported_list(r@)[i] == known_list(
            metas@.take(k + 1),
        )[i] by {
            if i < k {
                assert(reported_list(before)[i] == known_list(metas@.take(k as int))[i]);
                assert(r@[i] == before[i]);
            }
        }
        assert(reported_list(r@) =~= known_list(metas@.take(k + 1)));
        k = k + 1;
    }
    assert(metas@.take(k as int) =~= metas@);
    r
}

/// The names of the outputs the daemon knows, in order.
pub fn monitor_names(metas: &Vec<MonitorMeta>) -> (r: Vec<String>)
    ensures
        names_of(r@) == meta_names(metas@),
{
    let mut r: Vec<String> = Vec::new();
    let mut k: usize = 0;
    while k < metas.len()
        invariant
            k <= metas.len(),
            r@.len() == k,
            names_of(r@) == meta_names(metas@.take(k as int)),
        decreases metas.len() - k,
    {
        assert(metas@.take(k + 1) =~= metas@.take(k as int).push(metas@[k as int]));
        let ghost before = r@;
        r.push(metas[k].name.clone());
        assert forall|i: int| 0 <= i <= k implies #[trigger] names_of(r@)[i] == meta_names(
            metas@.take(k + 1),
        )[i] by {
            if i < k {
                assert(names_of(before)[i] == meta_names(metas@.take(k as int))[i]);
                assert(r@[i] == before[i]);
            }
        }
        assert(names_of(r@) =~= meta_names(metas@.take(k + 1)));
        k = k + 1;
    }
    assert(metas@.take(k as int) =~= metas@);
    r
}

/// The request the daemon makes of itself on start: show the current
/// wallpaper on every known output.
pub fn startup_request(current: String, metas: &Vec<MonitorMeta>) -> (r: WpdmSetWallpaper)
    ensures
        r.path == current,
        names_of(r.monitors@) == meta_names(metas@),
{
    WpdmSetWallpaper { path: current, monitors: monitor_names(metas) }
}

/// Turns a wallpaper request into a render command from the current
/// wallpaper (or, with none recorded, from the new one itself) to `path`.
pub fn render_command(request: WpdmSetWallpaper, current: Option<String>) -> (r: (
    RenderCommand,
    String,
))
    ensures
        r.0 == (RenderCommand::Transition {
            monitors: request.monitors,
            src_argb_buff_path: match current {
                Some(c) => c,
                None => request.path,
            },
            dest_argb_buff_path: request.path,
        }),
        r.1 == request.path,
{
    let src = match current {
        Some(c) => c,
        None => request.path.clone(),
    };
    let command = RenderCommand::Transition {
        monitors: request.monitors,
        src_argb_buff_path: src,
        dest_argb_buff_path: request.path.clone(),
    };
    (command, request.path)
}

/// What the control server does with `message`, given the current wallpaper
/// and the outputs the daemon knows: a query gets the output list, a
/// wallpaper request becomes a render command, anything else is ignored.
pub fn handle_message(message: WpdmMessage, current: Option<String>, metas: &Vec<MonitorMeta>) -> (r:
    ServerAction)
    ensures
        message is QueryMonitor ==> (r matches ServerAction::Reply(WpdmMessage::Monitors(list))
            && reported_list(list.monitors@) == known_list(metas@)),
        message matches WpdmMessage::SetWallpaper(request) ==> r == (ServerAction::Render {
            command: RenderCommand::Transition {
                monitors: request.monitors,
                src_argb_buff_path: match current {
                    Some(c) => c,
                    None => request.path,
                },
                dest_argb_buff_path: request.path,
            },
            path: request.path,
        }),
        message is Monitors ==> r is Ignore,
{
    match message {
        WpdmMessage::QueryMonitor => ServerAction::Reply(
            WpdmMessage::Monitors(WpdmMonitors { monitors: monitor_list(metas) }),
        ),
        WpdmMessage::SetWallpaper(request) => {
            let (command, path) = render_command(request, current);
            ServerAction::Render { command, path }
        },
        WpdmMessage::Monitors(_) => ServerAction::Ignore,
    }
}

/// The state directory under home directory `home`.
pub fn config_dir(home: &str) -> (r: String)
    ensures
        r@ == home@ + "/.local/state/wpdm"@,
{
    let mut r = home.to_owned();
    r.append("/.local/state/wpdm");
    r
}

/// The file that records the current wallpaper, under home directory `home`.
pub fn config_path(home: &str) -> (r: String)
    ensures
        r@ == home@ + "/.local/state/wpdm"@ + "/config.conf"@,
{
    let mut r = config_dir(home);
    r.append("/config.conf");
    r
}

} // verus!

//! The messages the web surfaces post to the engine (`window.ipc.postMessage("cmd:args")`),
//! read into commands. Carrying a command out (spawning, WinRT, windows) is the caller's.
use vstd::prelude::*;
use crate::json::str_eq;
use crate::number::{parse_i64, parse_u32, parse_usize, i64_of, u32_of, usize_of};
use crate::text::string_of;
use crate::words::{
    rsplit_once, rsplit_once_spec, split_once, split_once_spec, strip_prefix, strip_prefix_spec,
    trim, trim_exec,
};

verus! {

/// A message from the launcher.
pub enum LauncherCmd {
    /// `launch:<path>`: open an app or file, then hide the launcher.
    Launch(String),
    /// `launcher:hide`.
    Hide,
    /// `resize:<px>`: the trimmed height text (a decimal number).
    Resize(String),
    /// `notif:<msg>`: fire a notification, then hide the launcher.
    Notif(String),
    /// `open:<url-or-uri>`.
    Open(String),
    /// `sys:<cmd>`: a raw command for `cmd /C`.
    Sys(String),
    /// `copy:<text>`.
    CopyText(String),
    /// `media:<cmd>`.
    Media(String),
    /// `vol:mute`.
    Mute,
    /// `vol:unmute`.
    Unmute,
    /// `vol:<level>`: the level text (a decimal number).
    Volume(String),
    /// `bright:<0-100>`.
    Bright(u32),
    /// `appvol:<app>:<level>`: app and level text, split at the last `:`.
    AppVolume(String, String),
    /// `shell:<mode>:<command>`: split at the first `:`.
    Shell(String, String),
    /// `clipreset`.
    ClipReset,
    /// `togglefs`.
    ToggleFileSearch,
    /// `clip:<index>`.
    Clip(usize),
    /// `sp:<query>`.
    Spotify(String),
    /// `file:<query>`.
    Files(String),
    /// `proc:<query>`.
    Procs(String),
    /// `killpid:<pid>`.
    KillPid(u32),
    /// `tabsearch:<query>`.
    TabSearch(String),
    /// `tabactivate:<tab>:<window>`.
    TabActivate(i64, i64),
    /// `plugin:<query>`.
    Plugin(String),
    /// `ns:<query>`.
    Notion(String),
    /// Anything else, or an argument that does not read.
    Ignored,
}

/// [`LauncherCmd`] with its strings as character sequences.
pub enum LauncherCmdView {
    Launch(Seq<char>),
    Hide,
    Resize(Seq<char>),
    Notif(Seq<char>),
    Open(Seq<char>),
    Sys(Seq<char>),
    CopyText(Seq<char>),
    Media(Seq<char>),
    Mute,
    Unmute,
    Volume(Seq<char>),
    Bright(u32),
    AppVolume(Seq<char>, Seq<char>),
    Shell(Seq<char>, Seq<char>),
    ClipReset,
    ToggleFileSearch,
    Clip(usize),
    Spotify(Seq<char>),
    Files(Seq<char>),
    Procs(Seq<char>),
    KillPid(u32),
    TabSearch(Seq<char>),
    TabActivate(i64, i64),
    Plugin(Seq<char>),
    Notion(Seq<char>),
    Ignored,
}

impl View for LauncherCmd {
    type V = LauncherCmdView;

    open spec fn view(&self) -> LauncherCmdView {
        match self {
            LauncherCmd::Launch(s) => LauncherCmdView::Launch(s@),
            LauncherCmd::Hide => LauncherCmdView::Hide,
            LauncherCmd::Resize(s) => LauncherCmdView::Resize(s@),
            LauncherCmd::Notif(s) => LauncherCmdView::Notif(s@),
            LauncherCmd::Open(s) => LauncherCmdView::Open(s@),
            LauncherCmd::Sys(s) => LauncherCmdView::Sys(s@),
            LauncherCmd::CopyText(s) => LauncherCmdView::CopyText(s@),
            LauncherCmd::Media(s) => LauncherCmdView::Media(s@),
            LauncherCmd::Mute => LauncherCmdView::Mute,
            LauncherCmd::Unmute => LauncherCmdView::Unmute,
            LauncherCmd::Volume(s) => LauncherCmdView::Volume(s@),
            LauncherCmd::Bright(n) => LauncherCmdView::Bright(*n),
            LauncherCmd::AppVolume(a, b) => LauncherCmdView::AppVolume(a@, b@),
            LauncherCmd::Shell(a, b) => LauncherCmdView::Shell(a@, b@),
            LauncherCmd::ClipReset => LauncherCmdView::ClipReset,
            LauncherCmd::ToggleFileSearch => LauncherCmdView::ToggleFileSearch,
            LauncherCmd::Clip(i) => LauncherCmdView::Clip(*i),
            LauncherCmd::Spotify(s) => LauncherCmdView::Spotify(s@),
            LauncherCmd::Files(s) => LauncherCmdView::Files(s@),
            LauncherCmd::Procs(s) => LauncherCmdView::Procs(s@),
            LauncherCmd::KillPid(p) => LauncherCmdView::KillPid(*p),
            LauncherCmd::TabSearch(s) => LauncherCmdView::TabSearch(s@),
            LauncherCmd::TabActivate(t, w) => LauncherCmdView::TabActivate(*t, *w),
            LauncherCmd::Plugin(s) => LauncherCmdView::Plugin(s@),
            LauncherCmd::Notion(s) => LauncherCmdView::Notion(s@),
            LauncherCmd::Ignored => LauncherCmdView::Ignored,
        }
    }
}

/// `b` starts with `p`.
pub open spec fn has(b: Seq<char>, p: Seq<char>) -> bool {
    strip_prefix_spec(b, p) is Some
}

/// What follows `p` in `b` (meaningful when [`has`] holds).
pub open spec fn rest(b: Seq<char>, p: Seq<char>) -> Seq<char> {
    strip_prefix_spec(b, p).unwrap()
}

/// The `vol:` command for its argument.
pub open spec fn volume_spec(v: Seq<char>) -> LauncherCmdView {
    if v == "mute"@ {
        LauncherCmdView::Mute
    } else if v == "unmute"@ {
        LauncherCmdView::Unmute
    } else {
        LauncherCmdView::Volume(v)
    }
}

/// The `tabactivate:` command for its argument.
pub open spec fn tab_activate_spec(a: Seq<char>) -> LauncherCmdView {
    match split_once_spec(a, ':') {
        Some((t, w)) => match (i64_of(t), i64_of(w)) {
            (Some(t), Some(w)) => LauncherCmdView::TabActivate(t, w),
            _ => LauncherCmdView::Ignored,
        },
        None => LauncherCmdView::Ignored,
    }
}

/// The second half of the launcher's commands, tried in this order.
pub open spec fn launcher_cmd_rest(b: Seq<char>) -> LauncherCmdView {
    if has(b, "appvol:"@) {
        match rsplit_once_spec(rest(b, "appvol:"@), ':') {
            Some((app, pct)) => LauncherCmdView::AppVolume(app, pct),
            None => LauncherCmdView::Ignored,
        }
    } else if has(b, "shell:"@) {
        match split_once_spec(rest(b, "shell:"@), ':') {
            Some((mode, cmd)) => LauncherCmdView::Shell(mode, cmd),
            None => LauncherCmdView::Ignored,
        }
    } else if b == "clipreset"@ {
        LauncherCmdView::ClipReset
    } else if b == "togglefs"@ {
        LauncherCmdView::ToggleFileSearch
    } else if has(b, "clip:"@) {
        match usize_of(rest(b, "clip:"@)) {
            Some(i) => LauncherCmdView::Clip(i),
            None => LauncherCmdView::Ignored,
        }
    } else {
        launcher_cmd_queries(b)
    }
}

/// The searches and the rest of the launcher's commands, tried in this order.
pub open spec fn launcher_cmd_queries(b: Seq<char>) -> LauncherCmdView {
    if has(b, "sp:"@) {
        LauncherCmdView::Spotify(rest(b, "sp:"@))
    } else if has(b, "file:"@) {
        LauncherCmdView::Files(rest(b, "file:"@))
    } else if has(b, "proc:"@) {
        LauncherCmdView::Procs(rest(b, "proc:"@))
    } else if has(b, "killpid:"@) {
        match u32_of(rest(b, "killpid:"@)) {
            Some(p) => LauncherCmdView::KillPid(p),
            None => LauncherCmdView::Ignored,
        }
    } else if has(b, "tabsearch:"@) {
        LauncherCmdView::TabSearch(rest(b, "tabsearch:"@))
    } else if has(b, "tabactivate:"@) {
        tab_activate_spec(rest(b, "tabactivate:"@))
    } else if has(b, "plugin:"@) {
        LauncherCmdView::Plugin(rest(b, "plugin:"@))
    } else if has(b, "ns:"@) {
        LauncherCmdView::Notion(rest(b, "ns:"@))
    } else {
        LauncherCmdView::Ignored
    }
}

/// The command a launcher message stands for: the first of these prefixes (or whole
/// messages) that matches decides, in the order the engine tries them.
pub open spec fn launcher_cmd_spec(b: Seq<char>) -> LauncherCmdView {
    if has(b, "launch:"@) {
        LauncherCmdView::Launch(rest(b, "launch:"@))
    } else if b == "launcher:hide"@ {
        LauncherCmdView::Hide
    } else if has(b, "resize:"@) {
        LauncherCmdView::Resize(trim(rest(b, "resize:"@)))
    } else if has(b, "notif:"@) {
        LauncherCmdView::Notif(rest(b, "notif:"@))
    } else if has(b, "open:"@) {
        LauncherCmdView::Open(rest(b, "open:"@))
    } else if has(b, "sys:"@) {
        LauncherCmdView::Sys(rest(b, "sys:"@))
    } else if has(b, "copy:"@) {
        LauncherCmdView::CopyText(rest(b, "copy:"@))
    } else if has(b, "media:"@) {
        LauncherCmdView::Media(rest(b, "media:"@))
    } else if has(b, "vol:"@) {
        volume_spec(rest(b, "vol:"@))
    } else if has(b, "bright:"@) {
        match u32_of(rest(b, "bright:"@)) {
            Some(n) => LauncherCmdView::Bright(n),
            None => LauncherCmdView::Ignored,
        }
    } else {
        launcher_cmd_rest(b)
    }
}

/// Reads the second half of the launcher's commands (see [`launcher_cmd_rest`]).
fn parse_launcher_rest(body: &str) -> (r: LauncherCmd)
    ensures
        r@ == launcher_cmd_rest(body@),
{
    if let Some(a) = strip_prefix(body, "appvol:") {
        return match rsplit_once(a.as_str(), ':') {
            Some((app, pct)) => LauncherCmd::AppVolume(app, pct),
            None => LauncherCmd::Ignored,
        };
    }
    if let Some(a) = strip_prefix(body, "shell:") {
        return match split_once(a.as_str(), ':') {
            Some((mode, cmd)) => LauncherCmd::Shell(mode, cmd),
            None => LauncherCmd::Ignored,
        };
    }
    if str_eq(body, "clipreset") {
        return LauncherCmd::ClipReset;
    }
    if str_eq(body, "togglefs") {
        return LauncherCmd::ToggleFileSearch;
    }
    if let Some(a) = strip_prefix(body, "clip:") {
        return match parse_usize(a.as_str()) {
            Some(i) => LauncherCmd::Clip(i),
            None => LauncherCmd::Ignored,
        };
    }
    parse_launcher_queries(body)
}

/// Reads the searches and the rest of the launcher's commands (see [`launcher_cmd_queries`]).
fn parse_launcher_queries(body: &str) -> (r: LauncherCmd)
    ensures
        r@ == launcher_cmd_queries(body@),
{
    if let Some(q) = strip_prefix(body, "sp:") {
        return LauncherCmd::Spotify(q);
    }
    if let Some(q) = strip_prefix(body, "file:") {
        return LauncherCmd::Files(q);
    }
    if let Some(q) = strip_prefix(body, "proc:") {
        return LauncherCmd::Procs(q);
    }
    if let Some(a) = strip_prefix(body, "killpid:") {
        return match parse_u32(a.as_str()) {
            Some(p) => LauncherCmd::KillPid(p),
            None => LauncherCmd::Ignored,
        };
    }
    if let Some(q) = strip_prefix(body, "tabsearch:") {
        return LauncherCmd::TabSearch(q);
    }
    if let Some(a) = strip_prefix(body, "tabactivate:") {
        return match split_once(a.as_str(), ':') {
            Some((t, w)) => match (parse_i64(t.as_str()), parse_i64(w.as_str())) {
                (Some(t), Some(w)) => LauncherCmd::TabActivate(t, w),
                _ => LauncherCmd::Ignored,
            },
            None => LauncherCmd::Ignored,
        };
    }
    if let Some(q) = strip_prefix(body, "plugin:") {
        return LauncherCmd::Plugin(q);
    }
    if let Some(q) = strip_prefix(body, "ns:") {
        return LauncherCmd::Notion(q);
    }
    LauncherCmd::Ignored
}

/// Reads a launcher message (see [`launcher_cmd_spec`]).
pub fn parse_launcher_cmd(body: &str) -> (r: LauncherCmd)
    ensures
        r@ == launcher_cmd_spec(body@),
{
    if let Some(p) = strip_prefix(body, "launch:") {
        return LauncherCmd::Launch(p);
    }
    if str_eq(body, "launcher:hide") {
        return LauncherCmd::Hide;
    }
    if let Some(h) = strip_prefix(body, "resize:") {
        return LauncherCmd::Resize(trim_exec(h.as_str()));
    }
    if let Some(m) = strip_prefix(body, "notif:") {
        return LauncherCmd::Notif(m);
    }
    if let Some(u) = strip_prefix(body, "open:") {
        return LauncherCmd::Open(u);
    }
    if let Some(c) = strip_prefix(body, "sys:") {
        return LauncherCmd::Sys(c);
    }
    if let Some(t) = strip_prefix(body, "copy:") {
        return LauncherCmd::CopyText(t);
    }
    if let Some(c) = strip_prefix(body, "media:") {
        return LauncherCmd::Media(c);
    }
    if let Some(v) = strip_prefix(body, "vol:") {
        return if str_eq(v.as_str(), "mute") {
            LauncherCmd::Mute
        } else if str_eq(v.as_str(), "unmute") {
            LauncherCmd::Unmute
        } else {
            LauncherCmd::Volume(v)
        };
    }
    if let Some(b) = strip_prefix(body, "bright:") {
        return match parse_u32(b.as_str()) {
            Some(n) => LauncherCmd::Bright(n),
            None => LauncherCmd::Ignored,
        };
    }
    parse_launcher_rest(body)
}

/// A message from the dashboard.
pub enum DashboardCmd {
    /// `media:<cmd>`.
    Media(String),
    /// `showtoast:<msg>`.
    ShowToast(String),
    /// `hidetoast`.
    HideToast,
    /// `run:<app>`.
    Run(String),
    /// `open:<url>`.
    Open(String),
    /// `power:<action>`: the command line to run (program first).
    Power(Vec<String>),
    /// `reload`.
    Reload,
    /// Anything else, or a power action it does not know.
    Ignored,
}

/// [`DashboardCmd`] with its strings as character sequences.
pub enum DashboardCmdView {
    Media(Seq<char>),
    ShowToast(Seq<char>),
    HideToast,
    Run(Seq<char>),
    Open(Seq<char>),
    Power(Seq<Seq<char>>),
    Reload,
    Ignored,
}

impl View for DashboardCmd {
    type V = DashboardCmdView;

    open spec fn view(&self) -> DashboardCmdView {
        match self {
            DashboardCmd::Media(s) => DashboardCmdView::Media(s@),
            DashboardCmd::ShowToast(s) => DashboardCmdView::ShowToast(s@),
            DashboardCmd::HideToast => DashboardCmdView::HideToast,
            DashboardCmd::Run(s) => DashboardCmdView::Run(s@),
            DashboardCmd::Open(s) => DashboardCmdView::Open(s@),
            DashboardCmd::Power(v) => DashboardCmdView::Power(v@.map_values(|a: String| a@)),
            DashboardCmd::Reload => DashboardCmdView::Reload,
            DashboardCmd::Ignored => DashboardCmdView::Ignored,
        }
    }
}

/// The command line for a power action: shut down, restart, sign out, lock or sleep;
/// empty for any other action.
pub open spec fn power_args_spec(act: Seq<char>) -> Seq<Seq<char>> {
    if act == "shutdown"@ {
        seq!["shutdown"@, "/s"@, "/t"@, "0"@]
    } else if act == "restart"@ {
        seq!["shutdown"@, "/r"@, "/t"@, "0"@]
    } else if act == "signout"@ {
        seq!["shutdown"@, "/l"@]
    } else if act == "lock"@ {
        seq!["rundll32.exe"@, "user32.dll,LockWorkStation"@]
    } else if act == "sleep"@ {
        seq!["rundll32.exe"@, "powrprof.dll,SetSuspendState"@, "0,1,0"@]
    } else {
        Seq::empty()
    }
}

/// Writes the command line of a power action (see [`power_args_spec`]).
pub fn power_args(act: &str) -> (r: Vec<String>)
    ensures
        r@.map_values(|a: String| a@) == power_args_spec(act@),
{
    let r: Vec<String> = if str_eq(act, "shutdown") {
        vec![string_of("shutdown"), string_of("/s"), string_of("/t"), string_of("0")]
    } else if str_eq(act, "restart") {
        vec![string_of("shutdown"), string_of("/r"), string_of("/t"), string_of("0")]
    } else if str_eq(act, "signout") {
        vec![string_of("shutdown"), string_of("/l")]
    } else if str_eq(act, "lock") {
        vec![string_of("rundll32.exe"), string_of("user32.dll,LockWorkStation")]
    } else if str_eq(act, "sleep") {
        vec![
            string_of("rundll32.exe"),
            string_of("powrprof.dll,SetSuspendState"),
            string_of("0,1,0"),
        ]
    } else {
        Vec::new()
    };
    proof {
        assert(r@.map_values(|a: String| a@) =~= power_args_spec(act@));
    }
    r
}

/// The command a dashboard message stands for.
pub open spec fn dashboard_cmd_spec(b: Seq<char>) -> DashboardCmdView {
    if has(b, "media:"@) {
        DashboardCmdView::Media(rest(b, "media:"@))
    } else if has(b, "showtoast:"@) {
        DashboardCmdView::ShowToast(rest(b, "showtoast:"@))
    } else if b == "hidetoast"@ {
        DashboardCmdView::HideToast
    } else if has(b, "run:"@) {
        DashboardCmdView::Run(rest(b, "run:"@))
    } else if has(b, "open:"@) {
        DashboardCmdView::Open(rest(b, "open:"@))
    } else if has(b, "power:"@) {
        if power_args_spec(rest(b, "power:"@)).len() > 0 {
            DashboardCmdView::Power(power_args_spec(rest(b, "power:"@)))
        } else {
            DashboardCmdView::Ignored
        }
    } else if b == "reload"@ {
        DashboardCmdView::Reload
    } else {
        DashboardCmdView::Ignored
    }
}

/// Reads a dashboard message (see [`dashboard_cmd_spec`]).
pub fn parse_dashboard_cmd(body: &str) -> (r: DashboardCmd)
    ensures
        r@ == dashboard_cmd_spec(body@),
{
    if let Some(c) = strip_prefix(body, "media:") {
        return DashboardCmd::Media(c);
    }
    if let Some(m) = strip_prefix(body, "showtoast:") {
        return DashboardCmd::ShowToast(m);
    }
    if str_eq(body, "hidetoast") {
        return DashboardCmd::HideToast;
    }
    if let Some(a) = strip_prefix(body, "run:") {
        return DashboardCmd::Run(a);
    }
    if let Some(u) = strip_prefix(body, "open:") {
        return DashboardCmd::Open(u);
    }
    if let Some(act) = strip_prefix(body, "power:") {
        let args = power_args(act.as_str());
        return if args.len() > 0 {
            DashboardCmd::Power(args)
        } else {
            DashboardCmd::Ignored
        };
    }
    if str_eq(body, "reload") {
        return DashboardCmd::Reload;
    }
    DashboardCmd::Ignored
}

/// The command line that shell-opens a path, URL or URI: `cmd /C start "" <target>`.
pub fn open_command(target: &str) -> (r: Vec<String>)
    ensures
        r@.map_values(|a: String| a@) == seq!["cmd"@, "/C"@, "start"@, ""@, target@],
{
    let r = vec![string_of("cmd"), string_of("/C"), string_of("start"), string_of(""), string_of(target)];
    proof {
        assert(r@.map_values(|a: String| a@) =~= seq!["cmd"@, "/C"@, "start"@, ""@, target@]);
    }
    r
}

/// The command line that runs a raw system command: `cmd /C <command>`.
pub fn sys_command(command: &str) -> (r: Vec<String>)
    ensures
        r@.map_values(|a: String| a@) == seq!["cmd"@, "/C"@, command@],
{
    let r = vec![string_of("cmd"), string_of("/C"), string_of(command)];
    proof {
        assert(r@.map_values(|a: String| a@) =~= seq!["cmd"@, "/C"@, command@]);
    }
    r
}

} // verus!

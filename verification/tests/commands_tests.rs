use batcave::commands::LauncherCmd::{
    AppVolume, Bright, Clip, ClipReset, CopyText, Files, Hide, Ignored, KillPid, Launch, Media, Mute,
    Notif, Notion, Open, Plugin, Procs, Resize, Shell, Spotify, Sys, TabActivate, TabSearch,
    ToggleFileSearch, Unmute, Volume,
};
use batcave::commands::{
    open_command, parse_dashboard_cmd, parse_launcher_cmd, power_args, sys_command, DashboardCmd,
    LauncherCmd,
};

fn s(x: &str) -> String {
    x.to_string()
}

fn same(a: LauncherCmd, b: LauncherCmd) -> bool {
    match (a, b) {
        (Launch(x), Launch(y)) | (Resize(x), Resize(y)) | (Notif(x), Notif(y)) | (Open(x), Open(y))
        | (Sys(x), Sys(y)) | (CopyText(x), CopyText(y)) | (Media(x), Media(y)) | (Volume(x), Volume(y))
        | (Spotify(x), Spotify(y)) | (Files(x), Files(y)) | (Procs(x), Procs(y))
        | (TabSearch(x), TabSearch(y)) | (Plugin(x), Plugin(y)) | (Notion(x), Notion(y)) => x == y,
        (AppVolume(a1, b1), AppVolume(a2, b2)) | (Shell(a1, b1), Shell(a2, b2)) => a1 == a2 && b1 == b2,
        (Bright(x), Bright(y)) | (KillPid(x), KillPid(y)) => x == y,
        (Clip(x), Clip(y)) => x == y,
        (TabActivate(a1, b1), TabActivate(a2, b2)) => a1 == a2 && b1 == b2,
        (Hide, Hide) | (Mute, Mute) | (Unmute, Unmute) | (ClipReset, ClipReset)
        | (ToggleFileSearch, ToggleFileSearch) | (Ignored, Ignored) => true,
        _ => false,
    }
}

#[test]
fn launcher_commands_with_text() {
    assert!(same(parse_launcher_cmd("launch:C:\\a b.lnk"), LauncherCmd::Launch(s("C:\\a b.lnk"))));
    assert!(same(parse_launcher_cmd("launcher:hide"), LauncherCmd::Hide));
    assert!(same(parse_launcher_cmd("resize: 240 "), LauncherCmd::Resize(s("240"))));
    assert!(same(parse_launcher_cmd("notif:hi"), LauncherCmd::Notif(s("hi"))));
    assert!(same(parse_launcher_cmd("open:https://x?a=b:c"), LauncherCmd::Open(s("https://x?a=b:c"))));
    assert!(same(parse_launcher_cmd("sys:shutdown /s"), LauncherCmd::Sys(s("shutdown /s"))));
    assert!(same(parse_launcher_cmd("copy:"), LauncherCmd::CopyText(s(""))));
    assert!(same(parse_launcher_cmd("media:next"), LauncherCmd::Media(s("next"))));
    assert!(same(parse_launcher_cmd("sp:daft punk"), LauncherCmd::Spotify(s("daft punk"))));
    assert!(same(parse_launcher_cmd("file:notes"), LauncherCmd::Files(s("notes"))));
    assert!(same(parse_launcher_cmd("proc:chrome"), LauncherCmd::Procs(s("chrome"))));
    assert!(same(parse_launcher_cmd("tabsearch:rust"), LauncherCmd::TabSearch(s("rust"))));
    assert!(same(parse_launcher_cmd("plugin:gh cats"), LauncherCmd::Plugin(s("gh cats"))));
    assert!(same(parse_launcher_cmd("ns:roadmap"), LauncherCmd::Notion(s("roadmap"))));
}

#[test]
fn launcher_volume_commands() {
    assert!(same(parse_launcher_cmd("vol:mute"), LauncherCmd::Mute));
    assert!(same(parse_launcher_cmd("vol:unmute"), LauncherCmd::Unmute));
    assert!(same(parse_launcher_cmd("vol:35"), LauncherCmd::Volume(s("35"))));
    assert!(same(parse_launcher_cmd("appvol:C:\\x:y.exe:40"), LauncherCmd::AppVolume(s("C:\\x:y.exe"), s("40"))));
    assert!(same(parse_launcher_cmd("appvol:spotify"), LauncherCmd::Ignored));
    assert!(same(parse_launcher_cmd("bright:70"), LauncherCmd::Bright(70)));
    assert!(same(parse_launcher_cmd("bright:-1"), LauncherCmd::Ignored));
    assert!(same(parse_launcher_cmd("bright:x"), LauncherCmd::Ignored));
}

#[test]
fn launcher_shell_splits_at_first_colon() {
    assert!(same(parse_launcher_cmd("shell:ps:Get-Date; echo a:b"), LauncherCmd::Shell(s("ps"), s("Get-Date; echo a:b"))));
    assert!(same(parse_launcher_cmd("shell:cmd"), LauncherCmd::Ignored));
}

#[test]
fn launcher_numeric_arguments() {
    assert!(same(parse_launcher_cmd("clipreset"), LauncherCmd::ClipReset));
    assert!(same(parse_launcher_cmd("togglefs"), LauncherCmd::ToggleFileSearch));
    assert!(same(parse_launcher_cmd("clip:3"), LauncherCmd::Clip(3)));
    assert!(same(parse_launcher_cmd("clip:+3"), LauncherCmd::Clip(3)));
    assert!(same(parse_launcher_cmd("clip: 3"), LauncherCmd::Ignored));
    assert!(same(parse_launcher_cmd("killpid:4242"), LauncherCmd::KillPid(4242)));
    assert!(same(parse_launcher_cmd("killpid:4294967296"), LauncherCmd::Ignored));
    assert!(same(parse_launcher_cmd("tabactivate:12:-3"), LauncherCmd::TabActivate(12, -3)));
    assert!(same(parse_launcher_cmd("tabactivate:12"), LauncherCmd::Ignored));
    assert!(same(parse_launcher_cmd("tabactivate:a:1"), LauncherCmd::Ignored));
    assert!(same(parse_launcher_cmd("hello"), LauncherCmd::Ignored));
    assert!(same(parse_launcher_cmd(""), LauncherCmd::Ignored));
}

#[test]
fn dashboard_commands() {
    assert!(matches!(parse_dashboard_cmd("media:playpause"), DashboardCmd::Media(m) if m == "playpause"));
    assert!(matches!(parse_dashboard_cmd("showtoast:hey"), DashboardCmd::ShowToast(m) if m == "hey"));
    assert!(matches!(parse_dashboard_cmd("hidetoast"), DashboardCmd::HideToast));
    assert!(matches!(parse_dashboard_cmd("run:terminal"), DashboardCmd::Run(a) if a == "terminal"));
    assert!(matches!(parse_dashboard_cmd("open:https://x"), DashboardCmd::Open(u) if u == "https://x"));
    assert!(matches!(parse_dashboard_cmd("power:lock"), DashboardCmd::Power(v) if v == vec![s("rundll32.exe"), s("user32.dll,LockWorkStation")]));
    assert!(matches!(parse_dashboard_cmd("power:dance"), DashboardCmd::Ignored));
    assert!(matches!(parse_dashboard_cmd("reload"), DashboardCmd::Reload));
    assert!(matches!(parse_dashboard_cmd("reload:now"), DashboardCmd::Ignored));
}

#[test]
fn power_actions() {
    assert_eq!(power_args("shutdown"), vec![s("shutdown"), s("/s"), s("/t"), s("0")]);
    assert_eq!(power_args("restart"), vec![s("shutdown"), s("/r"), s("/t"), s("0")]);
    assert_eq!(power_args("signout"), vec![s("shutdown"), s("/l")]);
    assert_eq!(power_args("sleep"), vec![s("rundll32.exe"), s("powrprof.dll,SetSuspendState"), s("0,1,0")]);
    assert!(power_args("Shutdown").is_empty());
}

#[test]
fn open_and_sys_command_lines() {
    assert_eq!(open_command("https://x"), vec![s("cmd"), s("/C"), s("start"), s(""), s("https://x")]);
    assert_eq!(sys_command("lock"), vec![s("cmd"), s("/C"), s("lock")]);
}

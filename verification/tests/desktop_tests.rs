use batcave::desktop::{foreground_is_desktop, mouse_lparam, notif_script, on_wallpaper, toast_script};

fn w(h: isize, c: &str) -> (isize, String) {
    (h, c.to_string())
}

#[test]
fn desktop_foreground_classes() {
    assert!(foreground_is_desktop(0, "Notepad"));
    assert!(foreground_is_desktop(5, "WorkerW"));
    assert!(foreground_is_desktop(5, "Progman"));
    assert!(foreground_is_desktop(5, "SHELLDLL_DefView"));
    assert!(foreground_is_desktop(5, "SysListView32"));
    assert!(!foreground_is_desktop(5, "Chrome_WidgetWin_1"));
}

#[test]
fn desktop_click_on_wallpaper_looks_six_windows_up() {
    assert!(on_wallpaper(77, &vec![w(1, "Button"), w(77, "Tao")]));
    assert!(on_wallpaper(77, &vec![w(1, "Button"), w(2, "SysListView32")]));
    assert!(!on_wallpaper(77, &vec![w(1, "Notepad"), w(2, "Edit")]));
    let mut deep: Vec<(isize, String)> = (1..7).map(|i| w(i, "x")).collect();
    deep.push(w(77, "Tao"));
    assert!(!on_wallpaper(77, &deep));
    assert!(!on_wallpaper(77, &vec![]));
}

#[test]
fn desktop_mouse_lparam_packs_low_words() {
    assert_eq!(mouse_lparam(10, 20), 20 * 65536 + 10);
    assert_eq!(mouse_lparam(-1, 0), 0xFFFF);
    assert_eq!(mouse_lparam(0, -1), -65536);
    assert_eq!(mouse_lparam(0x12345, 0), 0x2345);
}

#[test]
fn desktop_notification_scripts() {
    assert_eq!(notif_script("Mail · hi \"you\"", true), "window.pushNotif && window.pushNotif(\"Mail · hi \\\"you\\\"\",\"desktop\");");
    assert_eq!(notif_script("x", false), "window.pushNotif && window.pushNotif(\"x\",\"app\");");
    assert_eq!(toast_script("a\nb"), "window.playToast && window.playToast(\"a b\");");
}

#[test]
fn desktop_mouse_events_forwarded() {
    use_forward();
}

fn use_forward() {
    assert_eq!(batcave::desktop::mouse_forward(0x0201), Some((0x0201, 1)));
    assert_eq!(batcave::desktop::mouse_forward(0x0202), Some((0x0202, 0)));
    assert_eq!(batcave::desktop::mouse_forward(0x0200), Some((0x0200, 0)));
    assert_eq!(batcave::desktop::mouse_forward(0x0204), None);
}

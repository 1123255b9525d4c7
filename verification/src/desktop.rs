//! The desktop layer: when the wallpaper is what the user sees or clicks, and how a
//! click is handed to the web view. Window handles and class names come from Win32
//! through the caller.
use vstd::prelude::*;
use crate::json::str_eq;
use crate::script::{call_script, message_args, message_script};

verus! {

/// The window classes of the desktop itself (behind the icons, the icons, the list).
pub open spec fn is_desktop_class(c: Seq<char>) -> bool {
    c == "Progman"@ || c == "WorkerW"@ || c == "SHELLDLL_DefView"@ || c == "SysListView32"@
}

/// Tests [`is_desktop_class`].
pub fn is_desktop_class_exec(c: &str) -> (r: bool)
    ensures
        r == is_desktop_class(c@),
{
    str_eq(c, "Progman") || str_eq(c, "WorkerW") || str_eq(c, "SHELLDLL_DefView") || str_eq(
        c,
        "SysListView32",
    )
}

/// Whether the foreground window `h` (of class `class`) is the desktop: no window at
/// all, or one of the desktop's own classes.
pub fn foreground_is_desktop(h: isize, class: &str) -> (r: bool)
    ensures
        r == (h == 0 || is_desktop_class(class@)),
{
    h == 0 || is_desktop_class_exec(class)
}

/// How many windows, from the one under the cursor up through its parents, are looked at.
pub const MAX_ANCESTORS: usize = 6;

/// Whether a click lands on the wallpaper: among the first [`MAX_ANCESTORS`] windows of
/// `chain` (the window under the cursor, then its parents) is our own wallpaper window
/// or a desktop window.
pub open spec fn on_wallpaper_spec(self_window: isize, chain: Seq<(isize, Seq<char>)>) -> bool {
    exists|k: int|
        0 <= k < chain.len() && k < MAX_ANCESTORS && ((#[trigger] chain[k]).0 == self_window
            || is_desktop_class(chain[k].1))
}

/// Decides [`on_wallpaper_spec`] for the windows given as (handle, class).
pub fn on_wallpaper(self_window: isize, chain: &Vec<(isize, String)>) -> (r: bool)
    ensures
        r == on_wallpaper_spec(self_window, chain@.map_values(|w: (isize, String)| (w.0, w.1@))),
{
    let ghost cv = chain@.map_values(|w: (isize, String)| (w.0, w.1@));
    let mut i: usize = 0;
    while i < chain.len() && i < MAX_ANCESTORS
        invariant
            i <= chain@.len(),
            i <= MAX_ANCESTORS,
            cv == chain@.map_values(|w: (isize, String)| (w.0, w.1@)),
            forall|k: int|
                0 <= k < i ==> !((#[trigger] cv[k]).0 == self_window || is_desktop_class(cv[k].1)),
        decreases chain.len() - i,
    {
        proof {
            assert(cv[i as int] == (chain@[i as int].0, chain@[i as int].1@));
        }
        if chain[i].0 == self_window || is_desktop_class_exec(chain[i].1.as_str()) {
            proof {
                assert(cv[i as int].0 == self_window || is_desktop_class(cv[i as int].1));
            }
            return true;
        }
        i = i + 1;
    }
    false
}

/// The `LPARAM` of a mouse message for client point (x, y): the low 16 bits of x, then
/// the low 16 bits of y above them, read as a signed 32-bit number.
pub open spec fn mouse_lparam_spec(x: i32, y: i32) -> isize {
    ((((y as u32) % 65536) * 65536 + ((x as u32) % 65536)) as u32 as i32) as isize
}

/// Packs a client point for a mouse message (see [`mouse_lparam_spec`]).
pub fn mouse_lparam(x: i32, y: i32) -> (r: isize)
    ensures
        r == mouse_lparam_spec(x, y),
{
    let lo: u32 = (x as u32) % 65536;
    let hi: u32 = (y as u32) % 65536;
    let v: u32 = hi * 65536 + lo;
    (v as i32) as isize
}

/// `WM_MOUSEMOVE`.
pub const WM_MOUSEMOVE: u32 = 0x0200;
/// `WM_LBUTTONDOWN`.
pub const WM_LBUTTONDOWN: u32 = 0x0201;
/// `WM_LBUTTONUP`.
pub const WM_LBUTTONUP: u32 = 0x0202;

/// The message posted to the web view for a mouse event seen on the wallpaper, as
/// (message, `wParam`): a left press goes with `wParam` 1 (left button down), a left
/// release and a move with 0; any other event is not forwarded.
pub open spec fn mouse_forward_spec(event: u32) -> Option<(u32, usize)> {
    if event == WM_LBUTTONDOWN {
        Some((WM_LBUTTONDOWN, 1))
    } else if event == WM_LBUTTONUP {
        Some((WM_LBUTTONUP, 0))
    } else if event == WM_MOUSEMOVE {
        Some((WM_MOUSEMOVE, 0))
    } else {
        None
    }
}

/// Chooses the message to forward for a mouse event (see [`mouse_forward_spec`]).
pub fn mouse_forward(event: u32) -> (r: Option<(u32, usize)>)
    ensures
        r == mouse_forward_spec(event),
{
    if event == WM_LBUTTONDOWN {
        Some((WM_LBUTTONDOWN, 1))
    } else if event == WM_LBUTTONUP {
        Some((WM_LBUTTONUP, 0))
    } else if event == WM_MOUSEMOVE {
        Some((WM_MOUSEMOVE, 0))
    } else {
        None
    }
}

/// How a notification is shown: a big cinematic on the desktop, a toast over an app.
pub open spec fn notif_mode(desktop: bool) -> Seq<char> {
    if desktop {
        "desktop"@
    } else {
        "app"@
    }
}

/// The call that shows a notification on the dashboard:
/// `window.pushNotif && window.pushNotif("<msg>","desktop"|"app");`.
pub fn notif_script(msg: &str, desktop: bool) -> (r: String)
    ensures
        r@ == call_script("pushNotif"@, message_args(msg@, Some(notif_mode(desktop)))),
{
    let mode = if desktop {
        "desktop"
    } else {
        "app"
    };
    message_script("pushNotif", msg, Some(mode))
}

/// The call that plays a toast: `window.playToast && window.playToast("<msg>");`.
pub fn toast_script(msg: &str) -> (r: String)
    ensures
        r@ == call_script("playToast"@, message_args(msg@, None)),
{
    message_script("playToast", msg, None)
}

} // verus!

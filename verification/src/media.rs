//! System media transport controls (SMTC): now-playing and play/pause/skip.
//!
//! The WinRT calls are the caller's. This module decides what a media command does,
//! how long to wait for an asynchronous WinRT operation, and what the dashboard is told.
use vstd::prelude::*;
use crate::script::{esc_spec, push_esc};
use crate::text::{push_str, string_of};

verus! {

/// A transport command.
#[derive(PartialEq, Eq, Structural, Clone, Copy, Debug)]
pub enum MediaAction {
    PlayPause,
    Next,
    Prev,
}

/// The transport command a `media:` argument names: `playpause`, `next` or `prev`;
/// anything else does nothing.
pub open spec fn media_action_spec(cmd: Seq<char>) -> Option<MediaAction> {
    if cmd == "playpause"@ {
        Some(MediaAction::PlayPause)
    } else if cmd == "next"@ {
        Some(MediaAction::Next)
    } else if cmd == "prev"@ {
        Some(MediaAction::Prev)
    } else {
        None
    }
}

/// Reads a media command (see [`media_action_spec`]).
pub fn media_command(cmd: &str) -> (r: Option<MediaAction>)
    ensures
        r == media_action_spec(cmd@),
{
    if crate::json::str_eq(cmd, "playpause") {
        Some(MediaAction::PlayPause)
    } else if crate::json::str_eq(cmd, "next") {
        Some(MediaAction::Next)
    } else if crate::json::str_eq(cmd, "prev") {
        Some(MediaAction::Prev)
    } else {
        None
    }
}

/// The state of an asynchronous WinRT operation, as far as the waiting goes.
#[derive(PartialEq, Eq, Structural, Clone, Copy, Debug)]
pub enum AsyncState {
    Completed,
    Started,
    Other,
}

/// What to do next while waiting for an operation.
#[derive(PartialEq, Eq, Structural, Clone, Copy, Debug)]
pub enum WaitStep {
    /// Take the results.
    Take,
    /// Sleep a little (5 ms) and look again.
    Wait,
    /// Stop waiting; there is no result.
    GiveUp,
}

/// How many times the state of an operation is looked at before giving up.
pub const WAIT_POLLS: u32 = 400;

/// The step after looking at an operation for the `attempt`-th time (from 0): take the
/// results once it completed, wait while it is still running, give up when it failed or
/// after [`WAIT_POLLS`] looks.
pub fn wait_step(attempt: u32, state: AsyncState) -> (r: WaitStep)
    ensures
        r == if attempt >= WAIT_POLLS {
            WaitStep::GiveUp
        } else {
            match state {
                AsyncState::Completed => WaitStep::Take,
                AsyncState::Started => WaitStep::Wait,
                AsyncState::Other => WaitStep::GiveUp,
            }
        },
{
    if attempt >= WAIT_POLLS {
        return WaitStep::GiveUp;
    }
    match state {
        AsyncState::Completed => WaitStep::Take,
        AsyncState::Started => WaitStep::Wait,
        AsyncState::Other => WaitStep::GiveUp,
    }
}

/// The playback status code that means "playing".
pub const STATUS_PLAYING: i32 = 4;

/// The current session as (title, artist, is_playing), from what the session reported:
/// a missing title or artist is empty; it is playing only when the playback status is
/// known and is [`STATUS_PLAYING`].
pub fn now_playing(title: Option<String>, artist: Option<String>, status: Option<i32>) -> (r: (String, String, bool))
    ensures
        r.0@ == match title {
            Some(t) => t@,
            None => Seq::<char>::empty(),
        },
        r.1@ == match artist {
            Some(a) => a@,
            None => Seq::<char>::empty(),
        },
        r.2 == (status == Some(STATUS_PLAYING)),
{
    let t = match title {
        Some(t) => t,
        None => String::new(),
    };
    let a = match artist {
        Some(a) => a,
        None => String::new(),
    };
    let playing = match status {
        Some(s) => s == STATUS_PLAYING,
        None => false,
    };
    (t, a, playing)
}

/// The object handed to `pushNowPlaying`: `{"title":"..","artist":"..","playing":b}`
/// with both strings escaped; empty strings and `false` when nothing is playing.
pub open spec fn now_playing_json_spec(np: Option<(Seq<char>, Seq<char>, bool)>) -> Seq<char> {
    match np {
        Some((t, a, p)) => "{\"title\":\""@ + esc_spec(t) + "\",\"artist\":\""@ + esc_spec(a)
            + "\",\"playing\":"@ + (if p {
            "true"@
        } else {
            "false"@
        }) + "}"@,
        None => "{\"title\":\"\",\"artist\":\"\",\"playing\":false}"@,
    }
}

/// Writes [`now_playing_json_spec`].
pub fn now_playing_json(np: &Option<(String, String, bool)>) -> (r: String)
    ensures
        r@ == now_playing_json_spec(match np {
            Some(x) => Some((x.0@, x.1@, x.2)),
            None => None,
        }),
{
    match np {
        Some((t, a, p)) => {
            let mut out = string_of("{\"title\":\"");
            push_esc(&mut out, t.as_str());
            push_str(&mut out, "\",\"artist\":\"");
            push_esc(&mut out, a.as_str());
            push_str(&mut out, "\",\"playing\":");
            if *p {
                push_str(&mut out, "true");
            } else {
                push_str(&mut out, "false");
            }
            push_str(&mut out, "}");
            out
        },
        None => string_of("{\"title\":\"\",\"artist\":\"\",\"playing\":false}"),
    }
}

} // verus!

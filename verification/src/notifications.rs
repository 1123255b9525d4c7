//! Replaying real Windows toast notifications: which ones are new, and what text they show.
//!
//! Asking Windows for the notifications (WinRT) stays with the caller, which hands
//! over each live notification as (id, app name, text).
use vstd::prelude::*;
use std::collections::HashSet;
use crate::json::{filter_map, lemma_filter_map_push, pairs_view};
use crate::text::{push_str, string_of};

verus! {

broadcast use vstd::std_specs::hash::group_hash_axioms;

/// A live notification that is reported: its id was not seen before and it has an app
/// name or some text.
pub open spec fn fresh(seen: Set<u32>, n: (u32, Seq<char>, Seq<char>)) -> Option<(Seq<char>, Seq<char>)> {
    if !seen.contains(n.0) && (n.1.len() > 0 || n.2.len() > 0) {
        Some((n.1, n.2))
    } else {
        None
    }
}

pub open spec fn notifs_view(s: Seq<(u32, String, String)>) -> Seq<(u32, Seq<char>, Seq<char>)> {
    s.map_values(|n: (u32, String, String)| (n.0, n.1@, n.2@))
}

/// The ids of the live notifications.
pub open spec fn live_ids(live: Seq<(u32, Seq<char>, Seq<char>)>) -> Set<u32> {
    live.map_values(|n: (u32, Seq<char>, Seq<char>)| n.0).to_set()
}

/// One successful read: returns (app, text) of each live notification whose id is not in `seen`
/// and that has an app name or text, in the order given; afterwards `seen` holds exactly
/// the ids now live, so a notification that goes away and comes back fires again.
fn poll_live(seen: &mut HashSet<u32>, live: Vec<(u32, String, String)>) -> (r: Vec<(String, String)>)
    ensures
        pairs_view(r@) == filter_map(notifs_view(live@), |n: (u32, Seq<char>, Seq<char>)| fresh(old(seen)@, n)),
        final(seen)@ == live_ids(notifs_view(live@)),
{
    let ghost s0 = seen@;
    let ghost lv = notifs_view(live@);
    let ghost f = |n: (u32, Seq<char>, Seq<char>)| fresh(s0, n);
    let mut out: Vec<(String, String)> = Vec::new();
    let mut current: HashSet<u32> = HashSet::new();
    let mut i: usize = 0;
    proof {
        assert(lv.take(0) =~= Seq::<(u32, Seq<char>, Seq<char>)>::empty());
        assert(pairs_view(out@) =~= filter_map(lv.take(0), f));
        assert(current@ =~= lv.take(0).map_values(|n: (u32, Seq<char>, Seq<char>)| n.0).to_set());
    }
    while i < live.len()
        invariant
            i <= live@.len(),
            seen@ == s0,
            lv == notifs_view(live@),
            f == (|n: (u32, Seq<char>, Seq<char>)| fresh(s0, n)),
            pairs_view(out@) == filter_map(lv.take(i as int), f),
            current@ == lv.take(i as int).map_values(|n: (u32, Seq<char>, Seq<char>)| n.0).to_set(),
        decreases live.len() - i,
    {
        let id = live[i].0;
        proof {
            assert(lv.take(i + 1) =~= lv.take(i as int).push(lv[i as int]));
            lemma_filter_map_push(lv.take(i as int), lv[i as int], f);
        }
        let ghost c0 = current@;
        current.insert(id);
        proof {
            assert(lv.take(i + 1).map_values(|n: (u32, Seq<char>, Seq<char>)| n.0) =~= lv.take(i as int).map_values(|n: (u32, Seq<char>, Seq<char>)| n.0).push(id));
            lv.take(i as int).map_values(|n: (u32, Seq<char>, Seq<char>)| n.0).lemma_push_to_set_commute(id);
        }
        if !seen.contains(&id) && (!live[i].1.as_str().is_empty() || !live[i].2.as_str().is_empty()) {
            let ghost o = pairs_view(out@);
            out.push((live[i].1.clone(), live[i].2.clone()));
            proof {
                assert(f(lv[i as int]) == Some((live@[i as int].1@, live@[i as int].2@)));
                assert(pairs_view(out@) =~= o.push((live@[i as int].1@, live@[i as int].2@)));
            }
        } else {
            proof {
                assert(f(lv[i as int]) is None);
            }
        }
        i = i + 1;
    }
    proof {
        assert(lv.take(live@.len() as int) =~= lv);
    }
    *seen = current;
    out
}

/// Polling again while the same notifications are live reports nothing: each is
/// reported once (which is how the first, priming poll keeps old ones quiet).
pub proof fn lemma_poll_quiet(live: Seq<(u32, Seq<char>, Seq<char>)>)
    ensures
        filter_map(live, |n: (u32, Seq<char>, Seq<char>)| fresh(live_ids(live), n)) == Seq::<
            (Seq<char>, Seq<char>),
        >::empty(),
{
    let ids = live_ids(live);
    let f = |n: (u32, Seq<char>, Seq<char>)| fresh(ids, n);
    assert forall|k: int| 0 <= k <= live.len() implies #[trigger] filter_map(live.take(k), f)
        == Seq::<(Seq<char>, Seq<char>)>::empty() by {
        lemma_quiet_prefix(live, k);
    }
    assert(live.take(live.len() as int) =~= live);
}

proof fn lemma_quiet_prefix(live: Seq<(u32, Seq<char>, Seq<char>)>, k: int)
    requires
        0 <= k <= live.len(),
    ensures
        filter_map(live.take(k), |n: (u32, Seq<char>, Seq<char>)| fresh(live_ids(live), n))
            == Seq::<(Seq<char>, Seq<char>)>::empty(),
    decreases k,
{
    let f = |n: (u32, Seq<char>, Seq<char>)| fresh(live_ids(live), n);
    if k == 0 {
        assert(live.take(0) =~= Seq::<(u32, Seq<char>, Seq<char>)>::empty());
    } else {
        lemma_quiet_prefix(live, k - 1);
        assert(live.take(k) =~= live.take(k - 1).push(live[k - 1]));
        lemma_filter_map_push(live.take(k - 1), live[k - 1], f);
        let ids = live.map_values(|n: (u32, Seq<char>, Seq<char>)| n.0);
        assert(ids[k - 1] == live[k - 1].0);
        assert(ids.contains(live[k - 1].0));
        assert(live_ids(live).contains(live[k - 1].0));
        assert(f(live[k - 1]) is None);
    }
}

/// A notification that was not live at the last poll is reported when it shows up,
/// as long as it has an app name or text: one that goes away and comes back fires again.
pub proof fn lemma_poll_refires(before: Seq<(u32, Seq<char>, Seq<char>)>, n: (u32, Seq<char>, Seq<char>))
    requires
        !live_ids(before).contains(n.0),
        n.1.len() > 0 || n.2.len() > 0,
    ensures
        fresh(live_ids(before), n) == Some((n.1, n.2)),
{
}

/// One poll, given what reading the live notifications gave: `None` when the listener
/// or the read failed, which reports nothing and leaves `seen` as it was; otherwise each
/// live notification as (id, app name, text). Reports (app, text) of each live
/// notification whose id is not in `seen` and that has an app name or text, in order;
/// afterwards `seen` holds exactly the ids now live, so a notification that goes away
/// and comes back fires again.
pub fn poll(seen: &mut HashSet<u32>, live: Option<Vec<(u32, String, String)>>) -> (r: Vec<(String, String)>)
    ensures
        match live {
            Some(l) => {
                &&& pairs_view(r@) == filter_map(
                    notifs_view(l@),
                    |n: (u32, Seq<char>, Seq<char>)| fresh(old(seen)@, n),
                )
                &&& final(seen)@ == live_ids(notifs_view(l@))
            },
            None => r@.len() == 0 && final(seen)@ == old(seen)@,
        },
{
    match live {
        Some(l) => poll_live(seen, l),
        None => Vec::new(),
    }
}

/// Non-empty pieces joined with ` · `.
pub open spec fn join_dot(parts: Seq<Seq<char>>) -> Seq<char>
    decreases parts.len(),
{
    if parts.len() == 0 {
        Seq::empty()
    } else if parts.len() == 1 {
        parts[0]
    } else {
        join_dot(parts.drop_last()) + " · "@ + parts.last()
    }
}

/// The non-empty text elements, in order.
pub open spec fn nonempty(parts: Seq<Seq<char>>) -> Seq<Seq<char>> {
    parts.filter(|p: Seq<char>| p.len() > 0)
}

/// The text a toast shows: its non-empty text elements joined with ` · `.
pub fn notif_text(elements: &Vec<String>) -> (r: String)
    ensures
        r@ == join_dot(nonempty(elements@.map_values(|s: String| s@))),
{
    let ghost ev = elements@.map_values(|s: String| s@);
    let ghost kept: Seq<Seq<char>> = Seq::empty();
    let mut out = String::new();
    let mut count: usize = 0;
    let mut i: usize = 0;
    proof {
        assert(ev.take(0) =~= Seq::<Seq<char>>::empty());
        assert(nonempty(ev.take(0)) =~= Seq::<Seq<char>>::empty());
    }
    while i < elements.len()
        invariant
            i <= elements@.len(),
            ev == elements@.map_values(|s: String| s@),
            out@ == join_dot(nonempty(ev.take(i as int))),
            count == nonempty(ev.take(i as int)).len(),
            count <= i,
        decreases elements.len() - i,
    {
        proof {
            assert(ev.take(i + 1) =~= ev.take(i as int).push(ev[i as int]));
            ev.take(i as int).lemma_filter_push(ev[i as int], |p: Seq<char>| p.len() > 0);
        }
        let e = &elements[i];
        if !e.as_str().is_empty() {
            let ghost o = out@;
            if count > 0 {
                push_str(&mut out, " · ");
            }
            push_str(&mut out, e.as_str());
            proof {
                let k = nonempty(ev.take(i as int));
                let k2 = k.push(ev[i as int]);
                assert(k2.drop_last() =~= k);
                if count == 0 {
                    assert(out@ =~= ev[i as int]);
                } else {
                    assert(out@ =~= o + " · "@ + ev[i as int]);
                }
            }
            count = count + 1;
        }
        i = i + 1;
    }
    proof {
        assert(ev.take(elements@.len() as int) =~= ev);
    }
    out
}

/// The batarang message for a notification: `app · text`, or whichever of the two is
/// non-empty; nothing when both are empty.
pub open spec fn notif_message_spec(app: Seq<char>, text: Seq<char>) -> Option<Seq<char>> {
    if app.len() > 0 && text.len() > 0 {
        Some(app + " · "@ + text)
    } else if app.len() > 0 {
        Some(app)
    } else if text.len() > 0 {
        Some(text)
    } else {
        None
    }
}

/// The message shown for a notification of `app` with `text`.
pub fn notif_message(app: &str, text: &str) -> (r: Option<String>)
    ensures
        match r {
            Some(m) => notif_message_spec(app@, text@) == Some(m@),
            None => notif_message_spec(app@, text@) is None,
        },
{
    match (app.is_empty(), text.is_empty()) {
        (false, false) => {
            let mut m = string_of(app);
            push_str(&mut m, " · ");
            push_str(&mut m, text);
            Some(m)
        },
        (false, true) => Some(string_of(app)),
        (true, false) => Some(string_of(text)),
        _ => None,
    }
}

/// The `reg` arguments that turn native toast banners on or off (the notifications
/// still reach the Action Center, so the listener keeps seeing them).
pub open spec fn toast_reg_args(enabled: bool) -> Seq<Seq<char>> {
    seq![
        "add"@,
        "HKCU\\Software\\Microsoft\\Windows\\CurrentVersion\\Notifications\\Settings"@,
        "/v"@,
        "NOC_GLOBAL_SETTING_TOASTS_ENABLED"@,
        "/t"@,
        "REG_DWORD"@,
        "/d"@,
        if enabled { "1"@ } else { "0"@ },
        "/f"@,
    ]
}

/// Arguments for `reg` that set native toast banners on (`true`) or off.
pub fn set_native_toasts(enabled: bool) -> (r: Vec<String>)
    ensures
        r@.map_values(|s: String| s@) == toast_reg_args(enabled),
{
    let r = vec![
        string_of("add"),
        string_of("HKCU\\Software\\Microsoft\\Windows\\CurrentVersion\\Notifications\\Settings"),
        string_of("/v"),
        string_of("NOC_GLOBAL_SETTING_TOASTS_ENABLED"),
        string_of("/t"),
        string_of("REG_DWORD"),
        string_of("/d"),
        if enabled { string_of("1") } else { string_of("0") },
        string_of("/f"),
    ];
    proof {
        assert(r@.map_values(|s: String| s@) =~= toast_reg_args(enabled));
    }
    r
}

} // verus!

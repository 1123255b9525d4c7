//! Clipboard history: the last distinct copies, newest first, with the app they came from.
//!
//! Polling the clipboard and asking Windows for the foreground process are the caller's.
use vstd::prelude::*;
use crate::json::{pairs_view, str_eq};
use crate::sorting::first;
use crate::text::{chars_eq, chars_of, eq_ignore_ascii_case, eq_ignore_ascii_case_exec, string_of};
use crate::words::{is_blank, trim};

verus! {

/// Most entries the history keeps.
pub const CLIP_HISTORY_MAX: usize = 40;

/// The source shown for a copy: the foreground process name, or `clipboard` when it is
/// unknown (empty) or the host itself (`host.exe`, in any ASCII case).
pub open spec fn clip_source_spec(name: Seq<char>) -> Seq<char> {
    if name.len() == 0 || eq_ignore_ascii_case(name, "host.exe"@) {
        "clipboard"@
    } else {
        name
    }
}

/// Names the source of a copy (see [`clip_source_spec`]).
pub fn clip_source(name: &str) -> (r: String)
    ensures
        r@ == clip_source_spec(name@),
{
    let n = chars_of(name);
    let host = chars_of("host.exe");
    if n.len() == 0 || eq_ignore_ascii_case_exec(n.as_slice(), host.as_slice()) {
        string_of("clipboard")
    } else {
        string_of(name)
    }
}

/// Whether clipboard text is a new copy to record: not blank, and not what was seen last.
pub fn is_new_copy(txt: &str, last: &str) -> (r: bool)
    ensures
        r == (trim(txt@).len() > 0 && txt@ != last@),
{
    !is_blank(txt) && !str_eq(txt, last)
}

/// Entries whose text is not `txt`.
pub open spec fn other_text(txt: Seq<char>) -> spec_fn((Seq<char>, Seq<char>)) -> bool {
    |e: (Seq<char>, Seq<char>)| e.0 != txt
}

/// The history after recording `txt` from `src`: the new entry first, then the older
/// entries with another text, in order, cut to [`CLIP_HISTORY_MAX`].
pub open spec fn record_spec(h: Seq<(Seq<char>, Seq<char>)>, txt: Seq<char>, src: Seq<char>) -> Seq<(Seq<char>, Seq<char>)> {
    first(
        seq![(txt, src)] + h.filter(other_text(txt)),
        CLIP_HISTORY_MAX as int,
    )
}

/// Records a copy (see [`record_spec`]).
pub fn record(history: &mut Vec<(String, String)>, txt: String, src: String)
    ensures
        pairs_view(final(history)@) == record_spec(pairs_view(old(history)@), txt@, src@),
{
    let ghost h = pairs_view(history@);
    let ghost t = txt@;
    let ghost p = other_text(t);
    let mut out: Vec<(String, String)> = Vec::new();
    let ghost head = seq![(txt@, src@)];
    let ghost src_v = src@;
    let mut i: usize = 0;
    let mut old_entries: Vec<(String, String)> = Vec::new();
    std::mem::swap(&mut old_entries, history);
    let tv = chars_of(txt.as_str());
    out.push((txt, src));
    proof {
        assert(h.take(0) =~= Seq::<(Seq<char>, Seq<char>)>::empty());
        assert(pairs_view(out@) =~= head + h.take(0).filter(p));
    }
    while i < old_entries.len()
        invariant
            i <= old_entries@.len(),
            h == pairs_view(old_entries@),
            tv@ == t,
            p == other_text(t),
            pairs_view(out@) == head + h.take(i as int).filter(p),
        decreases old_entries.len() - i,
    {
        proof {
            assert(h.take(i + 1) =~= h.take(i as int).push(h[i as int]));
            h.take(i as int).lemma_filter_push(h[i as int], p);
        }
        let ev = chars_of(old_entries[i].0.as_str());
        let same = chars_eq(ev.as_slice(), tv.as_slice());
        if !same {
            let ghost before = out@;
            out.push((old_entries[i].0.clone(), old_entries[i].1.clone()));
            proof {
                assert(pairs_view(out@) =~= pairs_view(before).push(h[i as int]));
            }
        }
        i = i + 1;
    }
    proof {
        assert(h.take(old_entries@.len() as int) =~= h);
    }
    if out.len() > CLIP_HISTORY_MAX {
        let ghost o = out@;
        out.truncate(CLIP_HISTORY_MAX);
        proof {
            assert(pairs_view(out@) =~= pairs_view(o).take(CLIP_HISTORY_MAX as int));
        }
    }
    proof {
        let full = head + h.filter(p);
        assert(full == seq![(t, src_v)] + h.filter(other_text(t)));
        if (CLIP_HISTORY_MAX as int) < full.len() {
            assert(pairs_view(out@) == full.take(CLIP_HISTORY_MAX as int));
        } else {
            assert(pairs_view(out@) == full);
        }
        assert(pairs_view(out@) == record_spec(h, t, src_v));
    }
    *history = out;
}

/// The text of entry `i` (for `clip:<i>`), when there is one.
pub fn clip_text(history: &Vec<(String, String)>, i: usize) -> (r: Option<String>)
    ensures
        match r {
            Some(t) => i < history@.len() && t@ == history@[i as int].0@,
            None => i >= history@.len(),
        },
{
    if i < history.len() {
        Some(history[i].0.clone())
    } else {
        None
    }
}

/// The texts of a history are pairwise different.
pub open spec fn distinct_texts(h: Seq<(Seq<char>, Seq<char>)>) -> bool {
    forall|i: int, j: int| 0 <= i < j < h.len() ==> (#[trigger] h[i]).0 != (#[trigger] h[j]).0
}

/// The newest copy is always first, and the history never holds more than
/// [`CLIP_HISTORY_MAX`] entries.
pub proof fn lemma_record_newest_first(h: Seq<(Seq<char>, Seq<char>)>, txt: Seq<char>, src: Seq<char>)
    ensures
        record_spec(h, txt, src).len() >= 1,
        record_spec(h, txt, src)[0] == (txt, src),
        record_spec(h, txt, src).len() <= CLIP_HISTORY_MAX,
{
}

/// Recording keeps the copies distinct: a text appears at most once, so copying the
/// same text again moves it to the front instead of adding it twice.
pub proof fn lemma_record_distinct(h: Seq<(Seq<char>, Seq<char>)>, txt: Seq<char>, src: Seq<char>)
    requires
        distinct_texts(h),
    ensures
        distinct_texts(record_spec(h, txt, src)),
{
    let p = other_text(txt);
    let f = h.filter(p);
    lemma_filter_distinct(h, p);
    let all = seq![(txt, src)] + f;
    assert forall|i: int, j: int| 0 <= i < j < all.len() implies (#[trigger] all[i]).0 != (#[trigger] all[j]).0 by {
        if i == 0 {
            assert(all[j] == f[j - 1]);
            assert(p(f[j - 1]));
        } else {
            assert(all[i] == f[i - 1]);
            assert(all[j] == f[j - 1]);
        }
    }
    let r = record_spec(h, txt, src);
    if (CLIP_HISTORY_MAX as int) < all.len() {
        assert(r == all.take(CLIP_HISTORY_MAX as int));
    } else {
        assert(r == all);
    }
    assert forall|i: int, j: int| 0 <= i < j < r.len() implies (#[trigger] r[i]).0 != (#[trigger] r[j]).0 by {
        assert(r[i] == all[i]);
        assert(r[j] == all[j]);
    }
}

/// Filtering keeps texts distinct, and everything kept passes the filter.
proof fn lemma_filter_distinct(h: Seq<(Seq<char>, Seq<char>)>, p: spec_fn((Seq<char>, Seq<char>)) -> bool)
    requires
        distinct_texts(h),
    ensures
        distinct_texts(h.filter(p)),
        forall|k: int| 0 <= k < h.filter(p).len() ==> p(#[trigger] h.filter(p)[k]),
    decreases h.len(),
{
    if h.len() > 0 {
        let d = h.drop_last();
        assert(distinct_texts(d)) by {
            assert forall|i: int, j: int| 0 <= i < j < d.len() implies (#[trigger] d[i]).0 != (#[trigger] d[j]).0 by {
                assert(d[i] == h[i]);
                assert(d[j] == h[j]);
            }
        }
        lemma_filter_distinct(d, p);
        assert(h =~= d.push(h.last()));
        d.lemma_filter_push(h.last(), p);
        let fd = d.filter(p);
        if p(h.last()) {
            assert forall|k: int| 0 <= k < fd.len() implies (#[trigger] fd[k]).0 != h.last().0 by {
                assert(fd.contains(fd[k]));
                d.lemma_filter_contains_rev(p, fd[k]);
                let w = choose|m: int| 0 <= m < d.len() && d[m] == fd[k];
                assert(d[w] == h[w]);
                assert(h[w].0 != h[h.len() - 1].0);
            }
            let g = fd.push(h.last());
            assert forall|i: int, j: int| 0 <= i < j < g.len() implies (#[trigger] g[i]).0 != (#[trigger] g[j]).0 by {
                if j == g.len() - 1 {
                    assert(g[i] == fd[i]);
                } else {
                    assert(g[i] == fd[i]);
                    assert(g[j] == fd[j]);
                }
            }
            assert forall|k: int| 0 <= k < g.len() implies p(#[trigger] g[k]) by {
                if k < fd.len() {
                    assert(g[k] == fd[k]);
                }
            }
        }
    }
}

} // verus!

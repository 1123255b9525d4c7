//! Process search for the launcher's `kill` command.
//!
//! Reading the process table (`sysinfo`) and killing a process stay with the caller,
//! which hands over each running process as (name, pid, memory in bytes).
use vstd::prelude::*;
use crate::sorting::SortKey;
use crate::json::{filter_map, lemma_filter_map_member, lemma_filter_map_push};
use crate::sorting::{
    first, isort, kview, lemma_first_isort, stable_sort_take, strip, strip_keys, views, Descending,
};
use crate::text::{chars_of, contains, contains_exec, lower, to_lowercase};

verus! {

/// Most processes a search lists.
pub const MAX_PROCS: usize = 20;

/// A process whose lowercased name contains `q`, keyed by its memory.
pub open spec fn proc_match(q: Seq<char>, p: (Seq<char>, u32, u64)) -> Option<(u64, (Seq<char>, u32, u64))> {
    if contains(lower(p.0), q) {
        Some((p.2, p))
    } else {
        None
    }
}

/// The processes whose name contains `query` (both lowercased), biggest memory first
/// (equal sizes keep their order), at most [`MAX_PROCS`]; none for an empty query.
pub open spec fn find_spec(query: Seq<char>, table: Seq<(Seq<char>, u32, u64)>) -> Seq<(Seq<char>, u32, u64)> {
    let q = lower(query);
    if q.len() == 0 {
        Seq::empty()
    } else {
        strip(
            first(
                isort::<Descending, (Seq<char>, u32, u64)>(
                    filter_map(table, |p: (Seq<char>, u32, u64)| proc_match(q, p)),
                ),
                MAX_PROCS as int,
            ),
        )
    }
}

/// Running processes (from `table`) whose name contains `query`, as
/// (name, pid, mem_bytes), biggest first (see [`find_spec`]).
pub fn find(query: &str, table: Vec<(String, u32, u64)>) -> (r: Vec<(String, u32, u64)>)
    ensures
        views(r@) == find_spec(query@, views(table@)),
        query@.len() == 0 ==> r@.len() == 0,
{
    let q = to_lowercase(query);
    if q.as_str().is_empty() {
        let out: Vec<(String, u32, u64)> = Vec::new();
        proof {
            assert(views(out@) =~= Seq::<(Seq<char>, u32, u64)>::empty());
        }
        return out;
    }
    let qc = chars_of(q.as_str());
    let ghost tv = views(table@);
    let ghost f = |p: (Seq<char>, u32, u64)| proc_match(lower(query@), p);
    let mut keyed: Vec<(Descending, (String, u32, u64))> = Vec::new();
    let mut i: usize = 0;
    proof {
        assert(tv.take(0) =~= Seq::<(Seq<char>, u32, u64)>::empty());
        assert(kview(keyed@) =~= Seq::<(u64, (Seq<char>, u32, u64))>::empty());
    }
    while i < table.len()
        invariant
            i <= table@.len(),
            tv == views(table@),
            qc@ == lower(query@),
            f == (|p: (Seq<char>, u32, u64)| proc_match(lower(query@), p)),
            kview(keyed@) == filter_map(tv.take(i as int), f),
        decreases table.len() - i,
    {
        proof {
            assert(tv.take(i + 1) =~= tv.take(i as int).push(tv[i as int]));
            lemma_filter_map_push(tv.take(i as int), tv[i as int], f);
        }
        let name = to_lowercase(table[i].0.as_str());
        let nc = chars_of(name.as_str());
        if contains_exec(nc.as_slice(), qc.as_slice()) {
            let entry = (table[i].0.clone(), table[i].1, table[i].2);
            let ghost before = keyed@;
            let ghost ev = entry@;
            keyed.push((Descending(table[i].2), entry));
            proof {
                assert(ev == tv[i as int]);
                assert(f(tv[i as int]) == Some((tv[i as int].2, tv[i as int])));
                assert(kview(keyed@) =~= kview(before).push((tv[i as int].2, tv[i as int])));
            }
        } else {
            proof {
                assert(f(tv[i as int]) is None);
            }
        }
        i = i + 1;
    }
    proof {
        assert(tv.take(table@.len() as int) =~= tv);
    }
    let top = stable_sort_take(keyed, MAX_PROCS);
    strip_keys(top)
}

/// A process search lists processes of the table whose name contains the query, biggest
/// memory first, never more than [`MAX_PROCS`].
pub proof fn lemma_find_biggest_first(query: Seq<char>, table: Seq<(Seq<char>, u32, u64)>)
    ensures
        find_spec(query, table).len() <= MAX_PROCS,
        forall|i: int, j: int| 0 <= i < j < find_spec(query, table).len() ==> (#[trigger] find_spec(query, table)[i]).2
            >= (#[trigger] find_spec(query, table)[j]).2,
        forall|i: int| 0 <= i < find_spec(query, table).len() ==> table.contains(#[trigger] find_spec(query, table)[i])
            && contains(lower(find_spec(query, table)[i].0), lower(query)),
{
    let q = lower(query);
    if q.len() > 0 {
        let f = |p: (Seq<char>, u32, u64)| proc_match(q, p);
        let fm = filter_map(table, f);
        let top = first(isort::<Descending, (Seq<char>, u32, u64)>(fm), MAX_PROCS as int);
        lemma_first_isort::<Descending, (Seq<char>, u32, u64)>(fm, MAX_PROCS as int);
        crate::sorting::lemma_isort_sorted::<Descending, (Seq<char>, u32, u64)>(fm);
        let r = find_spec(query, table);
        assert(r == strip(top));
        assert forall|i: int| 0 <= i < r.len() implies table.contains(#[trigger] r[i]) && contains(lower(r[i].0), q) && r[i].2 == top[i].0 by {
            assert(r[i] == top[i].1);
            assert(fm.contains(top[i]));
            let k = choose|k: int| 0 <= k < fm.len() && fm[k] == top[i];
            lemma_filter_map_member(table, f, k);
            let m = choose|m: int| 0 <= m < table.len() && f(table[m]) == Some(fm[k]);
            assert(proc_match(q, table[m]) == Some(fm[k]));
        }
        assert forall|i: int, j: int| 0 <= i < j < r.len() implies (#[trigger] r[i]).2 >= (#[trigger] r[j]).2 by {
            assert(r[i].2 == top[i].0);
            assert(r[j].2 == top[j].0);
            assert(Descending::key_le(top[i].0, top[j].0));
        }
    }
}

} // verus!

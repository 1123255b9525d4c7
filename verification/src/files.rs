//! Instant file search over the MFT index: which paths a query finds, best first.
use vstd::prelude::*;
use crate::bytes::{utf8_len, utf8_len_sat};
use crate::json::{filter_map, lemma_filter_map_member, lemma_filter_map_push, pairs_view};
use crate::sorting::{
    first, isort, kview, lemma_first_isort, stable_sort_take, strip, strip_keys, views, RankThenLen,
    SortKey,
};
use crate::text::{
    chars_of, contains, contains_exec, lower, starts_with, starts_with_exec, string_from_chars,
    string_of, to_lowercase,
};
use crate::words::{rsplit_once, rsplit_once_spec};

verus! {

/// Most paths a file search lists.
pub const MAX_FILE_HITS: usize = 500;

/// The file name of a path: what follows its last `\` (the whole path when it has none).
pub open spec fn file_name(p: Seq<char>) -> Seq<char> {
    match rsplit_once_spec(p, '\\') {
        Some((_, name)) => name,
        None => p,
    }
}

/// Writes [`file_name`].
pub fn file_name_exec(p: &str) -> (r: String)
    ensures
        r@ == file_name(p@),
{
    match rsplit_once(p, '\\') {
        Some((_, name)) => name,
        None => string_of(p),
    }
}

/// A character with ASCII upper case turned to lower case.
pub open spec fn ascii_lower_char(c: char) -> char {
    if 'A' <= c <= 'Z' {
        ((c as u8) + 32) as char
    } else {
        c
    }
}

/// `str::to_ascii_lowercase`.
pub open spec fn ascii_lower(s: Seq<char>) -> Seq<char> {
    s.map_values(|c: char| ascii_lower_char(c))
}

/// The ASCII-lowercased characters of `s`.
fn ascii_lower_exec(s: &str) -> (r: Vec<char>)
    ensures
        r@ == ascii_lower(s@),
{
    let v = chars_of(s);
    let mut out: Vec<char> = Vec::new();
    let mut i: usize = 0;
    while i < v.len()
        invariant
            i <= v@.len(),
            v@ == s@,
            out@ == ascii_lower(v@.take(i as int)),
        decreases v.len() - i,
    {
        let c = v[i];
        let l = if 'A' <= c && c <= 'Z' {
            ((c as u8) + 32) as char
        } else {
            c
        };
        proof {
            assert(ascii_lower(v@.take(i + 1)) =~= ascii_lower(v@.take(i as int)).push(l));
        }
        out.push(l);
        i = i + 1;
    }
    proof {
        assert(v@.take(v@.len() as int) =~= v@);
    }
    out
}

/// How well a path matches a lowercased query: 2 when its ASCII-lowercased file name
/// starts with the query, 1 when the name contains it elsewhere, `None` when it does not.
pub open spec fn file_rank(p: Seq<char>, ql: Seq<char>) -> Option<u64> {
    let n = ascii_lower(file_name(p));
    if starts_with(n, ql) {
        Some(2)
    } else if contains(n, ql) {
        Some(1)
    } else {
        None
    }
}

/// A path the search finds, keyed by (rank, length in bytes).
pub open spec fn file_hit(ql: Seq<char>, p: Seq<char>) -> Option<((u64, u64), Seq<char>)> {
    match file_rank(p, ql) {
        Some(r) => Some(((r, utf8_len_sat(p)), p)),
        None => None,
    }
}

/// The paths a search lists: those found, better rank first and shorter path first
/// within a rank (otherwise in the given order), at most [`MAX_FILE_HITS`]. The query is
/// lowercased with Unicode rules, the file names with ASCII rules.
pub open spec fn search_files_spec(paths: Seq<Seq<char>>, q: Seq<char>) -> Seq<Seq<char>> {
    strip(
        first(
            isort::<RankThenLen, Seq<char>>(filter_map(paths, |p: Seq<char>| file_hit(lower(q), p))),
            MAX_FILE_HITS as int,
        ),
    )
}

/// The indexed paths (in `paths`) that the query `q` finds (see [`search_files_spec`]).
pub fn search_files(paths: &Vec<String>, q: &str) -> (r: Vec<String>)
    ensures
        views(r@) == search_files_spec(views(paths@), q@),
{
    let ql = to_lowercase(q);
    let qc = chars_of(ql.as_str());
    let ghost pv = views(paths@);
    let ghost f = |p: Seq<char>| file_hit(lower(q@), p);
    let mut keyed: Vec<(RankThenLen, String)> = Vec::new();
    let mut i: usize = 0;
    proof {
        assert(pv.take(0) =~= Seq::<Seq<char>>::empty());
        assert(kview(keyed@) =~= Seq::<((u64, u64), Seq<char>)>::empty());
    }
    while i < paths.len()
        invariant
            i <= paths@.len(),
            pv == views(paths@),
            qc@ == lower(q@),
            f == (|p: Seq<char>| file_hit(lower(q@), p)),
            kview(keyed@) == filter_map(pv.take(i as int), f),
        decreases paths.len() - i,
    {
        proof {
            assert(pv.take(i + 1) =~= pv.take(i as int).push(pv[i as int]));
            lemma_filter_map_push(pv.take(i as int), pv[i as int], f);
        }
        let p = paths[i].as_str();
        let name = file_name_exec(p);
        let nl = ascii_lower_exec(name.as_str());
        let rank: u64 = if starts_with_exec(nl.as_slice(), qc.as_slice()) {
            2
        } else if contains_exec(nl.as_slice(), qc.as_slice()) {
            1
        } else {
            0
        };
        if rank > 0 {
            let len = utf8_len(p);
            let ghost before = keyed@;
            keyed.push((RankThenLen(rank, len), paths[i].clone()));
            proof {
                assert(f(pv[i as int]) == Some(((rank, len), pv[i as int])));
                assert(kview(keyed@) =~= kview(before).push(((rank, len), pv[i as int])));
            }
        } else {
            proof {
                assert(f(pv[i as int]) is None);
            }
        }
        i = i + 1;
    }
    proof {
        assert(pv.take(paths@.len() as int) =~= pv);
    }
    let top = stable_sort_take(keyed, MAX_FILE_HITS);
    strip_keys(top)
}

/// Each path with its file name first, as the launcher lists them: (name, path).
pub fn named_paths(paths: &Vec<String>) -> (r: Vec<(String, String)>)
    ensures
        pairs_view(r@) == views(paths@).map_values(|p: Seq<char>| (file_name(p), p)),
{
    let mut out: Vec<(String, String)> = Vec::new();
    let mut i: usize = 0;
    while i < paths.len()
        invariant
            i <= paths@.len(),
            pairs_view(out@) == views(paths@).take(i as int).map_values(
                |p: Seq<char>| (file_name(p), p),
            ),
        decreases paths.len() - i,
    {
        let name = file_name_exec(paths[i].as_str());
        let ghost before = out@;
        out.push((name, paths[i].clone()));
        proof {
            assert(views(paths@).take(i + 1) =~= views(paths@).take(i as int).push(paths@[i as int]@));
            assert(pairs_view(out@) =~= pairs_view(before).push((file_name(paths@[i as int]@), paths@[i as int]@)));
        }
        i = i + 1;
    }
    proof {
        assert(views(paths@).take(paths@.len() as int) =~= views(paths@));
    }
    out
}

/// A file search lists indexed paths that match, prefix matches of the file name before
/// other matches, shorter paths first within each, never more than [`MAX_FILE_HITS`].
pub proof fn lemma_search_files_ranked(paths: Seq<Seq<char>>, q: Seq<char>)
    ensures
        search_files_spec(paths, q).len() <= MAX_FILE_HITS,
        forall|i: int| 0 <= i < search_files_spec(paths, q).len() ==> paths.contains(
            #[trigger] search_files_spec(paths, q)[i],
        ) && file_rank(search_files_spec(paths, q)[i], lower(q)) is Some,
        forall|i: int, j: int| 0 <= i < j < search_files_spec(paths, q).len() ==> {
            let a = #[trigger] search_files_spec(paths, q)[i];
            let b = #[trigger] search_files_spec(paths, q)[j];
            file_rank(a, lower(q)).unwrap() > file_rank(b, lower(q)).unwrap() || (file_rank(
                a,
                lower(q),
            ).unwrap() == file_rank(b, lower(q)).unwrap() && utf8_len_sat(a) <= utf8_len_sat(b))
        },
{
    let ql = lower(q);
    let f = |p: Seq<char>| file_hit(ql, p);
    let fm = filter_map(paths, f);
    let top = first(isort::<RankThenLen, Seq<char>>(fm), MAX_FILE_HITS as int);
    lemma_first_isort::<RankThenLen, Seq<char>>(fm, MAX_FILE_HITS as int);
    crate::sorting::lemma_isort_sorted::<RankThenLen, Seq<char>>(fm);
    let r = search_files_spec(paths, q);
    assert(r == strip(top));
    assert forall|i: int| 0 <= i < r.len() implies paths.contains(#[trigger] r[i]) && file_rank(r[i], ql) is Some
        && top[i].0 == (file_rank(r[i], ql).unwrap(), utf8_len_sat(r[i])) by {
        assert(r[i] == top[i].1);
        assert(fm.contains(top[i]));
        let k = choose|k: int| 0 <= k < fm.len() && fm[k] == top[i];
        lemma_filter_map_member(paths, f, k);
        let m = choose|m: int| 0 <= m < paths.len() && f(paths[m]) == Some(fm[k]);
        assert(file_hit(ql, paths[m]) == Some(fm[k]));
    }
    assert forall|i: int, j: int| 0 <= i < j < r.len() implies {
        let a = #[trigger] r[i];
        let b = #[trigger] r[j];
        file_rank(a, ql).unwrap() > file_rank(b, ql).unwrap() || (file_rank(a, ql).unwrap()
            == file_rank(b, ql).unwrap() && utf8_len_sat(a) <= utf8_len_sat(b))
    } by {
        assert(top[i].0 == (file_rank(r[i], ql).unwrap(), utf8_len_sat(r[i])));
        assert(top[j].0 == (file_rank(r[j], ql).unwrap(), utf8_len_sat(r[j])));
        assert(RankThenLen::key_le(top[i].0, top[j].0));
    }
}

} // verus!

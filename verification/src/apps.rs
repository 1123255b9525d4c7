//! Installed apps, Steam games and Obsidian notes for the launcher, plus the commands
//! that launch apps and shells and set the panel brightness.
//!
//! Walking folders and spawning processes is left to the caller; this module decides
//! what a folder entry or a file's text contributes, and how the lists are ordered.
use vstd::prelude::*;
use crate::json::{
    as_str, field, get, json_parse, opt_str, pairs_view, parse_json, Json,
};
use crate::sorting::{
    dedup, dedup_by_key, first, isort, kview, lemma_dedup_keeps_order, lemma_dedup_neighbours_differ,
    lemma_isort_member, lemma_isort_sorted, stable_sort, strip, strip_keys, views,
};
use crate::text::{
    ascii_fold, chars_of, contains, contains_exec, eq_ignore_ascii_case, eq_ignore_ascii_case_exec, lex_le,
    lines, lines_of, lower, push_char, push_decimal, push_str, seqs_view, split_char, split_on,
    string_from_chars, string_of, to_lowercase, decimal, lemma_split_nonempty, starts_with,
    starts_with_exec,
};

verus! {

// ---------------------------------------------------------------------------------------
// Valve ACF / VDF text
// ---------------------------------------------------------------------------------------

/// The value of a `"key"  "value"` line: the line split at `"` has a second piece equal
/// to `key` and at least four pieces; the value is the fourth.
pub open spec fn acf_line(line: Seq<char>, key: Seq<char>) -> Option<Seq<char>> {
    let parts = split_on(line, '"');
    if parts.len() >= 4 && parts[1] == key {
        Some(parts[3])
    } else {
        None
    }
}

/// The value on the first line that [`acf_line`] accepts.
pub open spec fn acf_first(ls: Seq<Seq<char>>, key: Seq<char>) -> Option<Seq<char>>
    decreases ls.len(),
{
    if ls.len() == 0 {
        None
    } else {
        match acf_line(ls[0], key) {
            Some(v) => Some(v),
            None => acf_first(ls.drop_first(), key),
        }
    }
}

/// Pulls a `"key"  "value"` pair out of Valve VDF/ACF text: the value on the first line
/// whose second quoted field is `key`.
pub fn acf_val(txt: &str, key: &str) -> (r: Option<String>)
    ensures
        match r {
            Some(v) => acf_first(lines_of(txt@), key@) == Some(v@),
            None => acf_first(lines_of(txt@), key@) is None,
        },
{
    let ls = lines(txt);
    let k = chars_of(key);
    let ghost all = seqs_view(ls@);
    let mut i: usize = 0;
    proof {
        assert(all.skip(0) =~= all);
    }
    while i < ls.len()
        invariant
            i <= ls@.len(),
            all == seqs_view(ls@),
            all == lines_of(txt@),
            k@ == key@,
            acf_first(all, key@) == acf_first(all.skip(i as int), key@),
        decreases ls.len() - i,
    {
        proof {
            assert(all.skip(i as int)[0] == ls@[i as int]@);
            assert(all.skip(i as int).drop_first() =~= all.skip(i + 1));
        }
        let parts = split_char(ls[i].as_slice(), '"');
        if parts.len() >= 4 && crate::text::chars_eq(parts[1].as_slice(), k.as_slice()) {
            proof {
                assert(seqs_view(parts@)[1] == parts@[1]@);
                assert(seqs_view(parts@)[3] == parts@[3]@);
            }
            return Some(string_from_chars(parts[3].as_slice()));
        }
        proof {
            if seqs_view(parts@).len() >= 4 {
                assert(seqs_view(parts@)[1] == parts@[1]@);
            }
        }
        i = i + 1;
    }
    None
}

/// `s` with every `\\` pair turned into one `\`, scanning left to right (`str::replace`).
pub open spec fn collapse_backslashes(s: Seq<char>) -> Seq<char>
    decreases s.len(),
{
    if s.len() == 0 {
        s
    } else if s.len() >= 2 && s[0] == '\\' && s[1] == '\\' {
        seq!['\\'] + collapse_backslashes(s.skip(2))
    } else {
        seq![s[0]] + collapse_backslashes(s.drop_first())
    }
}

fn collapse_backslashes_exec(s: &[char]) -> (r: String)
    ensures
        r@ == collapse_backslashes(s@),
{
    let mut out = String::new();
    let mut i: usize = 0;
    proof {
        assert(s@.skip(0) =~= s@);
    }
    while i < s.len()
        invariant
            i <= s@.len(),
            out@ + collapse_backslashes(s@.skip(i as int)) == collapse_backslashes(s@),
        decreases s.len() - i,
    {
        let ghost o = out@;
        if i + 1 < s.len() && s[i] == '\\' && s[i + 1] == '\\' {
            push_char(&mut out, '\\');
            proof {
                assert(s@.skip(i as int).skip(2) =~= s@.skip(i + 2));
                assert(out@ + collapse_backslashes(s@.skip(i + 2)) =~= o + collapse_backslashes(s@.skip(i as int)));
            }
            i = i + 2;
        } else {
            push_char(&mut out, s[i]);
            proof {
                assert(s@.skip(i as int).drop_first() =~= s@.skip(i + 1));
                assert(out@ + collapse_backslashes(s@.skip(i + 1)) =~= o + collapse_backslashes(s@.skip(i as int)));
            }
            i = i + 1;
        }
    }
    proof {
        assert(s@.skip(i as int) =~= Seq::<char>::empty());
        assert(out@ + Seq::<char>::empty() =~= out@);
    }
    out
}

/// A `"path"` line of `libraryfolders.vdf`: the next-to-last quoted piece, with doubled
/// backslashes collapsed; lines without `"path"` or with fewer than three quotes give nothing.
pub open spec fn library_line(line: Seq<char>) -> Option<Seq<char>> {
    let parts = split_on(line, '"');
    if contains(line, "\"path\""@) && parts.len() >= 4 {
        Some(collapse_backslashes(parts[parts.len() - 2]))
    } else {
        None
    }
}

/// The library folders named in `libraryfolders.vdf`, in file order.
pub open spec fn library_list(ls: Seq<Seq<char>>) -> Seq<Seq<char>>
    decreases ls.len(),
{
    if ls.len() == 0 {
        Seq::empty()
    } else {
        let rest = library_list(ls.drop_last());
        match library_line(ls.last()) {
            Some(p) => rest.push(p),
            None => rest,
        }
    }
}

/// The Steam library roots listed in the text of `libraryfolders.vdf`; their
/// `steamapps` folders go through [`steam_libraries`].
pub fn library_paths(vdf: &str) -> (r: Vec<String>)
    ensures
        r@.map_values(|s: String| s@) == library_list(lines_of(vdf@)),
{
    let ls = lines(vdf);
    let ghost all = seqs_view(ls@);
    let pat = chars_of("\"path\"");
    let mut out: Vec<String> = Vec::new();
    let mut i: usize = 0;
    proof {
        assert(out@.map_values(|s: String| s@) =~= library_list(all.take(0)));
    }
    while i < ls.len()
        invariant
            i <= ls@.len(),
            all == seqs_view(ls@),
            all == lines_of(vdf@),
            pat@ == "\"path\""@,
            out@.map_values(|s: String| s@) == library_list(all.take(i as int)),
        decreases ls.len() - i,
    {
        proof {
            assert(all.take(i + 1).drop_last() =~= all.take(i as int));
            assert(all.take(i + 1).last() == ls@[i as int]@);
        }
        let line = ls[i].as_slice();
        let ghost o = out@.map_values(|s: String| s@);
        if contains_exec(line, pat.as_slice()) {
            let parts = split_char(line, '"');
            if parts.len() >= 4 {
                let p = collapse_backslashes_exec(parts[parts.len() - 2].as_slice());
                out.push(p);
                proof {
                    assert(seqs_view(parts@)[parts@.len() - 2] == parts@[parts@.len() - 2]@);
                    assert(out@.map_values(|s: String| s@) =~= o.push(p@));
                }
            }
        }
        i = i + 1;
    }
    proof {
        assert(all.take(all.len() as int) =~= all);
    }
    out
}

/// Whether `a` and `b` name the same path, by std's `Path` comparison (which parses
/// both as the platform does and compares them component by component). Identical
/// text always names the same path; which other spellings do depends on the platform
/// and is left unsaid.
#[verifier::external_body]
fn same_path(a: &str, b: &str) -> (r: bool)
    ensures
        a@ == b@ ==> r,
{
    std::path::Path::new(a) == std::path::Path::new(b)
}

/// Whether `dir` names one of the folders of `libs`; never `false` when its text is one
/// of theirs.
fn listed(libs: &Vec<String>, dir: &str) -> (r: bool)
    ensures
        !r ==> forall|i: int| 0 <= i < libs@.len() ==> libs@[i]@ != dir@,
{
    let mut i: usize = 0;
    while i < libs.len()
        invariant
            i <= libs@.len(),
            forall|k: int| 0 <= k < i ==> libs@[k]@ != dir@,
        decreases libs.len() - i,
    {
        if same_path(libs[i].as_str(), dir) {
            return true;
        }
        i = i + 1;
    }
    false
}

/// Folders and whether each exists, taken as text.
pub open spec fn dirs_view(c: Seq<(String, bool)>) -> Seq<(Seq<char>, bool)> {
    c.map_values(|d: (String, bool)| (d.0@, d.1))
}

/// `libs` is `root` followed by the candidates at the increasing positions `idx`, each
/// of which exists.
pub open spec fn libraries_from(
    root: Seq<char>,
    candidates: Seq<(Seq<char>, bool)>,
    libs: Seq<Seq<char>>,
    idx: Seq<int>,
) -> bool {
    &&& libs.len() == idx.len() + 1
    &&& libs[0] == root
    &&& forall|k: int|
        0 <= k < idx.len() ==> 0 <= #[trigger] idx[k] < candidates.len() && candidates[idx[k]].1
            && candidates[idx[k]].0 == libs[k + 1]
    &&& forall|a: int, b: int| 0 <= a < b < idx.len() ==> idx[a] < idx[b]
}

/// The Steam library folders to scan: `root` (the `steamapps` folder of the install),
/// then, in their order, the `candidates` folders that exist and do not name a folder
/// listed already. No folder is listed twice; a candidate spelled differently from every
/// listed folder is dropped only where std's `Path` comparison finds it among them.
pub fn steam_libraries(root: String, candidates: &Vec<(String, bool)>) -> (r: Vec<String>)
    ensures
        exists|idx: Seq<int>|
            #[trigger] libraries_from(root@, dirs_view(candidates@), views(r@), idx),
        forall|a: int, b: int| 0 <= a < b < r@.len() ==> r@[a]@ != r@[b]@,
{
    let ghost root_text = root@;
    let ghost cs = dirs_view(candidates@);
    let mut libs: Vec<String> = Vec::new();
    libs.push(root);
    let ghost mut idx: Seq<int> = Seq::empty();
    let mut j: usize = 0;
    while j < candidates.len()
        invariant
            j <= candidates@.len(),
            cs == dirs_view(candidates@),
            libraries_from(root_text, cs, views(libs@), idx),
            forall|k: int| 0 <= k < idx.len() ==> idx[k] < j,
            forall|a: int, b: int| 0 <= a < b < libs@.len() ==> libs@[a]@ != libs@[b]@,
        decreases candidates.len() - j,
    {
        let dir = candidates[j].0.as_str();
        if candidates[j].1 && !listed(&libs, dir) {
            let ghost before = libs@;
            libs.push(string_of(dir));
            proof {
                assert(cs[j as int] == (candidates@[j as int].0@, candidates@[j as int].1));
                let old_idx = idx;
                idx = idx.push(j as int);
                assert forall|a: int, b: int| 0 <= a < b < libs@.len() implies libs@[a]@
                    != libs@[b]@ by {
                    if b == before.len() {
                        assert(libs@[a] == before[a]);
                    } else {
                        assert(libs@[a] == before[a] && libs@[b] == before[b]);
                    }
                }
                assert forall|k: int| 0 <= k < idx.len() implies 0 <= #[trigger] idx[k] < cs.len()
                    && cs[idx[k]].1 && cs[idx[k]].0 == views(libs@)[k + 1] by {
                    if k < old_idx.len() {
                        assert(idx[k] == old_idx[k]);
                        assert(libs@[k + 1] == before[k + 1]);
                    }
                }
            }
        }
        j = j + 1;
    }
    proof {
        assert(libraries_from(root_text, cs, views(libs@), idx));
    }
    libs
}

/// `appmanifest_*.acf` file names.
pub open spec fn is_app_manifest_spec(name: Seq<char>) -> bool {
    starts_with(name, "appmanifest_"@) && name.len() >= 4 && name.skip(name.len() - 4)
        == ".acf"@
}

/// Whether a file in a `steamapps` folder is an app manifest.
pub fn is_app_manifest(name: &str) -> (r: bool)
    ensures
        r == is_app_manifest_spec(name@),
{
    let n = chars_of(name);
    let pre = chars_of("appmanifest_");
    let suf = chars_of(".acf");
    if !starts_with_exec(n.as_slice(), pre.as_slice()) || n.len() < 4 {
        return false;
    }
    let r = crate::text::occurs_at_exec(n.as_slice(), suf.as_slice(), n.len() - 4);
    proof {
        assert(n@.subrange(n@.len() - 4, n@.len() as int) =~= n@.skip(n@.len() - 4));
        reveal_strlit(".acf");
        assert(suf@ == ".acf"@);
        assert(suf@.len() == 4);
        assert(starts_with(name@, "appmanifest_"@));
    }
    r
}

/// The game an app manifest describes: (appid, name) when both are present.
pub open spec fn game_entry(txt: Seq<char>) -> Option<(Seq<char>, Seq<char>)> {
    match (acf_first(lines_of(txt), "appid"@), acf_first(lines_of(txt), "name"@)) {
        (Some(a), Some(n)) => Some((a, n)),
        _ => None,
    }
}

/// (appid, name) of the game an app manifest describes.
pub fn steam_game(manifest: &str) -> (r: Option<(String, String)>)
    ensures
        match r {
            Some(g) => game_entry(manifest@) == Some((g.0@, g.1@)),
            None => game_entry(manifest@) is None,
        },
{
    match (acf_val(manifest, "appid"), acf_val(manifest, "name")) {
        (Some(a), Some(n)) => Some((a, n)),
        _ => None,
    }
}

// ---------------------------------------------------------------------------------------
// Ordering the lists
// ---------------------------------------------------------------------------------------

/// A pair of strings taken as character sequences.
pub type Pair = (Seq<char>, Seq<char>);

/// Each pair keyed by the Unicode lowercase of one of its members (`.0` or `.1`).
pub open spec fn keyed_lower(items: Seq<Pair>, second: bool) -> Seq<(Seq<char>, Pair)> {
    items.map_values(|p: Pair| (lower(if second { p.1 } else { p.0 }), p))
}

/// Each pair keyed by `key_of` of itself.
pub open spec fn rekey(items: Seq<Pair>, key_of: spec_fn(Pair) -> Seq<char>) -> Seq<(Seq<char>, Pair)> {
    items.map_values(|p: Pair| (key_of(p), p))
}

/// A name with its ASCII upper case letters lowered: two names are equal up to ASCII
/// case exactly when these agree.
pub open spec fn ascii_lowered(s: Seq<char>) -> Seq<char> {
    s.map_values(|c: char| if 'A' <= c && c <= 'Z' { ((c as u32) + 32) as char } else { c })
}

/// Sorting by the lowercase of one member (stably), then dropping each pair whose
/// `key_of` equals that of the last pair kept.
pub open spec fn sort_dedup(items: Seq<Pair>, second: bool, key_of: spec_fn(Pair) -> Seq<char>) -> Seq<Pair> {
    strip(dedup(rekey(strip(isort::<Vec<char>, Pair>(keyed_lower(items, second))), key_of)))
}

/// The member a list is sorted by.
pub open spec fn sort_member(p: Pair, second: bool) -> Seq<char> {
    if second {
        p.1
    } else {
        p.0
    }
}

/// The launcher lists come out in order and without repeats: every listed pair was
/// found, their lowercased sort members never go down, and no two neighbours agree on
/// the key that identifies them.
pub proof fn lemma_sort_dedup_ordered(items: Seq<Pair>, second: bool, key_of: spec_fn(Pair) -> Seq<char>)
    ensures
        forall|i: int| 0 <= i < sort_dedup(items, second, key_of).len() ==> items.contains(
            #[trigger] sort_dedup(items, second, key_of)[i],
        ),
        forall|i: int, j: int| 0 <= i < j < sort_dedup(items, second, key_of).len() ==> lex_le(
            lower(sort_member(#[trigger] sort_dedup(items, second, key_of)[i], second)),
            lower(sort_member(#[trigger] sort_dedup(items, second, key_of)[j], second)),
        ),
        forall|i: int| 0 <= i < sort_dedup(items, second, key_of).len() - 1 ==> key_of(
            #[trigger] sort_dedup(items, second, key_of)[i],
        ) != key_of(sort_dedup(items, second, key_of)[i + 1]),
{
    let k = keyed_lower(items, second);
    let so = isort::<Vec<char>, Pair>(k);
    lemma_isort_sorted::<Vec<char>, Pair>(k);
    assert forall|i: int| 0 <= i < so.len() implies (#[trigger] so[i]).0 == lower(sort_member(so[i].1, second))
        && items.contains(so[i].1) by {
        lemma_isort_member::<Vec<char>, Pair>(k, i);
        let m = choose|m: int| 0 <= m < k.len() && k[m] == so[i];
        assert(items[m] == k[m].1);
    }
    let p = strip(so);
    let q = rekey(p, key_of);
    let rel = |a: (Seq<char>, Pair), b: (Seq<char>, Pair)| lex_le(
        lower(sort_member(a.1, second)),
        lower(sort_member(b.1, second)),
    );
    assert forall|i: int, j: int| 0 <= i < j < q.len() implies rel(#[trigger] q[i], #[trigger] q[j]) by {
        assert(q[i].1 == so[i].1);
        assert(q[j].1 == so[j].1);
    }
    lemma_dedup_keeps_order(q, rel);
    lemma_dedup_neighbours_differ(q);
    let d = dedup(q);
    let r = sort_dedup(items, second, key_of);
    assert(r == strip(d));
    assert forall|i: int| 0 <= i < d.len() implies (#[trigger] d[i]).0 == key_of(d[i].1) && items.contains(d[i].1) by {
        let m = choose|m: int| 0 <= m < q.len() && q[m] == d[i];
        assert(q[m].1 == so[m].1);
    }
    assert forall|i: int| 0 <= i < r.len() implies items.contains(#[trigger] r[i]) by {
        assert(r[i] == d[i].1);
    }
    assert forall|i: int, j: int| 0 <= i < j < r.len() implies lex_le(
        lower(sort_member(#[trigger] r[i], second)),
        lower(sort_member(#[trigger] r[j], second)),
    ) by {
        assert(r[i] == d[i].1);
        assert(r[j] == d[j].1);
        assert(rel(d[i], d[j]));
    }
    assert forall|i: int| 0 <= i < r.len() - 1 implies key_of(#[trigger] r[i]) != key_of(r[i + 1]) by {
        assert(r[i] == d[i].1);
        assert(r[i + 1] == d[i + 1].1);
    }
}

fn key_lower(items: Vec<(String, String)>, second: bool) -> (r: Vec<(Vec<char>, (String, String))>)
    ensures
        kview(r@) == keyed_lower(pairs_view(items@), second),
{
    let ghost all = items@;
    let mut rev = crate::sorting::reversed(items);
    let mut out: Vec<(Vec<char>, (String, String))> = Vec::new();
    proof {
        assert(rev@.reverse() =~= all.skip(0));
        assert(kview(out@) =~= keyed_lower(pairs_view(all.take(0)), second));
    }
    while rev.len() > 0
        invariant
            rev@.len() <= all.len(),
            rev@.reverse() =~= all.skip(all.len() - rev@.len()),
            kview(out@) == keyed_lower(pairs_view(all.take(all.len() - rev@.len())), second),
        decreases rev.len(),
    {
        let ghost k = all.len() - rev@.len();
        let ghost r0 = rev@;
        let x = rev.pop().unwrap();
        proof {
            assert(r0.reverse()[0] == x);
            assert(all.skip(k)[0] == all[k]);
            assert(rev@.reverse() =~= r0.reverse().drop_first());
            assert(all.skip(k).drop_first() =~= all.skip(k + 1));
        }
        let low = if second { to_lowercase(x.1.as_str()) } else { to_lowercase(x.0.as_str()) };
        let key = chars_of(low.as_str());
        let ghost o = kview(out@);
        let ghost xv = (x.0@, x.1@);
        out.push((key, x));
        proof {
            assert(all.take(k + 1) =~= all.take(k).push(x));
            assert(kview(out@) =~= o.push((key@, xv)));
            assert(keyed_lower(pairs_view(all.take(k + 1)), second) =~= keyed_lower(pairs_view(all.take(k)), second).push((lower(if second { xv.1 } else { xv.0 }), xv)));
        }
    }
    proof {
        assert(all.take(all.len() as int) =~= all);
    }
    out
}

/// Which member of a pair identifies it when dropping neighbours.
pub enum DedupBy {
    /// The first member, up to ASCII case.
    FirstIgnoringAsciiCase,
    /// The first member exactly.
    First,
    /// The second member exactly.
    Second,
}

pub open spec fn dedup_key(by: DedupBy) -> spec_fn(Pair) -> Seq<char> {
    match by {
        DedupBy::FirstIgnoringAsciiCase => |p: Pair| ascii_lowered(p.0),
        DedupBy::First => |p: Pair| p.0,
        DedupBy::Second => |p: Pair| p.1,
    }
}

fn ascii_lowered_exec(s: &str) -> (r: Vec<char>)
    ensures
        r@ == ascii_lowered(s@),
{
    let cs = chars_of(s);
    let mut out: Vec<char> = Vec::new();
    let mut i: usize = 0;
    while i < cs.len()
        invariant
            i <= cs@.len(),
            cs@ == s@,
            out@ == ascii_lowered(cs@.take(i as int)),
        decreases cs.len() - i,
    {
        let c = cs[i];
        let d = if 'A' <= c && c <= 'Z' { ((c as u8) + 32) as char } else { c };
        proof {
            if 'A' <= c && c <= 'Z' {
                assert((c as u8) as u32 == c as u32);
            }
        }
        out.push(d);
        proof {
            assert(ascii_lowered(cs@.take(i + 1)) =~= ascii_lowered(cs@.take(i as int)).push(d));
        }
        i = i + 1;
    }
    proof {
        assert(cs@.take(cs@.len() as int) =~= cs@);
    }
    out
}

/// Keys each pair by the member `by` names (ASCII-lowered for case-blind comparison).
pub fn rekey_exec(items: Vec<(String, String)>, by: &DedupBy) -> (r: Vec<(Vec<char>, (String, String))>)
    ensures
        kview(r@) == rekey(pairs_view(items@), dedup_key(*by)),
{
    let ghost all = items@;
    let ghost f = dedup_key(*by);
    let mut rev = crate::sorting::reversed(items);
    let mut out: Vec<(Vec<char>, (String, String))> = Vec::new();
    proof {
        assert(rev@.reverse() =~= all.skip(0));
        assert(kview(out@) =~= rekey(pairs_view(all.take(0)), f));
    }
    while rev.len() > 0
        invariant
            rev@.len() <= all.len(),
            f == dedup_key(*by),
            rev@.reverse() =~= all.skip(all.len() - rev@.len()),
            kview(out@) == rekey(pairs_view(all.take(all.len() - rev@.len())), f),
        decreases rev.len(),
    {
        let ghost k = all.len() - rev@.len();
        let ghost r0 = rev@;
        let x = rev.pop().unwrap();
        proof {
            assert(r0.reverse()[0] == x);
            assert(all.skip(k)[0] == all[k]);
            assert(rev@.reverse() =~= r0.reverse().drop_first());
            assert(all.skip(k).drop_first() =~= all.skip(k + 1));
        }
        let ghost xv = (x.0@, x.1@);
        let key = match by {
            DedupBy::FirstIgnoringAsciiCase => ascii_lowered_exec(x.0.as_str()),
            DedupBy::First => chars_of(x.0.as_str()),
            DedupBy::Second => chars_of(x.1.as_str()),
        };
        proof {
            assert(key@ == f(xv));
        }
        let ghost o = kview(out@);
        out.push((key, x));
        proof {
            assert(all.take(k + 1) =~= all.take(k).push(x));
            assert(kview(out@) =~= o.push((key@, xv)));
            assert(rekey(pairs_view(all.take(k + 1)), f) =~= rekey(pairs_view(all.take(k)), f).push((f(xv), xv)));
        }
    }
    proof {
        assert(all.take(all.len() as int) =~= all);
    }
    out
}

/// Sorts pairs by the Unicode lowercase of one member (stably), then drops each pair
/// that `by` finds equal to the last one kept.
pub fn sort_and_dedup(items: Vec<(String, String)>, sort_by_second: bool, by: DedupBy) -> (r: Vec<(String, String)>)
    ensures
        pairs_view(r@) == sort_dedup(pairs_view(items@), sort_by_second, dedup_key(by)),
{
    let keyed = key_lower(items, sort_by_second);
    let sorted = stable_sort(keyed);
    let plain = strip_keys(sorted);
    proof {
        assert(pairs_view(plain@) =~= views(plain@));
    }
    let rekeyed = rekey_exec(plain, &by);
    let d = dedup_by_key(rekeyed);
    let r = strip_keys(d);
    proof {
        assert(pairs_view(r@) =~= views(r@));
    }
    r
}

/// Start-Menu shortcuts in launcher order: by lowercase name, one per name up to ASCII case.
pub fn enum_apps(found: Vec<(String, String)>) -> (r: Vec<(String, String)>)
    ensures
        pairs_view(r@) == sort_dedup(pairs_view(found@), false, dedup_key(DedupBy::FirstIgnoringAsciiCase)),
{
    sort_and_dedup(found, false, DedupBy::FirstIgnoringAsciiCase)
}

/// Installed games as (appid, name) in launcher order: by lowercase name, neighbours with
/// the same appid dropped.
pub fn enum_steam(games: Vec<(String, String)>) -> (r: Vec<(String, String)>)
    ensures
        pairs_view(r@) == sort_dedup(pairs_view(games@), true, dedup_key(DedupBy::First)),
{
    sort_and_dedup(games, true, DedupBy::First)
}

/// Obsidian notes as (name, path) in launcher order: by lowercase name, neighbours with
/// the same path dropped, at most 2000.
pub fn enum_obsidian(notes: Vec<(String, String)>) -> (r: Vec<(String, String)>)
    ensures
        pairs_view(r@) == first(sort_dedup(pairs_view(notes@), false, dedup_key(DedupBy::Second)), 2000),
{
    let mut r = sort_and_dedup(notes, false, DedupBy::Second);
    let ghost before = r@;
    r.truncate(2000);
    proof {
        assert(pairs_view(r@) =~= first(pairs_view(before), 2000));
    }
    r
}

// ---------------------------------------------------------------------------------------
// Folder entries
// ---------------------------------------------------------------------------------------

/// A file name split as `Path::file_stem` / `Path::extension` split it: at the last `.`,
/// unless that dot is the first character (then there is no extension).
pub open spec fn stem_ext(name: Seq<char>) -> (Seq<char>, Option<Seq<char>>) {
    if exists|i: int| 0 < i < name.len() && name[i] == '.' {
        let i = choose|i: int| 0 < i < name.len() && name[i] == '.' && forall|j: int| i < j < name.len() ==> name[j] != '.';
        (name.take(i), Some(name.skip(i + 1)))
    } else {
        (name, None)
    }
}

/// The stem and extension of a file name, as [`stem_ext`] splits it.
pub fn split_extension(name: &str) -> (r: (String, Option<String>))
    ensures
        r.0@ == stem_ext(name@).0,
        match r.1 {
            Some(e) => stem_ext(name@).1 == Some(e@),
            None => stem_ext(name@).1 is None,
        },
{
    let cs = chars_of(name);
    let mut i = cs.len();
    loop
        invariant
            i <= cs@.len(),
            cs@ == name@,
            forall|j: int| i <= j < cs@.len() ==> cs@[j] != '.',
        ensures
            i <= cs@.len(),
            forall|j: int| i <= j < cs@.len() ==> cs@[j] != '.',
            i > 0 ==> cs@[i - 1] == '.',
        decreases i,
    {
        if i == 0 {
            break;
        }
        if cs[i - 1] == '.' {
            break;
        }
        i = i - 1;
    }
    if i >= 2 {
        let dot = i - 1;
        proof {
            assert(cs@[dot as int] == '.');
            let w = choose|w: int| 0 < w < cs@.len() && cs@[w] == '.' && forall|j: int| w < j < cs@.len() ==> cs@[j] != '.';
            assert(w == dot) by {
                if w < dot {
                } else if w > dot {
                }
            }
        }
        let stem = crate::text::string_from_range(cs.as_slice(), 0, dot);
        let ext = crate::text::string_from_range(cs.as_slice(), dot + 1, cs.len());
        proof {
            assert(cs@.subrange(0, dot as int) =~= cs@.take(dot as int));
            assert(cs@.subrange(dot + 1, cs@.len() as int) =~= cs@.skip(dot + 1));
        }
        (stem, Some(ext))
    } else {
        proof {
            assert forall|w: int| 0 < w < cs@.len() implies cs@[w] != '.' by {
                if w >= i {
                } else {
                    assert(i <= 1);
                }
            }
        }
        (string_of(name), None)
    }
}

/// A Start-Menu entry: a file whose extension is `lnk` up to ASCII case gives
/// (stem, full path).
pub open spec fn app_entry_spec(file_name: Seq<char>, full_path: Seq<char>) -> Option<(Seq<char>, Seq<char>)> {
    match stem_ext(file_name).1 {
        Some(e) => if eq_ignore_ascii_case(e, "lnk"@) {
            Some((stem_ext(file_name).0, full_path))
        } else {
            None
        },
        None => None,
    }
}

/// What a file found under the Start Menu contributes: (name, path) for a shortcut.
pub fn app_entry(file_name: &str, full_path: &str) -> (r: Option<(String, String)>)
    ensures
        match r {
            Some(e) => app_entry_spec(file_name@, full_path@) == Some((e.0@, e.1@)),
            None => app_entry_spec(file_name@, full_path@) is None,
        },
{
    let (stem, ext) = split_extension(file_name);
    match ext {
        Some(e) => {
            let ec = chars_of(e.as_str());
            let lnk = chars_of("lnk");
            if eq_ignore_ascii_case_exec(ec.as_slice(), lnk.as_slice()) {
                Some((stem, string_of(full_path)))
            } else {
                None
            }
        },
        None => None,
    }
}

/// A note in a vault: a file whose extension is exactly `md` gives (stem, full path).
pub open spec fn note_entry_spec(file_name: Seq<char>, full_path: Seq<char>) -> Option<(Seq<char>, Seq<char>)> {
    if stem_ext(file_name).1 == Some("md"@) {
        Some((stem_ext(file_name).0, full_path))
    } else {
        None
    }
}

/// What a file found in a vault contributes: (name, path) for a Markdown note.
pub fn note_entry(file_name: &str, full_path: &str) -> (r: Option<(String, String)>)
    ensures
        match r {
            Some(e) => note_entry_spec(file_name@, full_path@) == Some((e.0@, e.1@)),
            None => note_entry_spec(file_name@, full_path@) is None,
        },
{
    let (stem, ext) = split_extension(file_name);
    match ext {
        Some(e) => {
            if crate::json::str_eq(e.as_str(), "md") {
                Some((stem, string_of(full_path)))
            } else {
                None
            }
        },
        None => None,
    }
}

/// Whether the note walk goes on into a folder at this depth, with this many notes found:
/// not past depth 8, not past 2000 notes.
pub fn walk_md_allowed(depth: usize, found: usize) -> (r: bool)
    ensures
        r == !(depth > 8 || found > 2000),
{
    !(depth > 8 || found > 2000)
}

/// Folders whose name starts with a dot are skipped by the note walk.
pub fn is_hidden(name: &str) -> (r: bool)
    ensures
        r == (name@.len() > 0 && name@[0] == '.'),
{
    let cs = chars_of(name);
    cs.len() > 0 && cs[0] == '.'
}

/// The vault folders listed in `obsidian.json`: each member of `vaults` with a string `path`.
pub open spec fn vault_list(v: Json) -> Seq<Seq<char>> {
    match get(v, "vaults"@) {
        Json::Object(entries) => crate::json::filter_map(entries@, |e: (String, Json)| as_str(get(e.1, "path"@))),
        _ => Seq::empty(),
    }
}

/// The vault folders named in the text of `obsidian.json` (none when it is not JSON).
pub fn vault_paths(config: &[u8]) -> (r: Vec<String>)
    ensures
        r@.map_values(|s: String| s@) == match json_parse(config@) {
            Some(v) => vault_list(v),
            None => Seq::empty(),
        },
{
    let mut out: Vec<String> = Vec::new();
    let v = match parse_json(config) {
        Some(v) => v,
        None => {
            proof {
                assert(out@.map_values(|s: String| s@) =~= Seq::<Seq<char>>::empty());
            }
            return out;
        },
    };
    let entries = match field(&v, "vaults") {
        Some(Json::Object(entries)) => entries,
        _ => {
            proof {
                assert(out@.map_values(|s: String| s@) =~= Seq::<Seq<char>>::empty());
            }
            return out;
        },
    };
    let ghost f = |e: (String, Json)| as_str(get(e.1, "path"@));
    let mut i: usize = 0;
    proof {
        assert(out@.map_values(|s: String| s@) =~= crate::json::filter_map(entries@.take(0), f));
    }
    while i < entries.len()
        invariant
            i <= entries@.len(),
            f == (|e: (String, Json)| as_str(get(e.1, "path"@))),
            out@.map_values(|s: String| s@) == crate::json::filter_map(entries@.take(i as int), f),
        decreases entries.len() - i,
    {
        proof {
            assert(entries@.take(i + 1) =~= entries@.take(i as int).push(entries@[i as int]));
            crate::json::lemma_filter_map_push(entries@.take(i as int), entries@[i as int], f);
        }
        let ghost o = out@.map_values(|s: String| s@);
        match opt_str(field(&entries[i].1, "path")) {
            Some(p) => {
                out.push(p.clone());
                proof {
                    assert(f(entries@[i as int]) == Some(p@));
                    assert(out@.map_values(|s: String| s@) =~= o.push(p@));
                }
            },
            None => {
                proof {
                    assert(f(entries@[i as int]) is None);
                }
            },
        }
        i = i + 1;
    }
    proof {
        assert(entries@.take(entries@.len() as int) =~= entries@);
    }
    out
}

// ---------------------------------------------------------------------------------------
// Commands
// ---------------------------------------------------------------------------------------

/// The `cmd /C` command a dashboard tab runs, by tab name: the tabs are `chrome` (the
/// browser), `terminal`, `files`, `steam` and `code`.
pub open spec fn app_command_spec(name: Seq<char>) -> Option<Seq<char>> {
    if name == "chrome"@ {
        Some("start chrome"@)
    } else if name == "terminal"@ {
        Some("start wt"@)
    } else if name == "files"@ {
        Some("start explorer"@)
    } else if name == "steam"@ {
        Some("start steam://open/main"@)
    } else if name == "code"@ {
        Some("start code-editor/vs-code/etc"@)
    } else {
        None
    }
}

/// The command behind a dashboard tab (`None` for an unknown tab).
fn app_command(name: &str) -> (r: Option<String>)
    ensures
        match r {
            Some(c) => app_command_spec(name@) == Some(c@),
            None => app_command_spec(name@) is None,
        },
{
    if crate::json::str_eq(name, "chrome") {
        Some(string_of("start chrome"))
    } else if crate::json::str_eq(name, "terminal") {
        Some(string_of("start wt"))
    } else if crate::json::str_eq(name, "files") {
        Some(string_of("start explorer"))
    } else if crate::json::str_eq(name, "steam") {
        Some(string_of("start steam://open/main"))
    } else if crate::json::str_eq(name, "code") {
        Some(string_of("start code-editor/vs-code/etc"))
    } else {
        None
    }
}

/// The program and arguments that launch a dashboard tab's app: `cmd /C` with the
/// tab's command; `None` for an unknown tab, which runs nothing.
pub fn run_app(name: &str) -> (r: Option<(String, Vec<String>)>)
    ensures
        match r {
            Some(c) => app_command_spec(name@) matches Some(cmd) && c.0@ == "cmd"@
                && c.1@.map_values(|s: String| s@) == seq!["/C"@, cmd],
            None => app_command_spec(name@) is None,
        },
{
    match app_command(name) {
        Some(cmd) => {
            let ghost c = cmd@;
            let args = vec![string_of("/C"), cmd];
            proof {
                assert(args@.map_values(|s: String| s@) =~= seq!["/C"@, c]);
            }
            Some((string_of("cmd"), args))
        },
        None => None,
    }
}

/// Program and arguments for a shell command in a visible window: `cmd` and `ps` open
/// a console, `cmdadmin` and `psadmin` ask PowerShell to start one elevated.
pub open spec fn shell_command_spec(mode: Seq<char>, cmd: Seq<char>) -> Option<(Seq<char>, Seq<Seq<char>>)> {
    if mode == "cmd"@ {
        Some(("cmd"@, seq!["/C"@, "start"@, "cmd"@, "/K"@, cmd]))
    } else if mode == "ps"@ {
        Some(("cmd"@, seq!["/C"@, "start"@, "powershell"@, "-NoExit"@, "-Command"@, cmd]))
    } else if mode == "cmdadmin"@ {
        Some(("powershell"@, seq!["-Command"@, "Start-Process cmd -ArgumentList '/K "@ + cmd + "' -Verb RunAs"@]))
    } else if mode == "psadmin"@ {
        Some(("powershell"@, seq!["-Command"@, "Start-Process powershell -ArgumentList '-NoExit -Command "@ + cmd + "' -Verb RunAs"@]))
    } else {
        None
    }
}

fn strs(items: &[&str]) -> (r: Vec<String>)
    ensures
        r@.map_values(|s: String| s@) == items@.map_values(|s: &str| s@),
{
    let mut out: Vec<String> = Vec::new();
    let mut i: usize = 0;
    while i < items.len()
        invariant
            i <= items@.len(),
            out@.map_values(|s: String| s@) == items@.take(i as int).map_values(|s: &str| s@),
        decreases items.len() - i,
    {
        let ghost o = out@.map_values(|s: String| s@);
        out.push(string_of(items[i]));
        proof {
            assert(out@.map_values(|s: String| s@) =~= o.push(items@[i as int]@));
            assert(items@.take(i + 1).map_values(|s: &str| s@) =~= items@.take(i as int).map_values(|s: &str| s@).push(items@[i as int]@));
        }
        i = i + 1;
    }
    proof {
        assert(items@.take(items@.len() as int) =~= items@);
    }
    out
}

/// The program and arguments that run `cmd` in the shell `mode` asks for; `None` for an
/// unknown mode, which runs nothing.
pub fn run_shell(mode: &str, cmd: &str) -> (r: Option<(String, Vec<String>)>)
    ensures
        match r {
            Some(c) => shell_command_spec(mode@, cmd@) == Some((c.0@, c.1@.map_values(|s: String| s@))),
            None => shell_command_spec(mode@, cmd@) is None,
        },
{
    if crate::json::str_eq(mode, "cmd") {
        let args = strs(&["/C", "start", "cmd", "/K", cmd]);
        proof {
            assert(args@.map_values(|s: String| s@) =~= seq!["/C"@, "start"@, "cmd"@, "/K"@, cmd@]);
        }
        Some((string_of("cmd"), args))
    } else if crate::json::str_eq(mode, "ps") {
        let args = strs(&["/C", "start", "powershell", "-NoExit", "-Command", cmd]);
        proof {
            assert(args@.map_values(|s: String| s@) =~= seq!["/C"@, "start"@, "powershell"@, "-NoExit"@, "-Command"@, cmd@]);
        }
        Some((string_of("cmd"), args))
    } else if crate::json::str_eq(mode, "cmdadmin") {
        let mut script = string_of("Start-Process cmd -ArgumentList '/K ");
        push_str(&mut script, cmd);
        push_str(&mut script, "' -Verb RunAs");
        let args = vec![string_of("-Command"), script];
        proof {
            assert(args@.map_values(|s: String| s@) =~= seq!["-Command"@, script@]);
        }
        Some((string_of("powershell"), args))
    } else if crate::json::str_eq(mode, "psadmin") {
        let mut script = string_of("Start-Process powershell -ArgumentList '-NoExit -Command ");
        push_str(&mut script, cmd);
        push_str(&mut script, "' -Verb RunAs");
        let args = vec![string_of("-Command"), script];
        proof {
            assert(args@.map_values(|s: String| s@) =~= seq!["-Command"@, script@]);
        }
        Some((string_of("powershell"), args))
    } else {
        None
    }
}

/// The WMI call that sets the laptop panel to `pct` percent, capped at 100.
pub open spec fn brightness_script_spec(pct: u32) -> Seq<char> {
    "(Get-WmiObject -Namespace root/WMI -Class WmiMonitorBrightnessMethods).WmiSetBrightness(1,"@
        + decimal((if pct < 100 { pct } else { 100 }) as nat) + ")"@
}

/// The PowerShell script for `set_brightness` (run hidden, without a profile).
pub fn set_brightness(pct: u32) -> (r: String)
    ensures
        r@ == brightness_script_spec(pct),
{
    let p = if pct < 100 { pct } else { 100 };
    let mut s = string_of("(Get-WmiObject -Namespace root/WMI -Class WmiMonitorBrightnessMethods).WmiSetBrightness(1,");
    push_decimal(&mut s, p as u64);
    push_str(&mut s, ")");
    s
}

/// The command line that runs the [`set_brightness`] script in a hidden PowerShell
/// window without loading a profile.
pub fn brightness_command(pct: u32) -> (r: Vec<String>)
    ensures
        r@.map_values(|a: String| a@) == seq![
            "powershell"@,
            "-NoProfile"@,
            "-WindowStyle"@,
            "Hidden"@,
            "-Command"@,
            brightness_script_spec(pct),
        ],
{
    let r = vec![
        string_of("powershell"),
        string_of("-NoProfile"),
        string_of("-WindowStyle"),
        string_of("Hidden"),
        string_of("-Command"),
        set_brightness(pct),
    ];
    proof {
        assert(r@.map_values(|a: String| a@) =~= seq![
            "powershell"@,
            "-NoProfile"@,
            "-WindowStyle"@,
            "Hidden"@,
            "-Command"@,
            brightness_script_spec(pct),
        ]);
    }
    r
}

/// Where Steam may be installed, in the order they are tried.
pub open spec fn steam_candidates_spec() -> Seq<Seq<char>> {
    seq!["C:\\Program Files (x86)\\Steam"@, "C:\\Program Files\\Steam"@, "D:\\Steam"@, "E:\\Steam"@]
}

/// The folders where Steam may be installed, in the order they are tried.
pub fn steam_candidates() -> (r: Vec<String>)
    ensures
        r@.map_values(|s: String| s@) == steam_candidates_spec(),
{
    let r = strs(&["C:\\Program Files (x86)\\Steam", "C:\\Program Files\\Steam", "D:\\Steam", "E:\\Steam"]);
    proof {
        assert(r@.map_values(|s: String| s@) =~= steam_candidates_spec());
    }
    r
}

/// The Steam root: the first candidate whose `steamapps` folder exists (`has_steamapps[i]`
/// tells for candidate `i`; missing flags count as absent).
pub fn steam_root(has_steamapps: &[bool]) -> (r: Option<String>)
    ensures
        match r {
            Some(root) => exists|i: int| 0 <= i < 4 && i < has_steamapps@.len() && has_steamapps@[i]
                && root@ == steam_candidates_spec()[i]
                && forall|j: int| 0 <= j < i ==> !has_steamapps@[j],
            None => forall|i: int| 0 <= i < 4 && i < has_steamapps@.len() ==> !has_steamapps@[i],
        },
{
    let cands = steam_candidates();
    let ghost cv = cands@.map_values(|s: String| s@);
    proof {
        assert(cv.len() == 4);
        assert(cands@.len() == cv.len());
    }
    let mut i: usize = 0;
    while i < 4 && i < has_steamapps.len()
        invariant
            i <= 4,
            cands@.len() == 4,
            cv == cands@.map_values(|s: String| s@),
            cv == steam_candidates_spec(),
            forall|j: int| 0 <= j < i && j < has_steamapps@.len() ==> !has_steamapps@[j],
        decreases 4 - i,
    {
        if has_steamapps[i] {
            let root = cands[i].clone();
            proof {
                assert(cv[i as int] == cands@[i as int]@);
            }
            return Some(root);
        }
        i = i + 1;
    }
    None
}

} // verus!

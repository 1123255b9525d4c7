//! Chromium browser bookmarks and history (Chrome, Edge, Brave).
//!
//! Finding the profile folders, reading the files and querying the history database
//! are left to the caller; this module reads the bookmark tree and orders the lists.
use vstd::prelude::*;
use crate::apps::{dedup_key, rekey, rekey_exec, sort_and_dedup, sort_dedup, DedupBy, Pair};
use crate::json::{
    as_str, field, get, is_str, json_parse, opt_str, pairs_view, parse_json, str_eq, Json,
};
use crate::sorting::{dedup, dedup_by_key, first, kview, strip, strip_keys, views};
use crate::text::string_of;

verus! {

/// Members of a bookmark node that are never walked into.
pub open spec fn bm_reserved(k: Seq<char>) -> bool {
    k == "children"@ || k == "type"@ || k == "name"@ || k == "url"@
}

/// The bookmarks under a node, in the order the tree is walked: a node of type `url`
/// is one bookmark (when it has a non-empty string name and a string url) and nothing
/// below it is looked at; any other object contributes what its `children` array holds,
/// then what each of its other object-valued members holds.
pub open spec fn bm(node: Json) -> Seq<(Seq<char>, Seq<char>)>
    decreases node,
{
    match node {
        Json::Object(es) => if is_str(get(node, "type"@), "url"@) {
            match (as_str(get(node, "name"@)), as_str(get(node, "url"@))) {
                (Some(n), Some(u)) => if n.len() > 0 {
                    seq![(n, u)]
                } else {
                    Seq::empty()
                },
                _ => Seq::empty(),
            }
        } else {
            bm_children(es@) + bm_members(es@)
        },
        _ => Seq::empty(),
    }
}

/// What the first member named `children` holds, when it is an array.
pub open spec fn bm_children(es: Seq<(String, Json)>) -> Seq<(Seq<char>, Seq<char>)>
    decreases es,
{
    if es.len() == 0 {
        Seq::empty()
    } else if es[0].0@ == "children"@ {
        match es[0].1 {
            Json::Array(cs) => bm_list(cs@),
            _ => Seq::empty(),
        }
    } else {
        bm_children(es.drop_first())
    }
}

/// The bookmarks under each node of a list, one node after another.
pub open spec fn bm_list(cs: Seq<Json>) -> Seq<(Seq<char>, Seq<char>)>
    decreases cs,
{
    if cs.len() == 0 {
        Seq::empty()
    } else {
        bm(cs[0]) + bm_list(cs.drop_first())
    }
}

/// The bookmarks under each object-valued member whose name is not reserved.
pub open spec fn bm_members(es: Seq<(String, Json)>) -> Seq<(Seq<char>, Seq<char>)>
    decreases es,
{
    if es.len() == 0 {
        Seq::empty()
    } else {
        let here = if !bm_reserved(es[0].0@) && es[0].1 is Object {
            bm(es[0].1)
        } else {
            Seq::empty()
        };
        here + bm_members(es.drop_first())
    }
}

/// Appends the bookmarks under `node` ([`bm`]).
pub fn collect_bm(node: &Json, out: &mut Vec<(String, String)>)
    ensures
        pairs_view(final(out)@) == pairs_view(old(out)@) + bm(*node),
    decreases node,
{
    match node {
        Json::Object(es) => {
            let t = field(node, "type");
            let is_url = match opt_str(t) {
                Some(ty) => str_eq(ty.as_str(), "url"),
                None => false,
            };
            if is_url {
                let n = opt_str(field(node, "name"));
                let u = opt_str(field(node, "url"));
                match (n, u) {
                    (Some(n), Some(u)) => {
                        if !n.as_str().is_empty() {
                            let ghost o = pairs_view(out@);
                            out.push((n.clone(), u.clone()));
                            proof {
                                assert(pairs_view(out@) =~= o + seq![(n@, u@)]);
                            }
                        } else {
                            proof {
                                assert(pairs_view(out@) =~= pairs_view(out@) + Seq::<(Seq<char>, Seq<char>)>::empty());
                            }
                        }
                    },
                    _ => {
                        proof {
                            assert(pairs_view(out@) =~= pairs_view(out@) + Seq::<(Seq<char>, Seq<char>)>::empty());
                        }
                    },
                }
            } else {
                let ghost o = pairs_view(out@);
                collect_children(es, out);
                collect_members(es, out);
                proof {
                    assert(pairs_view(out@) =~= o + (bm_children(es@) + bm_members(es@)));
                }
            }
        },
        _ => {
            proof {
                assert(pairs_view(out@) =~= pairs_view(out@) + Seq::<(Seq<char>, Seq<char>)>::empty());
            }
        },
    }
}

fn collect_children(es: &Vec<(String, Json)>, out: &mut Vec<(String, String)>)
    ensures
        pairs_view(final(out)@) == pairs_view(old(out)@) + bm_children(es@),
    decreases es@,
{
    let mut i: usize = 0;
    proof {
        assert(es@.skip(0) =~= es@);
    }
    while i < es.len()
        invariant
            i <= es@.len(),
            pairs_view(out@) == pairs_view(old(out)@),
            bm_children(es@) == bm_children(es@.skip(i as int)),
        decreases es.len() - i,
    {
        proof {
            assert(es@.skip(i as int)[0] == es@[i as int]);
            assert(es@.skip(i as int).drop_first() =~= es@.skip(i + 1));
        }
        if str_eq(es[i].0.as_str(), "children") {
            match &es[i].1 {
                Json::Array(cs) => {
                    collect_list(cs, out);
                },
                _ => {
                    proof {
                        assert(pairs_view(out@) =~= pairs_view(old(out)@) + Seq::<(Seq<char>, Seq<char>)>::empty());
                    }
                },
            }
            return;
        }
        i = i + 1;
    }
    proof {
        assert(es@.skip(i as int).len() == 0);
        assert(pairs_view(out@) =~= pairs_view(old(out)@) + Seq::<(Seq<char>, Seq<char>)>::empty());
    }
}

fn collect_list(cs: &Vec<Json>, out: &mut Vec<(String, String)>)
    ensures
        pairs_view(final(out)@) == pairs_view(old(out)@) + bm_list(cs@),
    decreases cs@,
{
    let mut i: usize = 0;
    proof {
        assert(cs@.skip(0) =~= cs@);
        assert(pairs_view(old(out)@) + bm_list(cs@) =~= pairs_view(out@) + bm_list(cs@.skip(0)));
    }
    while i < cs.len()
        invariant
            i <= cs@.len(),
            pairs_view(old(out)@) + bm_list(cs@) == pairs_view(out@) + bm_list(cs@.skip(i as int)),
        decreases cs.len() - i,
    {
        proof {
            assert(cs@.skip(i as int)[0] == cs@[i as int]);
            assert(cs@.skip(i as int).drop_first() =~= cs@.skip(i + 1));
        }
        let ghost o = pairs_view(out@);
        collect_bm(&cs[i], out);
        proof {
            assert(o + bm_list(cs@.skip(i as int)) =~= pairs_view(out@) + bm_list(cs@.skip(i + 1)));
        }
        i = i + 1;
    }
    proof {
        assert(cs@.skip(i as int).len() == 0);
        assert(pairs_view(out@) + bm_list(cs@.skip(i as int)) =~= pairs_view(out@));
    }
}

fn collect_members(es: &Vec<(String, Json)>, out: &mut Vec<(String, String)>)
    ensures
        pairs_view(final(out)@) == pairs_view(old(out)@) + bm_members(es@),
    decreases es@,
{
    let mut i: usize = 0;
    proof {
        assert(es@.skip(0) =~= es@);
        assert(pairs_view(old(out)@) + bm_members(es@) =~= pairs_view(out@) + bm_members(es@.skip(0)));
    }
    while i < es.len()
        invariant
            i <= es@.len(),
            pairs_view(old(out)@) + bm_members(es@) == pairs_view(out@) + bm_members(es@.skip(i as int)),
        decreases es.len() - i,
    {
        proof {
            assert(es@.skip(i as int)[0] == es@[i as int]);
            assert(es@.skip(i as int).drop_first() =~= es@.skip(i + 1));
        }
        let k = es[i].0.as_str();
        let reserved = str_eq(k, "children") || str_eq(k, "type") || str_eq(k, "name") || str_eq(k, "url");
        let ghost o = pairs_view(out@);
        let is_obj = match &es[i].1 {
            Json::Object(_) => true,
            _ => false,
        };
        if !reserved && is_obj {
            collect_bm(&es[i].1, out);
        }
        proof {
            let here = if !bm_reserved(es@[i as int].0@) && es@[i as int].1 is Object {
                bm(es@[i as int].1)
            } else {
                Seq::empty()
            };
            assert(pairs_view(out@) =~= o + here);
            assert(o + bm_members(es@.skip(i as int)) =~= pairs_view(out@) + bm_members(es@.skip(i + 1)));
        }
        i = i + 1;
    }
    proof {
        assert(es@.skip(i as int).len() == 0);
        assert(pairs_view(out@) + bm_members(es@.skip(i as int)) =~= pairs_view(out@));
    }
}

/// The bookmarks of one `Bookmarks` file: those under its `roots` (none when the file is not JSON).
pub open spec fn file_bookmarks(text: Seq<u8>) -> Seq<(Seq<char>, Seq<char>)> {
    match json_parse(text) {
        Some(v) => bm(get(v, "roots"@)),
        None => Seq::empty(),
    }
}

/// The bookmarks of several files, one file after another.
pub open spec fn all_bookmarks(files: Seq<Vec<u8>>) -> Seq<(Seq<char>, Seq<char>)>
    decreases files.len(),
{
    if files.len() == 0 {
        Seq::empty()
    } else {
        all_bookmarks(files.drop_last()) + file_bookmarks(files.last()@)
    }
}

/// Bookmarks as (name, url) from the `Bookmarks` files of the browser profiles, in
/// launcher order: by lowercase name, neighbours with the same url dropped, at most 3000.
pub fn enum_bookmarks(files: &Vec<Vec<u8>>) -> (r: Vec<(String, String)>)
    ensures
        pairs_view(r@) == first(sort_dedup(all_bookmarks(files@), false, dedup_key(DedupBy::Second)), 3000),
{
    let mut found: Vec<(String, String)> = Vec::new();
    let mut i: usize = 0;
    proof {
        assert(pairs_view(found@) =~= all_bookmarks(files@.take(0)));
    }
    while i < files.len()
        invariant
            i <= files@.len(),
            pairs_view(found@) == all_bookmarks(files@.take(i as int)),
        decreases files.len() - i,
    {
        proof {
            assert(files@.take(i + 1).drop_last() =~= files@.take(i as int));
            assert(files@.take(i + 1).last() == files@[i as int]);
        }
        let ghost o = pairs_view(found@);
        match parse_json(files[i].as_slice()) {
            Some(v) => {
                match field(&v, "roots") {
                    Some(roots) => {
                        collect_bm(roots, &mut found);
                    },
                    None => {
                        proof {
                            assert(pairs_view(found@) =~= o + bm(Json::Null));
                        }
                    },
                }
            },
            None => {
                proof {
                    assert(pairs_view(found@) =~= o + Seq::<(Seq<char>, Seq<char>)>::empty());
                }
            },
        }
        i = i + 1;
    }
    proof {
        assert(files@.take(files@.len() as int) =~= files@);
    }
    let mut r = sort_and_dedup(found, false, DedupBy::Second);
    let ghost before = r@;
    r.truncate(3000);
    proof {
        assert(pairs_view(r@) =~= first(pairs_view(before), 3000));
    }
    r
}

/// History rows as the launcher keeps them: in query order (most visited first),
/// neighbours with the same url dropped, at most 1500.
pub open spec fn history_list(rows: Seq<Pair>) -> Seq<Pair> {
    first(strip(dedup(rekey(rows, dedup_key(DedupBy::Second)))), 1500)
}

/// The history as (title, url) from the rows read out of the profiles' `History`
/// databases (each gives at most 500 titled urls, most visited and most recent first).
pub fn enum_history(rows: Vec<(String, String)>) -> (r: Vec<(String, String)>)
    ensures
        pairs_view(r@) == history_list(pairs_view(rows@)),
{
    let keyed = rekey_exec(rows, &DedupBy::Second);
    let d = dedup_by_key(keyed);
    let mut r = strip_keys(d);
    let ghost before = r@;
    r.truncate(1500);
    proof {
        assert(pairs_view(before) =~= views(before));
        assert(pairs_view(r@) =~= first(pairs_view(before), 1500));
    }
    r
}

/// The Chromium browsers looked for, as (name, default profile folder under
/// `%LOCALAPPDATA%`), in order.
pub open spec fn chromium_profiles_spec() -> Seq<(Seq<char>, Seq<char>)> {
    seq![
        ("Chrome"@, "Google\\Chrome\\User Data\\Default"@),
        ("Edge"@, "Microsoft\\Edge\\User Data\\Default"@),
        ("Brave"@, "BraveSoftware\\Brave-Browser\\User Data\\Default"@),
    ]
}

/// The default profile folders of the Chromium browsers (see [`chromium_profiles_spec`]);
/// the caller keeps those that exist.
pub fn chromium_profiles() -> (r: Vec<(String, String)>)
    ensures
        pairs_view(r@) == chromium_profiles_spec(),
{
    let r = vec![
        (string_of("Chrome"), string_of("Google\\Chrome\\User Data\\Default")),
        (string_of("Edge"), string_of("Microsoft\\Edge\\User Data\\Default")),
        (string_of("Brave"), string_of("BraveSoftware\\Brave-Browser\\User Data\\Default")),
    ];
    proof {
        assert(pairs_view(r@) =~= chromium_profiles_spec());
    }
    r
}

/// The history query: titled pages, most visited (then most recent) first, 500 of them.
pub const HISTORY_QUERY: &'static str = "SELECT title, url FROM urls WHERE title != '' ORDER BY visit_count DESC, last_visit_time DESC LIMIT 500";

} // verus!

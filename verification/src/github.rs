//! GitHub through the `gh` command line tool: your repositories and unread notifications.
//!
//! Running `gh` is left to the caller; these functions read what it printed.
use vstd::prelude::*;
use crate::json::{
    as_array, as_str, field, filter_map, get, json_parse, lemma_filter_map_push, opt_array,
    opt_str, opt_str_or_empty, pairs_view, parse_json, str_or_empty, Json,
};
use crate::text::{push_str, string_of};

verus! {

/// The JSON that a `gh` run printed: its stdout parsed when the run succeeded, `None`
/// when it failed or printed something that is not JSON.
pub fn gh_json(success: bool, stdout: &[u8]) -> (r: Option<Json>)
    ensures
        r == if success { json_parse(stdout@) } else { None },
{
    if !success {
        return None;
    }
    parse_json(stdout)
}

/// One element of `gh repo list --json nameWithOwner,url`: both fields must be strings.
pub open spec fn repo_entry(r: Json) -> Option<(Seq<char>, Seq<char>)> {
    match (as_str(get(r, "nameWithOwner"@)), as_str(get(r, "url"@))) {
        (Some(n), Some(u)) => Some((n, u)),
        _ => None,
    }
}

/// The repositories listed in a `gh repo list` reply (nothing unless it is an array).
pub open spec fn repo_list(v: Json) -> Seq<(Seq<char>, Seq<char>)> {
    match as_array(v) {
        Some(items) => filter_map(items, |r: Json| repo_entry(r)),
        None => Seq::empty(),
    }
}

/// (nameWithOwner, url) of each listed repository.
pub fn repos_from_json(v: &Json) -> (r: Vec<(String, String)>)
    ensures
        pairs_view(r@) == repo_list(*v),
{
    let mut out: Vec<(String, String)> = Vec::new();
    let items = match v {
        Json::Array(items) => items,
        _ => {
            return out;
        },
    };
    let ghost f = |r: Json| repo_entry(r);
    let mut i: usize = 0;
    proof {
        assert(items@.take(0) =~= Seq::<Json>::empty());
        assert(pairs_view(out@) =~= Seq::<(Seq<char>, Seq<char>)>::empty());
    }
    while i < items.len()
        invariant
            *v == Json::Array(*items),
            i <= items@.len(),
            pairs_view(out@) == filter_map(items@.take(i as int), f),
            f == (|r: Json| repo_entry(r)),
        decreases items.len() - i,
    {
        let item = &items[i];
        let n = opt_str(field(item, "nameWithOwner"));
        let u = opt_str(field(item, "url"));
        proof {
            assert(items@.take(i + 1) =~= items@.take(i as int).push(items@[i as int]));
            lemma_filter_map_push(items@.take(i as int), items@[i as int], f);
        }
        match (n, u) {
            (Some(n), Some(u)) => {
                let ghost before = out@;
                out.push((n.clone(), u.clone()));
                proof {
                    assert(repo_entry(items@[i as int]) == Some((n@, u@)));
                    assert(f(items@[i as int]) == Some((n@, u@)));
                    assert(pairs_view(out@) =~= pairs_view(before).push((n@, u@)));
                }
            },
            _ => {
                proof {
                    assert(repo_entry(items@[i as int]) is None);
                    assert(f(items@[i as int]) is None);
                }
            },
        }
        i = i + 1;
    }
    proof {
        assert(items@.take(items@.len() as int) =~= items@);
    }
    out
}

/// The `gh` arguments that list up to 300 of your repositories as JSON objects with
/// their `nameWithOwner` and `url`.
pub fn repos_command() -> (r: Vec<String>)
    ensures
        r@.map_values(|a: String| a@) == seq![
            "repo"@,
            "list"@,
            "--limit"@,
            "300"@,
            "--json"@,
            "nameWithOwner,url"@,
        ],
{
    let r = vec![
        string_of("repo"),
        string_of("list"),
        string_of("--limit"),
        string_of("300"),
        string_of("--json"),
        string_of("nameWithOwner,url"),
    ];
    proof {
        assert(r@.map_values(|a: String| a@) =~= seq![
            "repo"@,
            "list"@,
            "--limit"@,
            "300"@,
            "--json"@,
            "nameWithOwner,url"@,
        ]);
    }
    r
}

/// The `gh` arguments that fetch your unread notifications from the REST API.
pub fn notifications_command() -> (r: Vec<String>)
    ensures
        r@.map_values(|a: String| a@) == seq!["api"@, "/notifications"@],
{
    let r = vec![string_of("api"), string_of("/notifications")];
    proof {
        assert(r@.map_values(|a: String| a@) =~= seq!["api"@, "/notifications"@]);
    }
    r
}

/// Your repositories as (nameWithOwner, url), read from the output of
/// `gh repo list --limit 300 --json nameWithOwner,url`; empty when the run failed or
/// printed no JSON.
pub fn repos(success: bool, stdout: &[u8]) -> (r: Vec<(String, String)>)
    ensures
        pairs_view(r@) == match (if success { json_parse(stdout@) } else { None }) {
            Some(v) => repo_list(v),
            None => Seq::empty(),
        },
{
    match gh_json(success, stdout) {
        Some(v) => repos_from_json(&v),
        None => {
            let out: Vec<(String, String)> = Vec::new();
            proof {
                assert(pairs_view(out@) =~= Seq::<(Seq<char>, Seq<char>)>::empty());
            }
            out
        },
    }
}

/// One notification: its subject title and `https://github.com/<repository full name>`;
/// left out when the title is missing or empty.
pub open spec fn notif_entry(n: Json) -> Option<(Seq<char>, Seq<char>)> {
    let title = str_or_empty(get(get(n, "subject"@), "title"@));
    let repo = str_or_empty(get(get(n, "repository"@), "full_name"@));
    if title.len() == 0 {
        None
    } else {
        Some((title, "https://github.com/"@ + repo))
    }
}

/// The notifications in a `gh api /notifications` reply (nothing unless it is an array).
pub open spec fn notif_list(v: Json) -> Seq<(Seq<char>, Seq<char>)> {
    match as_array(v) {
        Some(items) => filter_map(items, |n: Json| notif_entry(n)),
        None => Seq::empty(),
    }
}

/// `value[a][b].as_str().unwrap_or("")`.
fn nested_str(j: &Json, a: &str, b: &str) -> (r: String)
    ensures
        r@ == str_or_empty(get(get(*j, a@), b@)),
{
    match field(j, a) {
        Some(x) => opt_str_or_empty(field(x, b)),
        None => {
            let e = String::new();
            proof {
                assert(get(Json::Null, b@) == Json::Null);
            }
            e
        },
    }
}

/// (title, repository url) of each unread notification.
pub fn notifications_from_json(v: &Json) -> (r: Vec<(String, String)>)
    ensures
        pairs_view(r@) == notif_list(*v),
{
    let mut out: Vec<(String, String)> = Vec::new();
    let items = match v {
        Json::Array(items) => items,
        _ => {
            return out;
        },
    };
    let ghost f = |n: Json| notif_entry(n);
    let mut i: usize = 0;
    proof {
        assert(items@.take(0) =~= Seq::<Json>::empty());
        assert(pairs_view(out@) =~= Seq::<(Seq<char>, Seq<char>)>::empty());
    }
    while i < items.len()
        invariant
            *v == Json::Array(*items),
            i <= items@.len(),
            pairs_view(out@) == filter_map(items@.take(i as int), f),
            f == (|n: Json| notif_entry(n)),
        decreases items.len() - i,
    {
        let item = &items[i];
        let title = nested_str(item, "subject", "title");
        let repo = nested_str(item, "repository", "full_name");
        proof {
            assert(items@.take(i + 1) =~= items@.take(i as int).push(items@[i as int]));
            lemma_filter_map_push(items@.take(i as int), items@[i as int], f);
        }
        if !title.as_str().is_empty() {
            let mut url = string_of("https://github.com/");
            push_str(&mut url, repo.as_str());
            let ghost before = out@;
            out.push((title, url));
            proof {
                assert(notif_entry(items@[i as int]) == Some((title@, url@)));
                assert(f(items@[i as int]) == Some((title@, url@)));
                assert(pairs_view(out@) =~= pairs_view(before).push((title@, url@)));
            }
        } else {
            proof {
                assert(f(items@[i as int]) is None);
            }
        }
        i = i + 1;
    }
    proof {
        assert(items@.take(items@.len() as int) =~= items@);
    }
    out
}

/// Unread notifications as (title, repository url), read from the output of
/// `gh api /notifications`; empty when the run failed or printed no JSON.
pub fn notifications(success: bool, stdout: &[u8]) -> (r: Vec<(String, String)>)
    ensures
        pairs_view(r@) == match (if success { json_parse(stdout@) } else { None }) {
            Some(v) => notif_list(v),
            None => Seq::empty(),
        },
{
    match gh_json(success, stdout) {
        Some(v) => notifications_from_json(&v),
        None => {
            let out: Vec<(String, String)> = Vec::new();
            proof {
                assert(pairs_view(out@) =~= Seq::<(Seq<char>, Seq<char>)>::empty());
            }
            out
        },
    }
}

} // verus!

//! The browser open-tabs bridge: a tiny localhost server the companion extension talks to.
//!
//! `POST /tabs` uploads the current tab list; `GET /activate` polls for a "switch to
//! this tab" command. The server loop is the caller's: it hands each request to
//! [`handle`] with the shared state and sends back the body it returns.
use vstd::prelude::*;
use crate::json::{
    as_array, as_i64, as_str, field, filter_map, get, json_parse_str, lemma_filter_map_push,
    opt_str, opt_str_or_empty, pairs_view, parse_json_str, str_or_empty, Json,
};
use crate::script::{esc_spec, push_esc};
use crate::sorting::{first, views};
use crate::text::{
    chars_of, contains, contains_exec, lower, push_char, push_signed, push_str, signed_decimal,
    starts_with, starts_with_exec, string_of, to_lowercase,
};

verus! {

/// One open tab: (title, url, tab id, window id).
pub type Tab = (String, String, i64, i64);

/// The address the bridge listens on; the extension is built to reach it there.
pub const BRIDGE_ADDR: &'static str = "127.0.0.1:37421";

/// The headers of every bridge reply: any origin may read it (the extension's page is
/// another origin), and the body is JSON.
pub fn response_headers() -> (r: Vec<(String, String)>)
    ensures
        pairs_view(r@) == seq![
            ("Access-Control-Allow-Origin"@, "*"@),
            ("Content-Type"@, "application/json"@),
        ],
{
    let r = vec![
        (string_of("Access-Control-Allow-Origin"), string_of("*")),
        (string_of("Content-Type"), string_of("application/json")),
    ];
    proof {
        assert(pairs_view(r@) =~= seq![
            ("Access-Control-Allow-Origin"@, "*"@),
            ("Content-Type"@, "application/json"@),
        ]);
    }
    r
}

/// Most tabs a tab search lists.
pub const MAX_TAB_HITS: usize = 8;

/// `value.as_i64().unwrap_or(-1)`.
pub open spec fn i64_or_minus_one(j: Json) -> i64 {
    match as_i64(j) {
        Some(n) => n,
        None => -1i64,
    }
}

/// One uploaded tab: left out unless its `url` is a non-empty string; title defaults to
/// empty, ids to -1.
pub open spec fn tab_entry(t: Json) -> Option<(Seq<char>, Seq<char>, i64, i64)> {
    match as_str(get(t, "url"@)) {
        Some(u) => if u.len() == 0 {
            None
        } else {
            Some(
                (
                    str_or_empty(get(t, "title"@)),
                    u,
                    i64_or_minus_one(get(t, "id"@)),
                    i64_or_minus_one(get(t, "windowId"@)),
                ),
            )
        },
        None => None,
    }
}

/// The tab list an upload carries: `None` unless the body is a JSON array.
pub open spec fn upload_spec(body: Seq<char>) -> Option<Seq<(Seq<char>, Seq<char>, i64, i64)>> {
    match json_parse_str(body) {
        Some(v) => match as_array(v) {
            Some(items) => Some(filter_map(items, |t: Json| tab_entry(t))),
            None => None,
        },
        None => None,
    }
}

/// `value.as_i64().unwrap_or(-1)` on an optional member.
fn i64_or_minus_one_exec(j: Option<&Json>) -> (r: i64)
    ensures
        r == match j {
            Some(v) => i64_or_minus_one(*v),
            None => -1i64,
        },
{
    match j {
        Some(Json::Number(Some(n))) => *n,
        _ => -1,
    }
}

/// Reads an uploaded tab list (see [`upload_spec`]).
pub fn parse_tabs(body: &str) -> (r: Option<Vec<Tab>>)
    ensures
        match r {
            Some(v) => upload_spec(body@) == Some(views(v@)),
            None => upload_spec(body@) is None,
        },
{
    let v = match parse_json_str(body) {
        Some(v) => v,
        None => {
            return None;
        },
    };
    let items = match &v {
        Json::Array(items) => items,
        _ => {
            return None;
        },
    };
    let ghost f = |t: Json| tab_entry(t);
    let mut out: Vec<Tab> = Vec::new();
    let mut i: usize = 0;
    proof {
        assert(items@.take(0) =~= Seq::<Json>::empty());
        assert(views(out@) =~= Seq::<(Seq<char>, Seq<char>, i64, i64)>::empty());
    }
    while i < items.len()
        invariant
            i <= items@.len(),
            f == (|t: Json| tab_entry(t)),
            views(out@) == filter_map(items@.take(i as int), f),
        decreases items.len() - i,
    {
        let t = &items[i];
        proof {
            assert(items@.take(i + 1) =~= items@.take(i as int).push(items@[i as int]));
            lemma_filter_map_push(items@.take(i as int), items@[i as int], f);
        }
        match opt_str(field(t, "url")) {
            Some(u) if !u.as_str().is_empty() => {
                let title = opt_str_or_empty(field(t, "title"));
                let id = i64_or_minus_one_exec(field(t, "id"));
                let win = i64_or_minus_one_exec(field(t, "windowId"));
                let ghost before = out@;
                let ghost e = (title@, u@, id, win);
                out.push((title, u.clone(), id, win));
                proof {
                    assert(f(items@[i as int]) == Some(e));
                    assert(views(out@) =~= views(before).push(e));
                }
            },
            _ => {
                proof {
                    assert(f(items@[i as int]) is None);
                }
            },
        }
        i = i + 1;
    }
    proof {
        assert(items@.take(items@.len() as int) =~= items@);
    }
    Some(out)
}

/// The reply to an activation poll: `{"tabId":t,"windowId":w}` for a pending
/// command, `{}` when there is none.
pub open spec fn activate_body_spec(cmd: Option<(i64, i64)>) -> Seq<char> {
    match cmd {
        Some((t, w)) => "{\"tabId\":"@ + signed_decimal(t as int) + ",\"windowId\":"@
            + signed_decimal(w as int) + "}"@,
        None => "{}"@,
    }
}

/// Writes the reply to an activation poll (see [`activate_body_spec`]).
pub fn activate_body(cmd: Option<(i64, i64)>) -> (r: String)
    ensures
        r@ == activate_body_spec(cmd),
{
    match cmd {
        Some((t, w)) => {
            let mut out = string_of("{\"tabId\":");
            push_signed(&mut out, t);
            push_str(&mut out, ",\"windowId\":");
            push_signed(&mut out, w);
            push_str(&mut out, "}");
            out
        },
        None => string_of("{}"),
    }
}

/// The state the bridge keeps: the tab list and the pending activation.
pub type BridgeState = (Seq<(Seq<char>, Seq<char>, i64, i64)>, Option<(i64, i64)>);

/// One request to the bridge, given its URL and body: the reply body and the new state.
/// An upload (`/tabs...`) replaces the tab list when the body is a JSON array and
/// answers `{"ok":true}`; an activation poll (`/activate...`) takes the pending command,
/// if any, and answers it; anything else answers `{}` and changes nothing.
pub open spec fn handle_spec(url: Seq<char>, body: Seq<char>, st: BridgeState) -> (Seq<char>, BridgeState) {
    if starts_with(url, "/tabs"@) {
        let tabs = match upload_spec(body) {
            Some(list) => list,
            None => st.0,
        };
        ("{\"ok\":true}"@, (tabs, st.1))
    } else if starts_with(url, "/activate"@) {
        (activate_body_spec(st.1), (st.0, None))
    } else {
        ("{}"@, st)
    }
}

/// Handles one request to the bridge (see [`handle_spec`]), updating the shared state.
pub fn handle(url: &str, body: &str, tabs: &mut Vec<Tab>, pending: &mut Option<(i64, i64)>) -> (r: String)
    ensures
        (r@, (views(final(tabs)@), *final(pending))) == handle_spec(
            url@,
            body@,
            (views(old(tabs)@), *old(pending)),
        ),
{
    let u = chars_of(url);
    let tabs_prefix = chars_of("/tabs");
    let activate_prefix = chars_of("/activate");
    if starts_with_exec(u.as_slice(), tabs_prefix.as_slice()) {
        if let Some(list) = parse_tabs(body) {
            *tabs = list;
        }
        string_of("{\"ok\":true}")
    } else if starts_with_exec(u.as_slice(), activate_prefix.as_slice()) {
        let cmd = pending.take();
        activate_body(cmd)
    } else {
        string_of("{}")
    }
}

/// A "switch to this tab" command is delivered once: the next activation poll answers
/// it and clears it, and the poll after that (with nothing set in between) answers `{}`.
pub proof fn lemma_activation_delivered_once(
    url: Seq<char>,
    url2: Seq<char>,
    body: Seq<char>,
    body2: Seq<char>,
    tabs: Seq<(Seq<char>, Seq<char>, i64, i64)>,
    cmd: (i64, i64),
)
    requires
        starts_with(url, "/activate"@),
        starts_with(url2, "/activate"@),
    ensures
        handle_spec(url, body, (tabs, Some(cmd))).0 == activate_body_spec(Some(cmd)),
        handle_spec(url, body, (tabs, Some(cmd))).1 == (tabs, None::<(i64, i64)>),
        handle_spec(url2, body2, handle_spec(url, body, (tabs, Some(cmd))).1).0 == "{}"@,
{
    reveal_strlit("/activate");
    reveal_strlit("/tabs");
    assert(url.subrange(0, 9) == "/activate"@);
    assert(url.subrange(0, 9)[1] == url[1]);
    assert(url2.subrange(0, 9) == "/activate"@);
    assert(url2.subrange(0, 9)[1] == url2[1]);
    assert(!starts_with(url, "/tabs"@)) by {
        if starts_with(url, "/tabs"@) {
            assert(url.subrange(0, 5) == "/tabs"@);
            assert(url.subrange(0, 5)[1] == url[1]);
        }
    }
    assert(!starts_with(url2, "/tabs"@)) by {
        if starts_with(url2, "/tabs"@) {
            assert(url2.subrange(0, 5) == "/tabs"@);
            assert(url2.subrange(0, 5)[1] == url2[1]);
        }
    }
}

/// A tab a search hits: its lowercased title or url contains the lowercased query.
pub open spec fn tab_hit(ql: Seq<char>, t: (Seq<char>, Seq<char>, i64, i64)) -> bool {
    contains(lower(t.0), ql) || contains(lower(t.1), ql)
}

/// The tabs a search lists: the hits, in order, at most [`MAX_TAB_HITS`].
pub open spec fn tab_search_spec(tabs: Seq<(Seq<char>, Seq<char>, i64, i64)>, q: Seq<char>) -> Seq<(Seq<char>, Seq<char>, i64, i64)> {
    first(tabs.filter(|t: (Seq<char>, Seq<char>, i64, i64)| tab_hit(lower(q), t)), MAX_TAB_HITS as int)
}

/// Whether the lowercased title or the lowercased url of `t` contains the lowercased `q`.
pub open spec fn matches_query(t: (Seq<char>, Seq<char>, i64, i64), q: Seq<char>) -> bool {
    contains(lower(t.0), lower(q)) || contains(lower(t.1), lower(q))
}

/// A tab search lists at most [`MAX_TAB_HITS`] tabs, each an input tab whose title or
/// url contains the query, case set aside; and while it lists fewer than that, it lists
/// every such tab, whatever the case of its title.
pub proof fn lemma_search_finds_matches(tabs: Seq<(Seq<char>, Seq<char>, i64, i64)>, q: Seq<char>)
    ensures
        tab_search_spec(tabs, q).len() <= MAX_TAB_HITS,
        forall|k: int|
            0 <= k < tab_search_spec(tabs, q).len() ==> tabs.contains(
                #[trigger] tab_search_spec(tabs, q)[k],
            ) && matches_query(tab_search_spec(tabs, q)[k], q),
        forall|i: int|
            0 <= i < tabs.len() && #[trigger] matches_query(tabs[i], q) && tab_search_spec(
                tabs,
                q,
            ).len() < MAX_TAB_HITS ==> tab_search_spec(tabs, q).contains(tabs[i]),
        forall|i: int|
            0 <= i < tabs.len() && #[trigger] matches_query(tabs[i], q) && tabs.take(i).filter(
                |t: (Seq<char>, Seq<char>, i64, i64)| matches_query(t, q),
            ).len() < MAX_TAB_HITS ==> tab_search_spec(tabs, q).contains(tabs[i]),
{
    let p = |t: (Seq<char>, Seq<char>, i64, i64)| tab_hit(lower(q), t);
    let m = |t: (Seq<char>, Seq<char>, i64, i64)| matches_query(t, q);
    assert(p =~= m);
    let f = tabs.filter(p);
    let r = tab_search_spec(tabs, q);
    assert forall|k: int| 0 <= k < r.len() implies tabs.contains(#[trigger] r[k]) && matches_query(
        r[k],
        q,
    ) by {
        assert(r[k] == f[k]);
        tabs.lemma_filter_pred(p, k);
        assert(f.contains(f[k]));
        tabs.lemma_filter_contains_rev(p, f[k]);
    }
    assert forall|i: int|
        0 <= i < tabs.len() && #[trigger] matches_query(tabs[i], q) && r.len()
            < MAX_TAB_HITS implies r.contains(tabs[i]) by {
        assert(p(tabs[i]));
        tabs.lemma_filter_contains(p, i);
        assert(r == f);
    }
    assert forall|i: int|
        0 <= i < tabs.len() && #[trigger] matches_query(tabs[i], q) && tabs.take(i).filter(m).len()
            < MAX_TAB_HITS implies r.contains(tabs[i]) by {
        let c = tabs.take(i).filter(p).len() as int;
        lemma_filter_prefix(tabs, i + 1, p);
        assert(tabs.take(i + 1) =~= tabs.take(i).push(tabs[i]));
        tabs.take(i).lemma_filter_push(tabs[i], p);
        assert(tabs.take(i + 1).filter(p) == tabs.take(i).filter(p).push(tabs[i]));
        assert(f.take(c + 1) == tabs.take(i + 1).filter(p));
        assert(f[c] == f.take(c + 1)[c]);
        assert(f[c] == tabs[i]);
        assert(r[c] == f[c]);
    }
}

/// Open tabs whose title or url contains `q` (case-insensitively), first eight.
pub fn search_tabs(tabs: &Vec<Tab>, q: &str) -> (r: Vec<Tab>)
    ensures
        views(r@) == tab_search_spec(views(tabs@), q@),
        r@.len() <= MAX_TAB_HITS,
        forall|i: int|
            0 <= i < tabs@.len() && #[trigger] matches_query(views(tabs@)[i], q@) && r@.len()
                < MAX_TAB_HITS ==> views(r@).contains(views(tabs@)[i]),
        forall|i: int|
            0 <= i < tabs@.len() && #[trigger] matches_query(views(tabs@)[i], q@) && views(tabs@).take(
                i,
            ).filter(|t: (Seq<char>, Seq<char>, i64, i64)| matches_query(t, q@)).len()
                < MAX_TAB_HITS ==> views(r@).contains(views(tabs@)[i]),
        forall|k: int|
            0 <= k < r@.len() ==> views(tabs@).contains(#[trigger] views(r@)[k])
                && matches_query(views(r@)[k], q@),
{
    let ql = to_lowercase(q);
    let qc = chars_of(ql.as_str());
    let ghost tv = views(tabs@);
    let ghost p = |t: (Seq<char>, Seq<char>, i64, i64)| tab_hit(lower(q@), t);
    let mut out: Vec<Tab> = Vec::new();
    let mut i: usize = 0;
    proof {
        assert(tv.take(0) =~= Seq::<(Seq<char>, Seq<char>, i64, i64)>::empty());
        assert(views(out@) =~= Seq::<(Seq<char>, Seq<char>, i64, i64)>::empty());
    }
    while i < tabs.len() && out.len() < MAX_TAB_HITS
        invariant
            i <= tabs@.len(),
            tv == views(tabs@),
            qc@ == lower(q@),
            p == (|t: (Seq<char>, Seq<char>, i64, i64)| tab_hit(lower(q@), t)),
            views(out@) == tv.take(i as int).filter(p),
            out@.len() <= MAX_TAB_HITS,
        decreases tabs.len() - i,
    {
        let tl = to_lowercase(tabs[i].0.as_str());
        let ul = to_lowercase(tabs[i].1.as_str());
        let hit = contains_exec(chars_of(tl.as_str()).as_slice(), qc.as_slice())
            || contains_exec(chars_of(ul.as_str()).as_slice(), qc.as_slice());
        proof {
            assert(tv.take(i + 1) =~= tv.take(i as int).push(tv[i as int]));
            tv.take(i as int).lemma_filter_push(tv[i as int], p);
            assert(hit == p(tv[i as int]));
        }
        if hit {
            let ghost before = out@;
            let e = (tabs[i].0.clone(), tabs[i].1.clone(), tabs[i].2, tabs[i].3);
            out.push(e);
            proof {
                assert(views(out@) =~= views(before).push(tv[i as int]));
            }
        }
        i = i + 1;
    }
    proof {
        if i == tabs@.len() {
            assert(tv.take(i as int) =~= tv);
        } else {
            assert(out@.len() == MAX_TAB_HITS);
            lemma_filter_prefix(tv, i as int, p);
        }
        lemma_search_finds_matches(tv, q@);
    }
    out
}

/// Filtering a prefix gives a prefix of the filtered whole.
proof fn lemma_filter_prefix<A>(s: Seq<A>, k: int, p: spec_fn(A) -> bool)
    requires
        0 <= k <= s.len(),
    ensures
        s.take(k).filter(p).len() <= s.filter(p).len(),
        s.filter(p).take(s.take(k).filter(p).len() as int) == s.take(k).filter(p),
    decreases s.len() - k,
{
    if k == s.len() {
        assert(s.take(k) =~= s);
        assert(s.filter(p).take(s.filter(p).len() as int) =~= s.filter(p));
    } else {
        lemma_filter_prefix(s, k + 1, p);
        assert(s.take(k + 1) =~= s.take(k).push(s[k]));
        s.take(k).lemma_filter_push(s[k], p);
        let a = s.take(k).filter(p);
        let b = s.take(k + 1).filter(p);
        let w = s.filter(p);
        assert(w.take(b.len() as int) == b);
        if p(s[k]) {
            assert(b == a.push(s[k]));
            assert(w.take(a.len() as int) =~= b.take(a.len() as int));
            assert(b.take(a.len() as int) =~= a);
        } else {
            assert(b == a);
        }
    }
}

/// `{"title":"..","url":"..","id":n,"win":n}` for one tab, strings escaped.
pub open spec fn tab_object(t: (Seq<char>, Seq<char>, i64, i64)) -> Seq<char> {
    "{\"title\":\""@ + esc_spec(t.0) + "\",\"url\":\""@ + esc_spec(t.1) + "\",\"id\":"@
        + signed_decimal(t.2 as int) + ",\"win\":"@ + signed_decimal(t.3 as int) + "}"@
}

/// The objects for all tabs, separated by commas.
pub open spec fn tab_objects(ts: Seq<(Seq<char>, Seq<char>, i64, i64)>) -> Seq<char>
    decreases ts.len(),
{
    if ts.len() == 0 {
        Seq::empty()
    } else if ts.len() == 1 {
        tab_object(ts[0])
    } else {
        tab_objects(ts.drop_last()) + ","@ + tab_object(ts.last())
    }
}

/// The body of the array handed to `pushTabs` (see [`tab_objects`]).
pub fn tabs_json(ts: &Vec<Tab>) -> (r: String)
    ensures
        r@ == tab_objects(views(ts@)),
{
    let ghost v = views(ts@);
    let mut out = String::new();
    let mut i: usize = 0;
    proof {
        assert(out@ =~= tab_objects(v.take(0)));
    }
    while i < ts.len()
        invariant
            i <= ts@.len(),
            v == views(ts@),
            out@ == tab_objects(v.take(i as int)),
        decreases ts.len() - i,
    {
        let ghost before = out@;
        if i > 0 {
            push_char(&mut out, ',');
        }
        let ghost mid = out@;
        push_str(&mut out, "{\"title\":\"");
        push_esc(&mut out, ts[i].0.as_str());
        push_str(&mut out, "\",\"url\":\"");
        push_esc(&mut out, ts[i].1.as_str());
        push_str(&mut out, "\",\"id\":");
        push_signed(&mut out, ts[i].2);
        push_str(&mut out, ",\"win\":");
        push_signed(&mut out, ts[i].3);
        push_str(&mut out, "}");
        proof {
            let t = v.take(i + 1);
            assert(t.drop_last() =~= v.take(i as int));
            assert(t.last() == v[i as int]);
            assert(out@ =~= mid + tab_object(v[i as int]));
            if i > 0 {
                reveal_strlit(",");
                assert(mid =~= before + ","@);
            } else {
                assert(mid =~= before);
                assert(before =~= Seq::<char>::empty());
            }
        }
        i = i + 1;
    }
    proof {
        assert(v.take(ts@.len() as int) =~= v);
    }
    out
}

} // verus!

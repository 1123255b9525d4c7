//! The plugin host: external processes give launcher results over line-delimited JSON.
//!
//! Each `plugins/<name>/plugin.json` is `{ "name", "trigger", "command" }`. Per query
//! the host writes `{"query":"..."}` and a newline to a plugin's stdin and reads one
//! line `{"results":[{"title","subtitle","action"}]}` back. Starting the processes and
//! the pipe traffic are the caller's; this module reads manifests and replies, writes
//! requests, and decides which plugin a query goes to.
use vstd::prelude::*;
use crate::json::{
    as_array, as_str, field, filter_map, get, json_parse_str, json_quoted, lemma_filter_map_push,
    opt_array, opt_str, opt_str_or_empty, pairs_view, parse_json_str, quote_json, str_or_empty,
    triples_view, Json,
};
use crate::text::{push_str, string_of};
use crate::words::{split_whitespace, strip_prefix, strip_prefix_spec, trim, trim_exec, words};

verus! {

/// A plugin as its manifest describes it: name, trigger prefix, and the program to run
/// with its arguments (the words of `command`).
pub struct PluginSpec {
    pub name: String,
    pub trigger: String,
    pub program: String,
    pub args: Vec<String>,
}

/// What a manifest says: name (default `plugin`), trigger (default empty) and the
/// words of a non-empty `command`; `None` when there is no such command.
pub open spec fn manifest_spec(m: Json) -> Option<(Seq<char>, Seq<char>, Seq<Seq<char>>)> {
    let name = match as_str(get(m, "name"@)) {
        Some(n) => n,
        None => "plugin"@,
    };
    let trigger = str_or_empty(get(m, "trigger"@));
    match as_str(get(m, "command"@)) {
        Some(c) => if c.len() > 0 && words(c).len() > 0 {
            Some((name, trigger, words(c)))
        } else {
            None
        },
        None => None,
    }
}

/// Reads a `plugin.json`: `None` when it is not JSON or names no command to run.
pub fn parse_manifest(txt: &str) -> (r: Option<PluginSpec>)
    ensures
        match r {
            Some(p) => json_parse_str(txt@) matches Some(m) && manifest_spec(m) == Some(
                (p.name@, p.trigger@, seq![p.program@] + p.args@.map_values(|a: String| a@)),
            ),
            None => json_parse_str(txt@) matches Some(m) ==> manifest_spec(m) is None,
        },
{
    let m = match parse_json_str(txt) {
        Some(m) => m,
        None => {
            return None;
        },
    };
    let name = match opt_str(field(&m, "name")) {
        Some(n) => n.clone(),
        None => string_of("plugin"),
    };
    let trigger = opt_str_or_empty(field(&m, "trigger"));
    let cmd = match opt_str(field(&m, "command")) {
        Some(c) => c,
        None => {
            return None;
        },
    };
    if cmd.as_str().is_empty() {
        return None;
    }
    let mut parts = split_whitespace(cmd.as_str());
    if parts.len() == 0 {
        return None;
    }
    let ghost all = parts@.map_values(|a: String| a@);
    let program = parts.remove(0);
    proof {
        assert(all =~= seq![program@] + parts@.map_values(|a: String| a@));
    }
    Some(PluginSpec { name, trigger, program, args: parts })
}

/// What a plugin with `trigger` receives for the query `q`: everything when the
/// trigger is empty; the rest after the trigger, trimmed, when `q` starts with it;
/// nothing (`None`) otherwise.
pub open spec fn route(trigger: Seq<char>, q: Seq<char>) -> Option<Seq<char>> {
    if trigger.len() == 0 {
        Some(q)
    } else {
        match strip_prefix_spec(q, trigger) {
            Some(rest) => Some(trim(rest)),
            None => None,
        }
    }
}

/// For each plugin, in order, the ones a query reaches: (position, what it receives).
pub open spec fn routes(plugins: Seq<(Seq<char>, Seq<char>)>, q: Seq<char>) -> Seq<(int, Seq<char>)>
    decreases plugins.len(),
{
    if plugins.len() == 0 {
        Seq::empty()
    } else {
        let before = routes(plugins.drop_last(), q);
        match route(plugins.last().1, q) {
            Some(sub) => before.push((plugins.len() - 1, sub)),
            None => before,
        }
    }
}

/// The loaded plugins, as (name, trigger), in the order they were added.
pub struct Host {
    names: Vec<(String, String)>,
}

impl View for Host {
    type V = Seq<(Seq<char>, Seq<char>)>;

    closed spec fn view(&self) -> Seq<(Seq<char>, Seq<char>)> {
        pairs_view(self.names@)
    }
}

impl Host {
    /// A host with no plugins.
    pub fn new() -> (h: Host)
        ensures
            h@ == Seq::<(Seq<char>, Seq<char>)>::empty(),
    {
        let h = Host { names: Vec::new() };
        proof {
            assert(h@ =~= Seq::<(Seq<char>, Seq<char>)>::empty());
        }
        h
    }

    /// The host for the plugins that were started, in the order they were started: each
    /// listed with the name and trigger its manifest gave.
    pub fn load(started: &Vec<PluginSpec>) -> (h: Host)
        ensures
            h@ == started@.map_values(|p: PluginSpec| (p.name@, p.trigger@)),
    {
        let mut h = Host::new();
        let mut i: usize = 0;
        while i < started.len()
            invariant
                i <= started@.len(),
                h@ == started@.take(i as int).map_values(|p: PluginSpec| (p.name@, p.trigger@)),
            decreases started.len() - i,
        {
            h.add(started[i].name.clone(), started[i].trigger.clone());
            proof {
                assert(started@.take(i + 1).map_values(|p: PluginSpec| (p.name@, p.trigger@))
                    =~= started@.take(i as int).map_values(|p: PluginSpec| (p.name@, p.trigger@)).push(
                    (started@[i as int].name@, started@[i as int].trigger@),
                ));
            }
            i = i + 1;
        }
        proof {
            assert(started@.take(started@.len() as int) =~= started@);
        }
        h
    }

    /// Records a plugin that was started.
    pub fn add(&mut self, name: String, trigger: String)
        ensures
            final(self)@ == old(self)@.push((name@, trigger@)),
    {
        let ghost before = self.names@;
        self.names.push((name, trigger));
        proof {
            assert(pairs_view(self.names@) =~= pairs_view(before).push((name@, trigger@)));
        }
    }

    /// The loaded plugins as (name, trigger).
    pub fn list(&self) -> (r: &[(String, String)])
        ensures
            pairs_view(r@) == self@,
    {
        self.names.as_slice()
    }

    /// The plugins a query goes to, in order, each with what it receives (see [`route`]).
    pub fn query(&self, q: &str) -> (r: Vec<(usize, String)>)
        ensures
            r@.map_values(|x: (usize, String)| (x.0 as int, x.1@)) == routes(self@, q@),
    {
        let ghost ps = self@;
        let mut out: Vec<(usize, String)> = Vec::new();
        let mut i: usize = 0;
        proof {
            assert(ps.take(0) =~= Seq::<(Seq<char>, Seq<char>)>::empty());
            assert(out@.map_values(|x: (usize, String)| (x.0 as int, x.1@)) =~= Seq::<
                (int, Seq<char>),
            >::empty());
        }
        while i < self.names.len()
            invariant
                i <= self.names@.len(),
                ps == self@,
                ps.len() == self.names@.len(),
                out@.map_values(|x: (usize, String)| (x.0 as int, x.1@)) == routes(
                    ps.take(i as int),
                    q@,
                ),
            decreases self.names.len() - i,
        {
            let trigger = self.names[i].1.as_str();
            proof {
                assert(ps.take(i + 1).drop_last() =~= ps.take(i as int));
                assert(ps.take(i + 1).last() == ps[i as int]);
                assert(ps[i as int].1 == trigger@);
            }
            let sub: Option<String> = if trigger.is_empty() {
                Some(string_of(q))
            } else {
                match strip_prefix(q, trigger) {
                    Some(rest) => Some(trim_exec(rest.as_str())),
                    None => None,
                }
            };
            let ghost before = out@;
            match sub {
                Some(s) => {
                    let ghost sv = s@;
                    out.push((i, s));
                    proof {
                        assert(out@.map_values(|x: (usize, String)| (x.0 as int, x.1@)) =~= before.map_values(
                            |x: (usize, String)| (x.0 as int, x.1@),
                        ).push((i as int, sv)));
                    }
                },
                None => {},
            }
            i = i + 1;
        }
        proof {
            assert(ps.take(i as int) =~= ps);
        }
        out
    }
}

/// What a query reaches is what [`route`] gives for each listed trigger: every entry
/// names a plugin by its place in the list, in increasing order, and carries what that
/// plugin's own trigger lets through.
pub proof fn lemma_routes_follow_list(plugins: Seq<(Seq<char>, Seq<char>)>, q: Seq<char>)
    ensures
        forall|k: int| 0 <= k < routes(plugins, q).len() ==> {
            let e = #[trigger] routes(plugins, q)[k];
            0 <= e.0 < plugins.len() && route(plugins[e.0].1, q) == Some(e.1)
        },
        forall|k: int, m: int| 0 <= k < m < routes(plugins, q).len() ==> (#[trigger] routes(plugins, q)[k]).0
            < (#[trigger] routes(plugins, q)[m]).0,
        forall|i: int| 0 <= i < plugins.len() && route(plugins[i].1, q) is Some ==> exists|k: int|
            0 <= k < routes(plugins, q).len() && (#[trigger] routes(plugins, q)[k]).0 == i,
    decreases plugins.len(),
{
    if plugins.len() > 0 {
        let p = plugins.drop_last();
        lemma_routes_follow_list(p, q);
        let before = routes(p, q);
        let r = routes(plugins, q);
        assert forall|k: int| 0 <= k < before.len() implies (#[trigger] before[k]).0 < plugins.len() - 1 by {
        }
        assert forall|k: int| 0 <= k < r.len() implies {
            let e = #[trigger] r[k];
            0 <= e.0 < plugins.len() && route(plugins[e.0].1, q) == Some(e.1)
        } by {
            if k < before.len() {
                assert(r[k] == before[k]);
                assert(plugins[before[k].0] == p[before[k].0]);
            }
        }
        assert forall|k: int, m: int| 0 <= k < m < r.len() implies (#[trigger] r[k]).0 < (#[trigger] r[m]).0 by {
            assert(r[k] == before[k]);
            if m < before.len() {
                assert(r[m] == before[m]);
            }
        }
        assert forall|i: int| 0 <= i < plugins.len() && route(plugins[i].1, q) is Some implies exists|k: int|
            0 <= k < r.len() && (#[trigger] r[k]).0 == i by {
            if i < plugins.len() - 1 {
                assert(plugins[i] == p[i]);
                let k = choose|k: int| 0 <= k < before.len() && (#[trigger] before[k]).0 == i;
                assert(r[k] == before[k]);
            } else {
                assert(r[r.len() - 1].0 == i);
            }
        }
    }
}

/// The results of one query: the replies of the plugins it reached, in order, each a
/// plugin's results or `None` when it failed (crashed, wrote no JSON line or no
/// `results`); a failed plugin adds nothing and takes nothing from the others.
pub open spec fn gathered(replies: Seq<Option<Seq<(Seq<char>, Seq<char>, Seq<char>)>>>) -> Seq<(Seq<char>, Seq<char>, Seq<char>)>
    decreases replies.len(),
{
    if replies.len() == 0 {
        Seq::empty()
    } else {
        gathered(replies.drop_last()) + match replies.last() {
            Some(v) => v,
            None => Seq::empty(),
        }
    }
}

/// The replies of a query taken as character sequences.
pub open spec fn replies_view(replies: Seq<Option<Vec<(String, String, String)>>>) -> Seq<Option<Seq<(Seq<char>, Seq<char>, Seq<char>)>>> {
    replies.map_values(
        |o: Option<Vec<(String, String, String)>>|
            match o {
                Some(v) => Some(triples_view(v@)),
                None => None,
            },
    )
}

/// Joins the replies of the plugins a query reached (see [`gathered`]).
pub fn gather(replies: Vec<Option<Vec<(String, String, String)>>>) -> (r: Vec<(String, String, String)>)
    ensures
        triples_view(r@) == gathered(replies_view(replies@)),
{
    let ghost rv = replies_view(replies@);
    let mut out: Vec<(String, String, String)> = Vec::new();
    let mut i: usize = 0;
    proof {
        assert(rv.take(0) =~= Seq::<Option<Seq<(Seq<char>, Seq<char>, Seq<char>)>>>::empty());
        assert(triples_view(out@) =~= Seq::<(Seq<char>, Seq<char>, Seq<char>)>::empty());
    }
    while i < replies.len()
        invariant
            i <= replies@.len(),
            rv == replies_view(replies@),
            triples_view(out@) == gathered(rv.take(i as int)),
        decreases replies.len() - i,
    {
        proof {
            assert(rv.take(i + 1).drop_last() =~= rv.take(i as int));
            assert(rv.take(i + 1).last() == rv[i as int]);
        }
        match &replies[i] {
            Some(v) => {
                let mut j: usize = 0;
                let ghost start = triples_view(out@);
                proof {
                    assert(triples_view(v@).take(0) =~= Seq::<(Seq<char>, Seq<char>, Seq<char>)>::empty());
                    assert(start + triples_view(v@).take(0) =~= start);
                }
                while j < v.len()
                    invariant
                        j <= v@.len(),
                        triples_view(out@) == start + triples_view(v@).take(j as int),
                    decreases v.len() - j,
                {
                    let ghost before = triples_view(out@);
                    out.push((v[j].0.clone(), v[j].1.clone(), v[j].2.clone()));
                    proof {
                        assert(triples_view(out@) =~= before.push((v@[j as int].0@, v@[j as int].1@, v@[j as int].2@)));
                        assert(triples_view(v@).take(j + 1) =~= triples_view(v@).take(j as int).push(
                            (v@[j as int].0@, v@[j as int].1@, v@[j as int].2@),
                        ));
                    }
                    j = j + 1;
                }
                proof {
                    assert(triples_view(v@).take(v@.len() as int) =~= triples_view(v@));
                    assert(rv[i as int] == Some(triples_view(v@)));
                }
            },
            None => {
                proof {
                    assert(rv[i as int] is None);
                    assert(gathered(rv.take(i + 1)) =~= gathered(rv.take(i as int)));
                }
            },
        }
        i = i + 1;
    }
    proof {
        assert(rv.take(replies@.len() as int) =~= rv);
    }
    out
}

/// The line written to a plugin for a query: `{"query":<q as a JSON string>}` and a newline.
pub fn request_line(q: &str) -> (r: String)
    ensures
        r@ == "{\"query\":"@ + json_quoted(q@) + "}\n"@,
{
    let mut out = string_of("{\"query\":");
    let quoted = quote_json(q);
    push_str(&mut out, quoted.as_str());
    push_str(&mut out, "}\n");
    out
}

/// One result of a reply as (title, subtitle, action): left out without a string title;
/// subtitle and action default to empty.
pub open spec fn reply_entry(r: Json) -> Option<(Seq<char>, Seq<char>, Seq<char>)> {
    match as_str(get(r, "title"@)) {
        Some(t) => Some((t, str_or_empty(get(r, "subtitle"@)), str_or_empty(get(r, "action"@)))),
        None => None,
    }
}

/// The results of a reply line: `None` when the trimmed line is not JSON or has no
/// `results` array.
pub open spec fn reply_spec(line: Seq<char>) -> Option<Seq<(Seq<char>, Seq<char>, Seq<char>)>> {
    match json_parse_str(trim(line)) {
        Some(v) => match as_array(get(v, "results"@)) {
            Some(items) => Some(filter_map(items, |r: Json| reply_entry(r))),
            None => None,
        },
        None => None,
    }
}

/// Reads a plugin's reply line (see [`reply_spec`]).
pub fn parse_reply(line: &str) -> (r: Option<Vec<(String, String, String)>>)
    ensures
        match r {
            Some(v) => reply_spec(line@) == Some(triples_view(v@)),
            None => reply_spec(line@) is None,
        },
{
    let t = trim_exec(line);
    let v = match parse_json_str(t.as_str()) {
        Some(v) => v,
        None => {
            return None;
        },
    };
    let items = match opt_array(field(&v, "results")) {
        Some(items) => items,
        None => {
            return None;
        },
    };
    let ghost f = |r: Json| reply_entry(r);
    let mut out: Vec<(String, String, String)> = Vec::new();
    let mut i: usize = 0;
    proof {
        assert(items@.take(0) =~= Seq::<Json>::empty());
        assert(triples_view(out@) =~= Seq::<(Seq<char>, Seq<char>, Seq<char>)>::empty());
    }
    while i < items.len()
        invariant
            i <= items@.len(),
            f == (|r: Json| reply_entry(r)),
            triples_view(out@) == filter_map(items@.take(i as int), f),
        decreases items.len() - i,
    {
        let item = &items[i];
        proof {
            assert(items@.take(i + 1) =~= items@.take(i as int).push(items@[i as int]));
            lemma_filter_map_push(items@.take(i as int), items@[i as int], f);
        }
        match opt_str(field(item, "title")) {
            Some(title) => {
                let sub = opt_str_or_empty(field(item, "subtitle"));
                let act = opt_str_or_empty(field(item, "action"));
                let ghost before = out@;
                let ghost e = (title@, sub@, act@);
                out.push((title.clone(), sub, act));
                proof {
                    assert(f(items@[i as int]) == Some(e));
                    assert(triples_view(out@) =~= triples_view(before).push(e));
                }
            },
            None => {
                proof {
                    assert(f(items@[i as int]) is None);
                }
            },
        }
        i = i + 1;
    }
    proof {
        assert(items@.take(items@.len() as int) =~= items@);
    }
    Some(out)
}

} // verus!

//! Text that the host splices into the scripts it runs in the web surfaces.
use vstd::prelude::*;
use crate::json::{json_quoted, pairs_view, quote_json, triples_view};
use crate::text::{decimal, push_char, push_decimal, push_str, string_of};

verus! {

/// How one character is written inside a double-quoted script string: a backslash and a
/// double quote get a backslash in front, a line feed becomes a space.
pub open spec fn esc_char(c: char) -> Seq<char> {
    if c == '\\' {
        seq!['\\', '\\']
    } else if c == '"' {
        seq!['\\', '"']
    } else if c == '\n' {
        seq![' ']
    } else {
        seq![c]
    }
}

/// Every character of `s` written as [`esc_char`] says.
pub open spec fn esc_spec(s: Seq<char>) -> Seq<char>
    decreases s.len(),
{
    if s.len() == 0 {
        Seq::empty()
    } else {
        esc_spec(s.drop_last()) + esc_char(s.last())
    }
}

/// Appends `s` escaped for a double-quoted script string.
pub fn push_esc(out: &mut String, s: &str)
    ensures
        final(out)@ == old(out)@ + esc_spec(s@),
{
    let ghost start = out@;
    proof {
        assert(start + esc_spec(s@.take(0)) =~= start);
    }
    for c in it: s.chars()
        invariant
            out@ == start + esc_spec(it.seq().take(it.index() as int)),
    {
        proof {
            assert(it.seq().take(it.index() + 1).drop_last() =~= it.seq().take(it.index() as int));
        }
        let ghost before = out@;
        if c == '\\' {
            push_char(out, '\\');
            push_char(out, '\\');
        } else if c == '"' {
            push_char(out, '\\');
            push_char(out, '"');
        } else if c == '\n' {
            push_char(out, ' ');
        } else {
            push_char(out, c);
        }
        proof {
            assert(out@ =~= before + esc_char(c));
            assert(it.seq().take(it.index() + 1).last() == c);
        }
    }
    proof {
        assert(s@ =~= s@.take(s@.len() as int));
    }
}

/// Escaped text can sit inside a double-quoted script string: it has no line feed, and
/// every double quote in it has a backslash right before it.
pub proof fn lemma_esc_safe(s: Seq<char>)
    ensures
        forall|i: int| 0 <= i < esc_spec(s).len() ==> #[trigger] esc_spec(s)[i] != '\n',
        forall|i: int| 0 <= i < esc_spec(s).len() && #[trigger] esc_spec(s)[i] == '"' ==> i > 0
            && esc_spec(s)[i - 1] == '\\',
    decreases s.len(),
{
    if s.len() > 0 {
        lemma_esc_safe(s.drop_last());
        let a = esc_spec(s.drop_last());
        let b = esc_char(s.last());
        assert(esc_spec(s) == a + b);
        assert forall|i: int| 0 <= i < (a + b).len() implies #[trigger] (a + b)[i] != '\n' by {
            if i < a.len() {
                assert((a + b)[i] == a[i]);
            } else {
                assert((a + b)[i] == b[i - a.len()]);
            }
        }
        assert forall|i: int| 0 <= i < (a + b).len() && #[trigger] (a + b)[i] == '"' implies i > 0
            && (a + b)[i - 1] == '\\' by {
            if i < a.len() {
                assert((a + b)[i] == a[i]);
                assert((a + b)[i - 1] == a[i - 1]);
            } else {
                assert((a + b)[i] == b[i - a.len()]);
                assert(i - a.len() == 1);
                assert((a + b)[i - 1] == b[0]);
            }
        }
    }
}

/// `s` escaped for a double-quoted script string (backslash and quote escaped, line
/// feeds turned into spaces).
pub fn esc(s: &str) -> (r: String)
    ensures
        r@ == esc_spec(s@),
{
    let mut out = String::new();
    push_esc(&mut out, s);
    proof {
        assert(out@ =~= esc_spec(s@));
    }
    out
}

/// `{"k1":"a","k2":"b"}` with both values escaped.
pub open spec fn pair_object(k1: Seq<char>, k2: Seq<char>, a: Seq<char>, b: Seq<char>) -> Seq<char> {
    seq!['{', '"'] + k1 + seq!['"', ':', '"'] + esc_spec(a) + seq!['"', ',', '"'] + k2 + seq![
        '"',
        ':',
        '"',
    ] + esc_spec(b) + seq!['"', '}']
}

/// The objects for all pairs, separated by commas.
pub open spec fn pair_objects(k1: Seq<char>, k2: Seq<char>, items: Seq<(Seq<char>, Seq<char>)>) -> Seq<char>
    decreases items.len(),
{
    if items.len() == 0 {
        Seq::empty()
    } else if items.len() == 1 {
        pair_object(k1, k2, items[0].0, items[0].1)
    } else {
        pair_objects(k1, k2, items.drop_last()) + seq![','] + pair_object(
            k1,
            k2,
            items.last().0,
            items.last().1,
        )
    }
}

/// The comma-separated JSON objects `{"k1":"..","k2":".."}` for a list of string pairs
/// (the body of the arrays handed to `pushApps`, `pushBookmarks` and the like).
pub fn pair_objects_json(k1: &str, k2: &str, items: &Vec<(String, String)>) -> (r: String)
    ensures
        r@ == pair_objects(k1@, k2@, pairs_view(items@)),
{
    let mut out = String::new();
    let ghost v = pairs_view(items@);
    let mut i: usize = 0;
    proof {
        assert(out@ =~= pair_objects(k1@, k2@, v.take(0)));
    }
    while i < items.len()
        invariant
            i <= items@.len(),
            v == pairs_view(items@),
            out@ == pair_objects(k1@, k2@, v.take(i as int)),
        decreases items.len() - i,
    {
        let ghost before = out@;
        if i > 0 {
            push_char(&mut out, ',');
        }
        push_char(&mut out, '{');
        push_char(&mut out, '"');
        push_str(&mut out, k1);
        push_char(&mut out, '"');
        push_char(&mut out, ':');
        push_char(&mut out, '"');
        push_esc(&mut out, items[i].0.as_str());
        push_char(&mut out, '"');
        push_char(&mut out, ',');
        push_char(&mut out, '"');
        push_str(&mut out, k2);
        push_char(&mut out, '"');
        push_char(&mut out, ':');
        push_char(&mut out, '"');
        push_esc(&mut out, items[i].1.as_str());
        push_char(&mut out, '"');
        push_char(&mut out, '}');
        proof {
            let t = v.take(i + 1);
            assert(t.drop_last() =~= v.take(i as int));
            assert(t.last() == (items@[i as int].0@, items@[i as int].1@));
            if i == 0 {
                assert(out@ =~= pair_object(k1@, k2@, items@[0].0@, items@[0].1@));
            } else {
                assert(out@ =~= before + seq![','] + pair_object(
                    k1@,
                    k2@,
                    items@[i as int].0@,
                    items@[i as int].1@,
                ));
            }
        }
        i = i + 1;
    }
    proof {
        assert(v.take(items@.len() as int) =~= v);
    }
    out
}

/// `window.NAME && window.NAME(ARGS);`: calls a page function only when the page
/// defines it, so a skin that leaves it out just ignores the data.
pub open spec fn call_script(name: Seq<char>, args: Seq<char>) -> Seq<char> {
    "window."@ + name + " && window."@ + name + "("@ + args + ");"@
}

/// Writes [`call_script`].
pub fn call_script_exec(name: &str, args: &str) -> (r: String)
    ensures
        r@ == call_script(name@, args@),
{
    let mut out = string_of("window.");
    push_str(&mut out, name);
    push_str(&mut out, " && window.");
    push_str(&mut out, name);
    push_str(&mut out, "(");
    push_str(&mut out, args);
    push_str(&mut out, ");");
    out
}

/// The call that hands a page a list: `window.NAME && window.NAME([ITEMS]);`.
pub fn list_script(name: &str, items: &str) -> (r: String)
    ensures
        r@ == call_script(name@, "["@ + items@ + "]"@),
{
    let mut args = string_of("[");
    push_str(&mut args, items);
    push_str(&mut args, "]");
    call_script_exec(name, args.as_str())
}

/// The call that hands the launcher the results of an asynchronous search:
/// `window.NAME && window.NAME(<query as a JSON string>, [ITEMS]);`.
pub fn results_script(name: &str, q: &str, items: &str) -> (r: String)
    ensures
        r@ == call_script(name@, json_quoted(q@) + ", ["@ + items@ + "]"@),
{
    let mut args = quote_json(q);
    push_str(&mut args, ", [");
    push_str(&mut args, items);
    push_str(&mut args, "]");
    call_script_exec(name, args.as_str())
}

/// The call that shows a message: `window.NAME && window.NAME("<msg escaped>");`, with
/// a second string argument `"<extra>"` when one is given.
pub open spec fn message_args(msg: Seq<char>, extra: Option<Seq<char>>) -> Seq<char> {
    match extra {
        Some(x) => "\""@ + esc_spec(msg) + "\",\""@ + x + "\""@,
        None => "\""@ + esc_spec(msg) + "\""@,
    }
}

/// Writes the call that shows a message (see [`message_args`]).
pub fn message_script(name: &str, msg: &str, extra: Option<&str>) -> (r: String)
    ensures
        r@ == call_script(name@, message_args(msg@, match extra {
            Some(x) => Some(x@),
            None => None,
        })),
{
    let mut args = string_of("\"");
    push_esc(&mut args, msg);
    match extra {
        Some(x) => {
            push_str(&mut args, "\",\"");
            push_str(&mut args, x);
            push_str(&mut args, "\"");
        },
        None => {
            push_str(&mut args, "\"");
        },
    }
    call_script_exec(name, args.as_str())
}

/// `{"k1":"a","k2":"b","k3":"c"}` with the values escaped.
pub open spec fn triple_object(keys: (Seq<char>, Seq<char>, Seq<char>), t: (Seq<char>, Seq<char>, Seq<char>)) -> Seq<char> {
    "{\""@ + keys.0 + "\":\""@ + esc_spec(t.0) + "\",\""@ + keys.1 + "\":\""@ + esc_spec(t.1)
        + "\",\""@ + keys.2 + "\":\""@ + esc_spec(t.2) + "\"}"@
}

/// The objects for all triples, separated by commas.
pub open spec fn triple_objects(keys: (Seq<char>, Seq<char>, Seq<char>), items: Seq<(Seq<char>, Seq<char>, Seq<char>)>) -> Seq<char>
    decreases items.len(),
{
    if items.len() == 0 {
        Seq::empty()
    } else if items.len() == 1 {
        triple_object(keys, items[0])
    } else {
        triple_objects(keys, items.drop_last()) + ","@ + triple_object(keys, items.last())
    }
}

/// The comma-separated JSON objects for a list of string triples (Spotify tracks,
/// plugin results).
pub fn triple_objects_json(k1: &str, k2: &str, k3: &str, items: &Vec<(String, String, String)>) -> (r: String)
    ensures
        r@ == triple_objects((k1@, k2@, k3@), triples_view(items@)),
{
    let ghost keys = (k1@, k2@, k3@);
    let ghost v = triples_view(items@);
    let mut out = String::new();
    let mut i: usize = 0;
    proof {
        assert(out@ =~= triple_objects(keys, v.take(0)));
    }
    while i < items.len()
        invariant
            i <= items@.len(),
            keys == (k1@, k2@, k3@),
            v == triples_view(items@),
            out@ == triple_objects(keys, v.take(i as int)),
        decreases items.len() - i,
    {
        let ghost before = out@;
        if i > 0 {
            push_char(&mut out, ',');
        }
        let ghost mid = out@;
        push_str(&mut out, "{\"");
        push_str(&mut out, k1);
        push_str(&mut out, "\":\"");
        push_esc(&mut out, items[i].0.as_str());
        push_str(&mut out, "\",\"");
        push_str(&mut out, k2);
        push_str(&mut out, "\":\"");
        push_esc(&mut out, items[i].1.as_str());
        push_str(&mut out, "\",\"");
        push_str(&mut out, k3);
        push_str(&mut out, "\":\"");
        push_esc(&mut out, items[i].2.as_str());
        push_str(&mut out, "\"}");
        proof {
            let t = v.take(i + 1);
            assert(t.drop_last() =~= v.take(i as int));
            assert(t.last() == v[i as int]);
            assert(out@ =~= mid + triple_object(keys, v[i as int]));
            if i > 0 {
                reveal_strlit(",");
                assert(mid =~= before + ","@);
            } else {
                assert(mid =~= before);
                assert(before =~= Seq::<char>::empty());
            }
        }
        i = i + 1;
    }
    proof {
        assert(v.take(items@.len() as int) =~= v);
    }
    out
}

/// `{"name":"..","pid":n,"mem":m}` for one process, the name escaped.
pub open spec fn proc_object(p: (Seq<char>, u32, u64)) -> Seq<char> {
    "{\"name\":\""@ + esc_spec(p.0) + "\",\"pid\":"@ + decimal(p.1 as nat) + ",\"mem\":"@
        + decimal(p.2 as nat) + "}"@
}

/// The objects for all processes, separated by commas.
pub open spec fn proc_objects(ps: Seq<(Seq<char>, u32, u64)>) -> Seq<char>
    decreases ps.len(),
{
    if ps.len() == 0 {
        Seq::empty()
    } else if ps.len() == 1 {
        proc_object(ps[0])
    } else {
        proc_objects(ps.drop_last()) + ","@ + proc_object(ps.last())
    }
}

/// The body of the array handed to `pushProcs` (see [`proc_objects`]).
pub fn procs_json(ps: &Vec<(String, u32, u64)>) -> (r: String)
    ensures
        r@ == proc_objects(ps@.map_values(|p: (String, u32, u64)| (p.0@, p.1, p.2))),
{
    let ghost v = ps@.map_values(|p: (String, u32, u64)| (p.0@, p.1, p.2));
    let mut out = String::new();
    let mut i: usize = 0;
    proof {
        assert(out@ =~= proc_objects(v.take(0)));
    }
    while i < ps.len()
        invariant
            i <= ps@.len(),
            v == ps@.map_values(|p: (String, u32, u64)| (p.0@, p.1, p.2)),
            out@ == proc_objects(v.take(i as int)),
        decreases ps.len() - i,
    {
        let ghost before = out@;
        if i > 0 {
            push_char(&mut out, ',');
        }
        let ghost mid = out@;
        push_str(&mut out, "{\"name\":\"");
        push_esc(&mut out, ps[i].0.as_str());
        push_str(&mut out, "\",\"pid\":");
        push_decimal(&mut out, ps[i].1 as u64);
        push_str(&mut out, ",\"mem\":");
        push_decimal(&mut out, ps[i].2);
        push_str(&mut out, "}");
        proof {
            let t = v.take(i + 1);
            assert(t.drop_last() =~= v.take(i as int));
            assert(t.last() == v[i as int]);
            assert(out@ =~= mid + proc_object(v[i as int]));
            if i > 0 {
                reveal_strlit(",");
                assert(mid =~= before + ","@);
            } else {
                assert(mid =~= before);
                assert(before =~= Seq::<char>::empty());
            }
        }
        i = i + 1;
    }
    proof {
        assert(v.take(ps@.len() as int) =~= v);
    }
    out
}

/// `"<key escaped>":"<value as is>"` for each entry, separated by commas, in braces: the
/// map of app paths to icon `data:` URLs handed to `pushAppIcons`.
pub open spec fn icon_entries(es: Seq<(Seq<char>, Seq<char>)>) -> Seq<char>
    decreases es.len(),
{
    if es.len() == 0 {
        Seq::empty()
    } else if es.len() == 1 {
        "\""@ + esc_spec(es[0].0) + "\":\""@ + es[0].1 + "\""@
    } else {
        icon_entries(es.drop_last()) + ","@ + "\""@ + esc_spec(es.last().0) + "\":\""@ + es.last().1
            + "\""@
    }
}

/// Writes the icon map (see [`icon_entries`]), braces included.
pub fn icons_json(es: &Vec<(String, String)>) -> (r: String)
    ensures
        r@ == "{"@ + icon_entries(pairs_view(es@)) + "}"@,
{
    let ghost v = pairs_view(es@);
    let mut body = String::new();
    let mut i: usize = 0;
    proof {
        assert(body@ =~= icon_entries(v.take(0)));
    }
    while i < es.len()
        invariant
            i <= es@.len(),
            v == pairs_view(es@),
            body@ == icon_entries(v.take(i as int)),
        decreases es.len() - i,
    {
        let ghost before = body@;
        if i > 0 {
            push_char(&mut body, ',');
        }
        let ghost mid = body@;
        push_str(&mut body, "\"");
        push_esc(&mut body, es[i].0.as_str());
        push_str(&mut body, "\":\"");
        push_str(&mut body, es[i].1.as_str());
        push_str(&mut body, "\"");
        proof {
            let t = v.take(i + 1);
            assert(t.drop_last() =~= v.take(i as int));
            assert(t.last() == v[i as int]);
            if i > 0 {
                reveal_strlit(",");
                assert(body@ =~= before + ","@ + "\""@ + esc_spec(v[i as int].0) + "\":\""@
                    + v[i as int].1 + "\""@);
            } else {
                assert(before =~= Seq::<char>::empty());
                assert(body@ =~= "\""@ + esc_spec(v[i as int].0) + "\":\""@ + v[i as int].1
                    + "\""@);
            }
        }
        i = i + 1;
    }
    proof {
        assert(v.take(es@.len() as int) =~= v);
    }
    let mut out = string_of("{");
    push_str(&mut out, body.as_str());
    push_str(&mut out, "}");
    out
}

} // verus!

//! JSON documents as the library reads them, parsed by `serde_json`.
use vstd::prelude::*;
use crate::text::{chars_eq, chars_of};

verus! {

/// A JSON value. Numbers keep what `as_i64` gives: the value when it is an integer
/// that fits in `i64`, `None` for any other number.
pub enum Json {
    Null,
    Bool(bool),
    Number(Option<i64>),
    Str(String),
    Array(Vec<Json>),
    Object(Vec<(String, Json)>),
}

#[verifier::external_type_specification]
#[verifier::external_body]
pub struct ExValue(serde_json::Value);

/// What `serde_json::from_slice::<serde_json::Value>` makes of a byte string: `None`
/// when it is not one JSON document; object members come in `serde_json::Map`'s order.
pub uninterp spec fn json_parse(text: Seq<u8>) -> Option<Json>;

/// Copies a `serde_json::Value` into a [`Json`], node for node.
#[verifier::external_body]
fn json_of(v: &serde_json::Value) -> Json {
    match v {
        serde_json::Value::Null => Json::Null,
        serde_json::Value::Bool(b) => Json::Bool(*b),
        serde_json::Value::Number(n) => Json::Number(n.as_i64()),
        serde_json::Value::String(s) => Json::Str(s.clone()),
        serde_json::Value::Array(a) => Json::Array(a.iter().map(json_of).collect()),
        serde_json::Value::Object(o) => Json::Object(o.iter().map(|(k, x)| (k.clone(), json_of(x))).collect()),
    }
}

/// `serde_json::from_slice` into a `serde_json::Value`: the document, or `None` when
/// the bytes are not valid JSON. The parse itself is named, not spelled out.
#[verifier::external_body]
pub(crate) fn parse_json(text: &[u8]) -> (r: Option<Json>)
    ensures
        r == json_parse(text@),
{
    serde_json::from_slice::<serde_json::Value>(text).ok().as_ref().map(json_of)
}

/// What `serde_json::from_str::<serde_json::Value>` makes of a string: `None` when it
/// is not one JSON document.
pub uninterp spec fn json_parse_str(text: Seq<char>) -> Option<Json>;

/// `serde_json::from_str` into a `serde_json::Value`: the document, or `None` when the
/// text is not valid JSON. The parse itself is named, not spelled out.
#[verifier::external_body]
pub(crate) fn parse_json_str(text: &str) -> (r: Option<Json>)
    ensures
        r == json_parse_str(text@),
{
    serde_json::from_str::<serde_json::Value>(text).ok().as_ref().map(json_of)
}

/// A lower-case hex digit (`n < 16`).
pub open spec fn hex_lower(n: int) -> char {
    if n < 10 {
        ('0' as int + n) as char
    } else {
        ('a' as int + (n - 10)) as char
    }
}

/// How `serde_json` writes one character inside a string literal: `"` and `\` behind a
/// backslash; backspace, tab, line feed, form feed and carriage return as `\b`, `\t`,
/// `\n`, `\f`, `\r`; any other character below U+0020 as `\u00` and two lower-case hex
/// digits; every other character as itself.
pub open spec fn json_escape(c: char) -> Seq<char> {
    if c == '"' {
        seq!['\\', '"']
    } else if c == '\\' {
        seq!['\\', '\\']
    } else if c == '\u{8}' {
        seq!['\\', 'b']
    } else if c == '\t' {
        seq!['\\', 't']
    } else if c == '\n' {
        seq!['\\', 'n']
    } else if c == '\u{c}' {
        seq!['\\', 'f']
    } else if c == '\r' {
        seq!['\\', 'r']
    } else if (c as int) < 0x20 {
        seq!['\\', 'u', '0', '0', hex_lower(c as int / 16), hex_lower(c as int % 16)]
    } else {
        seq![c]
    }
}

/// The characters of `s`, each written as [`json_escape`] writes it.
pub open spec fn json_escaped(s: Seq<char>) -> Seq<char>
    decreases s.len(),
{
    if s.len() == 0 {
        Seq::empty()
    } else {
        json_escape(s[0]) + json_escaped(s.drop_first())
    }
}

/// The JSON string literal of `s`: its escaped characters between double quotes.
pub open spec fn json_quoted(s: Seq<char>) -> Seq<char> {
    seq!['"'] + json_escaped(s) + seq!['"']
}

/// `serde_json::to_string(&str)`: the string as a JSON literal, as [`json_quoted`]
/// spells it out. Serialising a `str` cannot fail (the crate fails only for values
/// whose `Serialize` fails or maps with non-string keys), so the fallback to an empty
/// string is never taken.
#[verifier::external_body]
pub(crate) fn quote_json(s: &str) -> (r: String)
    ensures
        r@ == json_quoted(s@),
{
    serde_json::to_string(s).unwrap_or_default()
}

/// The first member named `key` of a member list.
pub open spec fn lookup(entries: Seq<(String, Json)>, key: Seq<char>) -> Option<Json>
    decreases entries.len(),
{
    if entries.len() == 0 {
        None
    } else if entries[0].0@ == key {
        Some(entries[0].1)
    } else {
        lookup(entries.drop_first(), key)
    }
}

/// `value[key]`: the member of an object, `Null` when absent or not an object.
pub open spec fn get(j: Json, key: Seq<char>) -> Json {
    match j {
        Json::Object(entries) => match lookup(entries@, key) {
            Some(v) => v,
            None => Json::Null,
        },
        _ => Json::Null,
    }
}

/// `value[i]`: the element of an array, `Null` when out of range or not an array.
pub open spec fn at(j: Json, i: int) -> Json {
    match j {
        Json::Array(items) => if 0 <= i < items@.len() {
            items@[i]
        } else {
            Json::Null
        },
        _ => Json::Null,
    }
}

/// `value.as_str()`.
pub open spec fn as_str(j: Json) -> Option<Seq<char>> {
    match j {
        Json::Str(s) => Some(s@),
        _ => None,
    }
}

/// `value.as_str().unwrap_or("")`.
pub open spec fn str_or_empty(j: Json) -> Seq<char> {
    match as_str(j) {
        Some(s) => s,
        None => Seq::empty(),
    }
}

/// `value.as_array()`.
pub open spec fn as_array(j: Json) -> Option<Seq<Json>> {
    match j {
        Json::Array(items) => Some(items@),
        _ => None,
    }
}

/// `value.as_bool()`.
pub open spec fn as_bool(j: Json) -> Option<bool> {
    match j {
        Json::Bool(b) => Some(b),
        _ => None,
    }
}

/// `value.as_i64()`.
pub open spec fn as_i64(j: Json) -> Option<i64> {
    match j {
        Json::Number(n) => n,
        _ => None,
    }
}

/// `value == "lit"`: the value is the string `lit`.
pub open spec fn is_str(j: Json, lit: Seq<char>) -> bool {
    as_str(j) == Some(lit)
}

/// Equality of two strings.
pub fn str_eq(a: &str, b: &str) -> (r: bool)
    ensures
        r == (a@ == b@),
{
    let x = chars_of(a);
    let y = chars_of(b);
    chars_eq(x.as_slice(), y.as_slice())
}

/// `value[key]` without copying: `None` stands for `Null`.
pub fn field<'a>(j: &'a Json, key: &str) -> (r: Option<&'a Json>)
    ensures
        match r {
            Some(v) => get(*j, key@) == *v,
            None => get(*j, key@) == Json::Null,
        },
{
    match j {
        Json::Object(entries) => {
            let mut i: usize = 0;
            proof {
                assert(entries@.skip(0) =~= entries@);
            }
            while i < entries.len()
                invariant
                    *j == Json::Object(*entries),
                    i <= entries@.len(),
                    lookup(entries@, key@) == lookup(entries@.skip(i as int), key@),
                decreases entries.len() - i,
            {
                proof {
                    assert(entries@.skip(i as int)[0] == entries@[i as int]);
                    assert(entries@.skip(i as int).drop_first() =~= entries@.skip(i + 1));
                }
                if str_eq(entries[i].0.as_str(), key) {
                    proof {
                        assert(lookup(entries@.skip(i as int), key@) == Some(entries@[i as int].1));
                        assert(*j == Json::Object(*entries));
                        assert(get(*j, key@) == entries@[i as int].1);
                    }
                    return Some(&entries[i].1);
                }
                i = i + 1;
            }
            proof {
                assert(entries@.skip(i as int).len() == 0);
            }
            None
        },
        _ => None,
    }
}

/// `value[i]` without copying: `None` stands for `Null`.
pub fn elem<'a>(j: &'a Json, i: usize) -> (r: Option<&'a Json>)
    ensures
        match r {
            Some(v) => at(*j, i as int) == *v,
            None => at(*j, i as int) == Json::Null,
        },
{
    match j {
        Json::Array(items) => if i < items.len() {
            Some(&items[i])
        } else {
            None
        },
        _ => None,
    }
}

/// `value.as_str()` on an optional member (`None` is `Null`).
pub fn opt_str(j: Option<&Json>) -> (r: Option<&String>)
    ensures
        match r {
            Some(s) => j matches Some(v) && as_str(*v) == Some(s@),
            None => j matches Some(v) ==> as_str(*v) is None,
        },
{
    match j {
        Some(Json::Str(s)) => Some(s),
        _ => None,
    }
}

/// `value.as_str().unwrap_or("")` on an optional member, copied out.
pub fn opt_str_or_empty(j: Option<&Json>) -> (r: String)
    ensures
        r@ == match j {
            Some(v) => str_or_empty(*v),
            None => Seq::<char>::empty(),
        },
{
    match j {
        Some(Json::Str(s)) => s.clone(),
        _ => String::new(),
    }
}

/// `value.as_array()` on an optional member.
pub fn opt_array(j: Option<&Json>) -> (r: Option<&Vec<Json>>)
    ensures
        match r {
            Some(v) => j matches Some(x) && as_array(*x) == Some(v@),
            None => j matches Some(x) ==> as_array(*x) is None,
        },
{
    match j {
        Some(Json::Array(v)) => Some(v),
        _ => None,
    }
}

/// The `Some` results of `f` over `s`, in order (`Iterator::filter_map`).
pub open spec fn filter_map<A, B>(s: Seq<A>, f: spec_fn(A) -> Option<B>) -> Seq<B>
    decreases s.len(),
{
    if s.len() == 0 {
        Seq::empty()
    } else {
        let rest = filter_map(s.drop_first(), f);
        match f(s[0]) {
            Some(b) => seq![b] + rest,
            None => rest,
        }
    }
}

pub proof fn lemma_filter_map_push<A, B>(s: Seq<A>, x: A, f: spec_fn(A) -> Option<B>)
    ensures
        filter_map(s.push(x), f) == match f(x) {
            Some(b) => filter_map(s, f).push(b),
            None => filter_map(s, f),
        },
    decreases s.len(),
{
    if s.len() == 0 {
        assert(s.push(x).drop_first() =~= s);
        assert(filter_map(s, f) =~= Seq::<B>::empty());
        assert(filter_map(Seq::<A>::empty(), f) =~= Seq::<B>::empty());
        match f(x) {
            Some(b) => {
                assert(seq![b] + Seq::<B>::empty() =~= Seq::<B>::empty().push(b));
            },
            None => {},
        }
    } else {
        lemma_filter_map_push(s.drop_first(), x, f);
        assert(s.push(x).drop_first() =~= s.drop_first().push(x));
        match f(s[0]) {
            Some(b0) => {
                match f(x) {
                    Some(b) => {
                        assert(seq![b0] + filter_map(s.drop_first(), f).push(b) =~= (seq![b0] + filter_map(s.drop_first(), f)).push(b));
                    },
                    None => {},
                }
            },
            None => {},
        }
    }
}

/// Everything `filter_map` gives comes from some element of `s`.
pub proof fn lemma_filter_map_member<A, B>(s: Seq<A>, f: spec_fn(A) -> Option<B>, k: int)
    requires
        0 <= k < filter_map(s, f).len(),
    ensures
        exists|i: int| 0 <= i < s.len() && f(s[i]) == Some(filter_map(s, f)[k]),
    decreases s.len(),
{
    let rest = filter_map(s.drop_first(), f);
    match f(s[0]) {
        Some(b) => {
            if k == 0 {
                assert(f(s[0]) == Some(filter_map(s, f)[0]));
            } else {
                assert(filter_map(s, f)[k] == rest[k - 1]);
                lemma_filter_map_member(s.drop_first(), f, k - 1);
                let i = choose|i: int| 0 <= i < s.drop_first().len() && f(s.drop_first()[i]) == Some(rest[k - 1]);
                assert(s[i + 1] == s.drop_first()[i]);
            }
        },
        None => {
            lemma_filter_map_member(s.drop_first(), f, k);
            let i = choose|i: int| 0 <= i < s.drop_first().len() && f(s.drop_first()[i]) == Some(rest[k]);
            assert(s[i + 1] == s.drop_first()[i]);
        },
    }
}

/// Pairs of strings taken as pairs of character sequences.
pub open spec fn pairs_view(s: Seq<(String, String)>) -> Seq<(Seq<char>, Seq<char>)> {
    s.map_values(|p: (String, String)| (p.0@, p.1@))
}

/// Triples of strings taken as triples of character sequences.
pub open spec fn triples_view(s: Seq<(String, String, String)>) -> Seq<(Seq<char>, Seq<char>, Seq<char>)> {
    s.map_values(|p: (String, String, String)| (p.0@, p.1@, p.2@))
}

} // verus!

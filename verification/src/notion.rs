//! Notion workspace search through an integration token.
//!
//! The HTTP exchange with `api.notion.com` is the caller's; this module writes the
//! request body and reads the reply.
use vstd::prelude::*;
use crate::json::{
    as_array, as_str, field, filter_map, get, is_str, json_parse, json_quoted,
    lemma_filter_map_push, opt_array, opt_str, pairs_view, parse_json, quote_json, str_eq,
    str_or_empty, Json,
};
use crate::net::bearer;
use crate::text::{push_str, string_of};

verus! {

/// The search endpoint of the Notion API.
pub const SEARCH_URL: &'static str = "https://api.notion.com/v1/search";

/// The headers of a search request made with the integration `token`, in order:
/// `Authorization: Bearer <token>`, the API version and the JSON content type.
pub fn search_headers(token: &str) -> (r: Vec<(String, String)>)
    ensures
        pairs_view(r@) == seq![
            ("Authorization"@, "Bearer "@ + token@),
            ("Notion-Version"@, "2022-06-28"@),
            ("Content-Type"@, "application/json"@),
        ],
{
    let r = vec![
        (string_of("Authorization"), bearer(token)),
        (string_of("Notion-Version"), string_of("2022-06-28")),
        (string_of("Content-Type"), string_of("application/json")),
    ];
    proof {
        assert(pairs_view(r@) =~= seq![
            ("Authorization"@, "Bearer "@ + token@),
            ("Notion-Version"@, "2022-06-28"@),
            ("Content-Type"@, "application/json"@),
        ]);
    }
    r
}

/// The pieces of a list of strings, one after the other.
pub open spec fn concat(parts: Seq<Seq<char>>) -> Seq<char>
    decreases parts.len(),
{
    if parts.len() == 0 {
        Seq::empty()
    } else {
        concat(parts.drop_last()) + parts.last()
    }
}

/// The `plain_text` of one rich-text element, when it is a string.
pub open spec fn plain_text_of(t: Json) -> Option<Seq<char>> {
    as_str(get(t, "plain_text"@))
}

/// The `plain_text` pieces of a rich-text array, joined.
pub open spec fn plain_texts(arr: Seq<Json>) -> Seq<char> {
    concat(filter_map(arr, |t: Json| plain_text_of(t)))
}

/// The `title` array of the first property whose `type` is `"title"` and whose
/// `title` is an array.
pub open spec fn title_property(props: Seq<(String, Json)>) -> Option<Seq<Json>>
    decreases props.len(),
{
    if props.len() == 0 {
        None
    } else if is_str(get(props[0].1, "type"@), "title"@) && as_array(get(props[0].1, "title"@)) is Some {
        as_array(get(props[0].1, "title"@))
    } else {
        title_property(props.drop_first())
    }
}

/// The title of a page or database: its title property's text, else the text of a
/// top-level `title` array (databases), else empty.
pub open spec fn title_spec(page: Json) -> Seq<char> {
    let fallback = match as_array(get(page, "title"@)) {
        Some(arr) => plain_texts(arr),
        None => Seq::empty(),
    };
    match get(page, "properties"@) {
        Json::Object(props) => match title_property(props@) {
            Some(arr) => plain_texts(arr),
            None => fallback,
        },
        _ => fallback,
    }
}

/// The joined `plain_text` of a rich-text array.
fn plain_texts_exec(arr: &Vec<Json>) -> (r: String)
    ensures
        r@ == plain_texts(arr@),
{
    let ghost f = |t: Json| plain_text_of(t);
    let mut out = String::new();
    let mut i: usize = 0;
    proof {
        assert(arr@.take(0) =~= Seq::<Json>::empty());
    }
    while i < arr.len()
        invariant
            i <= arr@.len(),
            f == (|t: Json| plain_text_of(t)),
            out@ == concat(filter_map(arr@.take(i as int), f)),
        decreases arr.len() - i,
    {
        proof {
            assert(arr@.take(i + 1) =~= arr@.take(i as int).push(arr@[i as int]));
            lemma_filter_map_push(arr@.take(i as int), arr@[i as int], f);
        }
        match opt_str(field(&arr[i], "plain_text")) {
            Some(s) => {
                let ghost before = filter_map(arr@.take(i as int), f);
                push_str(&mut out, s.as_str());
                proof {
                    assert(f(arr@[i as int]) == Some(s@));
                    assert(before.push(s@).drop_last() =~= before);
                }
            },
            None => {
                proof {
                    assert(f(arr@[i as int]) is None);
                }
            },
        }
        i = i + 1;
    }
    proof {
        assert(arr@.take(arr@.len() as int) =~= arr@);
    }
    out
}

/// The title of a search result: see [`title_spec`].
pub fn title_of(page: &Json) -> (r: String)
    ensures
        r@ == title_spec(*page),
{
    if let Some(Json::Object(props)) = field(page, "properties") {
        let mut i: usize = 0;
        proof {
            assert(props@.skip(0) =~= props@);
        }
        while i < props.len()
            invariant
                i <= props@.len(),
                get(*page, "properties"@) == Json::Object(*props),
                title_property(props@) == title_property(props@.skip(i as int)),
            decreases props.len() - i,
        {
            let prop = &props[i].1;
            proof {
                assert(props@.skip(i as int)[0] == props@[i as int]);
                assert(props@.skip(i as int).drop_first() =~= props@.skip(i + 1));
            }
            let is_title = match opt_str(field(prop, "type")) {
                Some(t) => str_eq(t.as_str(), "title"),
                None => false,
            };
            if is_title {
                if let Some(arr) = opt_array(field(prop, "title")) {
                    proof {
                        assert(is_str(get(props@[i as int].1, "type"@), "title"@));
                        assert(title_property(props@.skip(i as int)) == Some(arr@));
                    }
                    return plain_texts_exec(arr);
                }
            }
            i = i + 1;
        }
        proof {
            assert(props@.skip(i as int).len() == 0);
        }
    }
    match opt_array(field(page, "title")) {
        Some(arr) => plain_texts_exec(arr),
        None => String::new(),
    }
}

/// One search result as (title, url): left out when it has no url; a result with no
/// title shows as `(untitled)`.
pub open spec fn result_entry(r: Json) -> Option<(Seq<char>, Seq<char>)> {
    let url = str_or_empty(get(r, "url"@));
    if url.len() == 0 {
        None
    } else if title_spec(r).len() == 0 {
        Some(("(untitled)"@, url))
    } else {
        Some((title_spec(r), url))
    }
}

/// The results listed in a search reply.
pub open spec fn search_list(v: Json) -> Seq<(Seq<char>, Seq<char>)> {
    match as_array(get(v, "results"@)) {
        Some(items) => filter_map(items, |r: Json| result_entry(r)),
        None => Seq::empty(),
    }
}

/// (title, url) of each result of a parsed search reply.
pub fn results_from_json(v: &Json) -> (r: Vec<(String, String)>)
    ensures
        pairs_view(r@) == search_list(*v),
{
    let mut out: Vec<(String, String)> = Vec::new();
    let items = match opt_array(field(v, "results")) {
        Some(items) => items,
        None => {
            proof {
                assert(pairs_view(out@) =~= Seq::<(Seq<char>, Seq<char>)>::empty());
            }
            return out;
        },
    };
    let ghost f = |r: Json| result_entry(r);
    let mut i: usize = 0;
    proof {
        assert(items@.take(0) =~= Seq::<Json>::empty());
        assert(pairs_view(out@) =~= Seq::<(Seq<char>, Seq<char>)>::empty());
    }
    while i < items.len()
        invariant
            as_array(get(*v, "results"@)) == Some(items@),
            i <= items@.len(),
            pairs_view(out@) == filter_map(items@.take(i as int), f),
            f == (|r: Json| result_entry(r)),
        decreases items.len() - i,
    {
        let item = &items[i];
        proof {
            assert(items@.take(i + 1) =~= items@.take(i as int).push(items@[i as int]));
            lemma_filter_map_push(items@.take(i as int), items@[i as int], f);
        }
        let url = match opt_str(field(item, "url")) {
            Some(u) => u.clone(),
            None => String::new(),
        };
        if url.as_str().is_empty() {
            proof {
                assert(f(items@[i as int]) is None);
            }
        } else {
            let title = title_of(item);
            let shown = if title.as_str().is_empty() {
                string_of("(untitled)")
            } else {
                title
            };
            let ghost before = out@;
            let ghost entry = (shown@, url@);
            out.push((shown, url));
            proof {
                assert(f(items@[i as int]) == Some(entry));
                assert(pairs_view(out@) =~= pairs_view(before).push(entry));
            }
        }
        i = i + 1;
    }
    proof {
        assert(items@.take(items@.len() as int) =~= items@);
    }
    out
}

/// The search results carried by the body of the reply to `POST /v1/search`, as
/// (title, url); empty when there was no reply or it is not JSON.
pub fn search(reply: Option<&[u8]>) -> (r: Vec<(String, String)>)
    ensures
        pairs_view(r@) == match reply {
            Some(body) => match json_parse(body@) {
                Some(v) => search_list(v),
                None => Seq::empty(),
            },
            None => Seq::empty(),
        },
{
    let parsed = match reply {
        Some(body) => parse_json(body),
        None => None,
    };
    match parsed {
        Some(v) => results_from_json(&v),
        None => {
            let out: Vec<(String, String)> = Vec::new();
            proof {
                assert(pairs_view(out@) =~= Seq::<(Seq<char>, Seq<char>)>::empty());
            }
            out
        },
    }
}

/// The body of a search request: `{"query":<query as a JSON string>,"page_size":8}`.
pub fn search_request(query: &str) -> (r: String)
    ensures
        r@ == "{\"query\":"@ + json_quoted(query@) + ",\"page_size\":8}"@,
{
    let mut out = string_of("{\"query\":");
    let q = quote_json(query);
    push_str(&mut out, q.as_str());
    push_str(&mut out, ",\"page_size\":8}");
    out
}

} // verus!

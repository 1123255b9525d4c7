//! Spotify track search with an app (client-credentials) token.
//!
//! The HTTP exchanges with Spotify and the clock are the caller's; this module keeps
//! the rules: when a cached token may be reused, the credentials header, the search
//! URL, and what the replies carry.
use vstd::prelude::*;
use crate::bytes::{base64_encode, base64_fits, base64_fits_exec, base64_standard, push_utf8, utf8};
use crate::json::{
    as_array, as_str, at, elem, field, filter_map, get, json_parse, lemma_filter_map_push,
    opt_array, opt_str, opt_str_or_empty, pairs_view, parse_json, str_or_empty, triples_view, Json,
};
use crate::net::{encode_bytes, urlencode};
use crate::text::{push_char, push_str, string_of};
use vstd::string::StringSliceAdditionalSpecFns;

verus! {

/// Where app tokens are requested.
pub const TOKEN_URL: &'static str = "https://accounts.spotify.com/api/token";

/// The form of a token request: the client-credentials grant.
pub fn token_form() -> (r: Vec<(String, String)>)
    ensures
        pairs_view(r@) == seq![("grant_type"@, "client_credentials"@)],
{
    let r = vec![(string_of("grant_type"), string_of("client_credentials"))];
    proof {
        assert(pairs_view(r@) =~= seq![("grant_type"@, "client_credentials"@)]);
    }
    r
}

/// How long an app token is reused, in seconds (Spotify's tokens last an hour).
pub const TOKEN_REUSE_SECS: u64 = 3300;

/// Whether a token fetched `age_secs` seconds ago may still be used.
pub fn token_fresh(age_secs: u64) -> (r: bool)
    ensures
        r == (age_secs < TOKEN_REUSE_SECS),
{
    age_secs < TOKEN_REUSE_SECS
}

/// The cached token to use, given the cache as (token, seconds since it was fetched):
/// the token while it is fresh, else `None` (fetch a new one).
pub fn cached_token(cache: Option<(String, u64)>) -> (r: Option<String>)
    ensures
        match cache {
            Some((t, age)) => if age < TOKEN_REUSE_SECS {
                r matches Some(x) && x@ == t@
            } else {
                r is None
            },
            None => r is None,
        },
{
    match cache {
        Some((t, age)) => if token_fresh(age) {
            Some(t)
        } else {
            None
        },
        None => None,
    }
}

/// The credentials for the token request: base64 of the UTF-8 of `id:secret` (the
/// value after `Basic `); `None` only when that text could not fit in memory.
pub fn basic_auth(id: &str, secret: &str) -> (r: Option<String>)
    ensures
        match r {
            Some(a) => base64_fits(utf8(id@ + ":"@ + secret@).len()) && a@ == base64_standard(
                utf8(id@ + ":"@ + secret@),
            ),
            None => !base64_fits(utf8(id@ + ":"@ + secret@).len()),
        },
{
    let mut creds = string_of(id);
    push_char(&mut creds, ':');
    push_str(&mut creds, secret);
    proof {
        assert(creds@ =~= id@ + ":"@ + secret@) by {
            reveal_strlit(":");
        }
    }
    let mut bytes: Vec<u8> = Vec::new();
    push_utf8(&mut bytes, creds.as_str());
    proof {
        assert(bytes@ =~= utf8(creds@));
    }
    if !base64_fits_exec(bytes.len()) {
        return None;
    }
    Some(base64_encode(bytes.as_slice()))
}

/// The `Authorization` header of the token request: `Basic ` and the credentials of
/// [`basic_auth`]; `None` exactly when those are `None`.
pub fn basic_header(id: &str, secret: &str) -> (r: Option<String>)
    ensures
        match r {
            Some(h) => base64_fits(utf8(id@ + ":"@ + secret@).len()) && h@ == "Basic "@
                + base64_standard(utf8(id@ + ":"@ + secret@)),
            None => !base64_fits(utf8(id@ + ":"@ + secret@).len()),
        },
{
    match basic_auth(id, secret) {
        Some(a) => {
            let mut h = string_of("Basic ");
            push_str(&mut h, a.as_str());
            Some(h)
        },
        None => None,
    }
}

/// The `access_token` of a token reply, when the reply is JSON with a string there.
pub fn token_from_reply(reply: Option<&[u8]>) -> (r: Option<String>)
    ensures
        match r {
            Some(t) => reply matches Some(b) && json_parse(b@) matches Some(v) && as_str(
                get(v, "access_token"@),
            ) == Some(t@),
            None => reply matches Some(b) ==> (json_parse(b@) matches Some(v) ==> as_str(
                get(v, "access_token"@),
            ) is None),
        },
{
    let v = match reply {
        Some(b) => parse_json(b),
        None => None,
    };
    match v {
        Some(v) => match opt_str(field(&v, "access_token")) {
            Some(t) => Some(t.clone()),
            None => None,
        },
        None => None,
    }
}

/// The track search URL for `query` (six results).
pub fn search_url(query: &str) -> (r: String)
    ensures
        r@ == "https://api.spotify.com/v1/search?type=track&limit=6&q="@ + encode_bytes(
            query.spec_bytes(),
        ),
{
    let mut url = string_of("https://api.spotify.com/v1/search?type=track&limit=6&q=");
    let q = urlencode(query);
    push_str(&mut url, q.as_str());
    url
}

/// One track as (name, first artist, Spotify URL), left out when it has no name.
pub open spec fn track_entry(t: Json) -> Option<(Seq<char>, Seq<char>, Seq<char>)> {
    let name = str_or_empty(get(t, "name"@));
    if name.len() == 0 {
        None
    } else {
        Some(
            (
                name,
                str_or_empty(get(at(get(t, "artists"@), 0), "name"@)),
                str_or_empty(get(get(t, "external_urls"@), "spotify"@)),
            ),
        )
    }
}

/// The tracks of a search reply.
pub open spec fn track_list(v: Json) -> Seq<(Seq<char>, Seq<char>, Seq<char>)> {
    match as_array(get(get(v, "tracks"@), "items"@)) {
        Some(items) => filter_map(items, |t: Json| track_entry(t)),
        None => Seq::empty(),
    }
}

/// `value[key]` followed by `[key2]`, `None` standing for `Null`.
fn field2<'a>(j: &'a Json, key: &str, key2: &str) -> (r: Option<&'a Json>)
    ensures
        match r {
            Some(v) => get(get(*j, key@), key2@) == *v,
            None => get(get(*j, key@), key2@) == Json::Null,
        },
{
    match field(j, key) {
        Some(x) => field(x, key2),
        None => None,
    }
}

/// The tracks of a parsed search reply (see [`track_list`]).
pub fn tracks_from_json(v: &Json) -> (r: Vec<(String, String, String)>)
    ensures
        triples_view(r@) == track_list(*v),
{
    let mut out: Vec<(String, String, String)> = Vec::new();
    let items = match opt_array(field2(v, "tracks", "items")) {
        Some(items) => items,
        None => {
            proof {
                assert(triples_view(out@) =~= Seq::<(Seq<char>, Seq<char>, Seq<char>)>::empty());
            }
            return out;
        },
    };
    let ghost f = |t: Json| track_entry(t);
    let mut i: usize = 0;
    proof {
        assert(items@.take(0) =~= Seq::<Json>::empty());
        assert(triples_view(out@) =~= Seq::<(Seq<char>, Seq<char>, Seq<char>)>::empty());
    }
    while i < items.len()
        invariant
            i <= items@.len(),
            f == (|t: Json| track_entry(t)),
            triples_view(out@) == filter_map(items@.take(i as int), f),
        decreases items.len() - i,
    {
        let t = &items[i];
        proof {
            assert(items@.take(i + 1) =~= items@.take(i as int).push(items@[i as int]));
            lemma_filter_map_push(items@.take(i as int), items@[i as int], f);
        }
        let name = opt_str_or_empty(field(t, "name"));
        if name.as_str().is_empty() {
            proof {
                assert(f(items@[i as int]) is None);
            }
        } else {
            let first_artist = match field(t, "artists") {
                Some(a) => elem(a, 0),
                None => None,
            };
            let artist = opt_str_or_empty(match first_artist {
                Some(a) => field(a, "name"),
                None => None,
            });
            let url = opt_str_or_empty(field2(t, "external_urls", "spotify"));
            let ghost before = out@;
            let ghost e = (name@, artist@, url@);
            out.push((name, artist, url));
            proof {
                assert(f(items@[i as int]) == Some(e));
                assert(triples_view(out@) =~= triples_view(before).push(e));
            }
        }
        i = i + 1;
    }
    proof {
        assert(items@.take(items@.len() as int) =~= items@);
    }
    out
}

/// The tracks carried by the body of a search reply, as (name, artist, url); empty when
/// there was no reply or it is not JSON.
pub fn search(reply: Option<&[u8]>) -> (r: Vec<(String, String, String)>)
    ensures
        triples_view(r@) == match reply {
            Some(body) => match json_parse(body@) {
                Some(v) => track_list(v),
                None => Seq::empty(),
            },
            None => Seq::empty(),
        },
{
    let parsed = match reply {
        Some(body) => parse_json(body),
        None => None,
    };
    match parsed {
        Some(v) => tracks_from_json(&v),
        None => {
            let out: Vec<(String, String, String)> = Vec::new();
            proof {
                assert(triples_view(out@) =~= Seq::<(Seq<char>, Seq<char>, Seq<char>)>::empty());
            }
            out
        },
    }
}

} // verus!

//! `config.json` and `tokens.json`: the engine's settings and API credentials. Reading and
//! writing the files is the caller's; these functions read and write their text.
use vstd::prelude::*;
use crate::json::{
    as_bool, as_str, field, get, json_parse_str, opt_str, opt_str_or_empty, pairs_view,
    parse_json_str, str_eq, str_or_empty, Json,
};
use crate::text::{chars_of, push_char, push_str, string_of};

verus! {

/// Whether file search is on: `config.json`'s `file_search` when it is a boolean; on
/// when the file is missing, is not JSON, or says nothing usable.
pub open spec fn file_search_spec(config: Option<Seq<char>>) -> bool {
    match config {
        Some(t) => match json_parse_str(t) {
            Some(v) => match as_bool(get(v, "file_search"@)) {
                Some(b) => b,
                None => true,
            },
            None => true,
        },
        None => true,
    }
}

/// Reads the file-search switch (see [`file_search_spec`]); `config` is the file's text.
pub fn file_search_enabled(config: Option<&str>) -> (r: bool)
    ensures
        r == file_search_spec(match config {
            Some(t) => Some(t@),
            None => None,
        }),
{
    let v = match config {
        Some(t) => parse_json_str(t),
        None => None,
    };
    match v {
        Some(v) => match field(&v, "file_search") {
            Some(Json::Bool(b)) => *b,
            _ => true,
        },
        None => true,
    }
}

/// The skin folder `config.json` names in `ui`, when it names one.
pub fn ui_folder(config: Option<&str>) -> (r: Option<String>)
    ensures
        match r {
            Some(d) => config matches Some(t) && json_parse_str(t@) matches Some(v) && as_str(
                get(v, "ui"@),
            ) == Some(d@),
            None => config matches Some(t) ==> (json_parse_str(t@) matches Some(v) ==> as_str(
                get(v, "ui"@),
            ) is None),
        },
{
    let v = match config {
        Some(t) => parse_json_str(t),
        None => None,
    };
    match v {
        Some(v) => match opt_str(field(&v, "ui")) {
            Some(d) => Some(d.clone()),
            None => None,
        },
        None => None,
    }
}

/// `s` without the slashes it starts with.
pub open spec fn strip_leading_slashes(s: Seq<char>) -> Seq<char>
    decreases s.len(),
{
    if s.len() > 0 && s[0] == '/' {
        strip_leading_slashes(s.drop_first())
    } else {
        s
    }
}

/// The file of the skin folder that a `bat://` request for `path` serves: the path
/// without its leading slashes, or `default` when nothing is left of it.
pub fn skin_file(path: &str, default: &str) -> (r: String)
    ensures
        r@ == if strip_leading_slashes(path@).len() == 0 {
            default@
        } else {
            strip_leading_slashes(path@)
        },
{
    let cs = chars_of(path);
    let mut i: usize = 0;
    proof {
        assert(cs@.skip(0) =~= cs@);
    }
    while i < cs.len() && cs[i] == '/'
        invariant
            i <= cs@.len(),
            cs@ == path@,
            strip_leading_slashes(cs@.skip(i as int)) == strip_leading_slashes(path@),
        decreases cs.len() - i,
    {
        proof {
            assert(cs@.skip(i as int).drop_first() =~= cs@.skip(i + 1));
        }
        i = i + 1;
    }
    if i == cs.len() {
        return string_of(default);
    }
    let mut out = String::new();
    let mut j: usize = i;
    while j < cs.len()
        invariant
            i <= j <= cs@.len(),
            out@ == cs@.subrange(i as int, j as int),
        decreases cs.len() - j,
    {
        push_char(&mut out, cs[j]);
        proof {
            assert(out@ =~= cs@.subrange(i as int, j + 1));
        }
        j = j + 1;
    }
    proof {
        assert(cs@.subrange(i as int, cs@.len() as int) =~= cs@.skip(i as int));
    }
    out
}

/// The MIME type a skin file is served with, by its extension.
pub open spec fn mime_spec(ext: Option<Seq<char>>) -> Seq<char> {
    match ext {
        Some(e) => if e == "html"@ {
            "text/html; charset=utf-8"@
        } else if e == "css"@ {
            "text/css; charset=utf-8"@
        } else if e == "js"@ {
            "text/javascript; charset=utf-8"@
        } else if e == "png"@ {
            "image/png"@
        } else if e == "jpg"@ || e == "jpeg"@ {
            "image/jpeg"@
        } else if e == "json"@ {
            "application/json"@
        } else {
            "application/octet-stream"@
        },
        None => "application/octet-stream"@,
    }
}

/// The MIME type of a skin file whose extension is `ext` (`None`: it has none).
pub fn mime_type(ext: Option<&str>) -> (r: String)
    ensures
        r@ == mime_spec(match ext {
            Some(e) => Some(e@),
            None => None,
        }),
{
    match ext {
        Some(e) => if str_eq(e, "html") {
            string_of("text/html; charset=utf-8")
        } else if str_eq(e, "css") {
            string_of("text/css; charset=utf-8")
        } else if str_eq(e, "js") {
            string_of("text/javascript; charset=utf-8")
        } else if str_eq(e, "png") {
            string_of("image/png")
        } else if str_eq(e, "jpg") || str_eq(e, "jpeg") {
            string_of("image/jpeg")
        } else if str_eq(e, "json") {
            string_of("application/json")
        } else {
            string_of("application/octet-stream")
        },
        None => string_of("application/octet-stream"),
    }
}

/// The headers of a skin file reply: its MIME type, readable from any origin, and never
/// cached (a changed skin shows on the next load).
pub fn skin_headers(ext: Option<&str>) -> (r: Vec<(String, String)>)
    ensures
        pairs_view(r@) == seq![
            ("Content-Type"@, mime_spec(match ext {
                Some(e) => Some(e@),
                None => None,
            })),
            ("Access-Control-Allow-Origin"@, "*"@),
            ("Cache-Control"@, "no-store, must-revalidate"@),
        ],
{
    let mime = mime_type(ext);
    let ghost m = mime@;
    let r = vec![
        (string_of("Content-Type"), mime),
        (string_of("Access-Control-Allow-Origin"), string_of("*")),
        (string_of("Cache-Control"), string_of("no-store, must-revalidate")),
    ];
    proof {
        assert(pairs_view(r@) =~= seq![
            ("Content-Type"@, m),
            ("Access-Control-Allow-Origin"@, "*"@),
            ("Cache-Control"@, "no-store, must-revalidate"@),
        ]);
    }
    r
}

/// The command line that restarts the host through its scheduled task two seconds
/// later, once this process has exited, so that a switched setting takes effect.
pub fn restart_command() -> (r: Vec<String>)
    ensures
        r@.map_values(|a: String| a@) == seq![
            "cmd"@,
            "/C"@,
            "timeout /t 2 >nul & schtasks /run /tn BatcaveHost"@,
        ],
{
    let r = vec![
        string_of("cmd"),
        string_of("/C"),
        string_of("timeout /t 2 >nul & schtasks /run /tn BatcaveHost"),
    ];
    proof {
        assert(r@.map_values(|a: String| a@) =~= seq![
            "cmd"@,
            "/C"@,
            "timeout /t 2 >nul & schtasks /run /tn BatcaveHost"@,
        ]);
    }
    r
}

/// The `config.json` written when file search is switched: `{"file_search":<not current>}`.
pub fn toggled_config(current: bool) -> (r: String)
    ensures
        r@ == "{\"file_search\":"@ + (if current {
            "false"@
        } else {
            "true"@
        }) + "}"@,
{
    let mut out = string_of("{\"file_search\":");
    if current {
        push_str(&mut out, "false");
    } else {
        push_str(&mut out, "true");
    }
    push_str(&mut out, "}");
    out
}

/// A credential from `tokens.json`: the string under `key`, empty when the file is
/// missing, is not JSON, or has no string there.
pub fn token_field(tokens: Option<&str>, key: &str) -> (r: String)
    ensures
        r@ == match tokens {
            Some(t) => match json_parse_str(t@) {
                Some(v) => str_or_empty(get(v, key@)),
                None => Seq::<char>::empty(),
            },
            None => Seq::<char>::empty(),
        },
{
    let v = match tokens {
        Some(t) => parse_json_str(t),
        None => None,
    };
    match v {
        Some(v) => opt_str_or_empty(field(&v, key)),
        None => String::new(),
    }
}

} // verus!

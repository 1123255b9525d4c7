use batcave::browser::{chromium_profiles, collect_bm, enum_bookmarks, enum_history, HISTORY_QUERY};
use batcave::json::Json;

fn p(a: &str, b: &str) -> (String, String) {
    (a.to_string(), b.to_string())
}

fn obj(members: Vec<(&str, Json)>) -> Json {
    Json::Object(members.into_iter().map(|(k, v)| (k.to_string(), v)).collect())
}

fn st(x: &str) -> Json {
    Json::Str(x.to_string())
}

fn url(name: &str, u: &str) -> Json {
    obj(vec![("type", st("url")), ("name", st(name)), ("url", st(u))])
}

#[test]
fn browser_bookmark_tree_walk() {
    let mut rust = url("Rust", "https://rust-lang.org");
    if let Json::Object(m) = &mut rust {
        m.push(("children".to_string(), Json::Array(vec![url("hidden", "x")])));
    }
    let v = obj(vec![
        ("bookmark_bar", obj(vec![
            ("type", st("folder")),
            ("children", Json::Array(vec![
                rust,
                url("", "https://empty"),
                obj(vec![("type", st("folder")), ("children", Json::Array(vec![url("Deep", "https://deep")]))]),
            ])),
        ])),
        ("name", obj(vec![("children", Json::Array(vec![url("No", "n")]))])),
        ("other", obj(vec![("children", Json::Array(vec![url("Other", "https://o")]))])),
    ]);
    let mut out = Vec::new();
    collect_bm(&v, &mut out);
    assert_eq!(out, vec![p("Rust", "https://rust-lang.org"), p("Deep", "https://deep"), p("Other", "https://o")]);
}

#[test]
fn browser_bookmarks_sorted_and_deduped_by_url() {
    let a = br#"{"roots":{"bar":{"children":[{"type":"url","name":"b","url":"https://b"},{"type":"url","name":"A","url":"https://a"}]}}}"#.to_vec();
    let b = br#"{"roots":{"bar":{"children":[{"type":"url","name":"a","url":"https://a"}]}}}"#.to_vec();
    let c = b"broken".to_vec();
    assert_eq!(enum_bookmarks(&vec![a, b, c]), vec![p("A", "https://a"), p("b", "https://b")]);
}

#[test]
fn browser_history_keeps_order_drops_repeats() {
    let rows = vec![p("X", "u1"), p("X again", "u1"), p("Y", "u2"), p("Z", "u1")];
    assert_eq!(enum_history(rows), vec![p("X", "u1"), p("Y", "u2"), p("Z", "u1")]);
    let many: Vec<(String, String)> = (0..1600).map(|i| p("t", &format!("u{i}"))).collect();
    assert_eq!(enum_history(many).len(), 1500);
}

#[test]
fn browser_profiles_and_query() {
    let ps = chromium_profiles();
    assert_eq!(ps.len(), 3);
    assert_eq!(ps[0], p("Chrome", "Google\\Chrome\\User Data\\Default"));
    assert!(HISTORY_QUERY.starts_with("SELECT title, url FROM urls WHERE title != '' ORDER BY"));
    assert!(HISTORY_QUERY.ends_with("LIMIT 500"));
}

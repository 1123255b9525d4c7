use batcave::json::Json;
use batcave::notion::{search, search_headers, search_request, title_of, SEARCH_URL};

fn s(x: &str) -> String {
    x.to_string()
}

#[test]
fn notion_search_reads_titles_and_urls() {
    let reply = br#"{"results":[
        {"url":"https://notion.so/a","properties":{"Tags":{"type":"multi_select"},"Name":{"type":"title","title":[{"plain_text":"Hello "},{"plain_text":"World"},{"bold":true}]}}},
        {"url":"https://notion.so/db","properties":{},"title":[{"plain_text":"DB"}]},
        {"properties":{"Name":{"type":"title","title":[{"plain_text":"No url"}]}}},
        {"url":""},
        {"url":"https://notion.so/empty"}
    ]}"#;
    let r = search(Some(&reply[..]));
    assert_eq!(
        r,
        vec![
            (s("Hello World"), s("https://notion.so/a")),
            (s("DB"), s("https://notion.so/db")),
            (s("(untitled)"), s("https://notion.so/empty")),
        ]
    );
}

#[test]
fn notion_search_without_a_usable_reply_is_empty() {
    assert!(search(None).is_empty());
    assert!(search(Some(&b"not json"[..])).is_empty());
    assert!(search(Some(&b"{}"[..])).is_empty());
    assert!(search(Some(&br#"{"results":{}}"#[..])).is_empty());
}

fn obj(members: Vec<(&str, Json)>) -> Json {
    Json::Object(members.into_iter().map(|(k, v)| (k.to_string(), v)).collect())
}

fn text(t: &str) -> Json {
    Json::Array(vec![obj(vec![("plain_text", Json::Str(t.to_string()))])])
}

#[test]
fn notion_title_property_must_be_an_array() {
    let page = obj(vec![
        ("properties", obj(vec![
            ("A", obj(vec![("type", Json::Str(s("title"))), ("title", Json::Str(s("x")))])),
            ("B", obj(vec![("type", Json::Str(s("title"))), ("title", text("B"))])),
        ])),
        ("title", text("top")),
    ]);
    assert_eq!(title_of(&page), "B");
    let page = obj(vec![
        ("properties", obj(vec![("A", obj(vec![("type", Json::Str(s("rich_text")))]))])),
        ("title", text("top")),
    ]);
    assert_eq!(title_of(&page), "top");
    let page = obj(vec![("properties", Json::Array(vec![]))]);
    assert_eq!(title_of(&page), "");
}

#[test]
fn notion_search_request_quotes_the_query() {
    assert_eq!(search_request("cats"), r#"{"query":"cats","page_size":8}"#);
    assert_eq!(search_request("a\"b"), r#"{"query":"a\"b","page_size":8}"#);
}

#[test]
fn notion_search_request_escapes_controls() {
    assert_eq!(
        search_request("x\\y\n\t\u{1}\u{1f}\u{7f}é"),
        "{\"query\":\"x\\\\y\\n\\t\\u0001\\u001f\u{7f}é\",\"page_size\":8}"
    );
}

#[test]
fn notion_search_request_headers() {
    assert_eq!(SEARCH_URL, "https://api.notion.com/v1/search");
    assert_eq!(
        search_headers("secret_abc"),
        vec![
            ("Authorization".to_string(), "Bearer secret_abc".to_string()),
            ("Notion-Version".to_string(), "2022-06-28".to_string()),
            ("Content-Type".to_string(), "application/json".to_string()),
        ]
    );
}

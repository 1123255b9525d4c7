use batcave::tabs::{activate_body, handle, parse_tabs, response_headers, search_tabs, tabs_json, Tab, BRIDGE_ADDR};

fn t(title: &str, url: &str, id: i64, win: i64) -> Tab {
    (title.to_string(), url.to_string(), id, win)
}

#[test]
fn tabs_upload_reads_tabs() {
    let body = r#"[{"title":"A","url":"https://a","id":3,"windowId":1},{"url":"https://b"},{"title":"skip","url":""},{"title":"no url"},{"url":"https://c","id":"x","windowId":2.5}]"#;
    assert_eq!(
        parse_tabs(body),
        Some(vec![t("A", "https://a", 3, 1), t("", "https://b", -1, -1), t("", "https://c", -1, -1)])
    );
    assert_eq!(parse_tabs("{}"), None);
    assert_eq!(parse_tabs("nope"), None);
}

#[test]
fn tabs_bridge_handles_requests() {
    let mut tabs: Vec<Tab> = vec![t("old", "https://old", 1, 1)];
    let mut pending: Option<(i64, i64)> = None;
    let r = handle("/tabs", r#"[{"title":"New","url":"https://new","id":7,"windowId":2}]"#, &mut tabs, &mut pending);
    assert_eq!(r, r#"{"ok":true}"#);
    assert_eq!(tabs, vec![t("New", "https://new", 7, 2)]);
    let r = handle("/tabs?x=1", "garbage", &mut tabs, &mut pending);
    assert_eq!(r, r#"{"ok":true}"#);
    assert_eq!(tabs, vec![t("New", "https://new", 7, 2)]);
    assert_eq!(handle("/activate", "", &mut tabs, &mut pending), "{}");
    pending = Some((7, 2));
    assert_eq!(handle("/other", "", &mut tabs, &mut pending), "{}");
    assert_eq!(pending, Some((7, 2)));
    assert_eq!(handle("/activate", "", &mut tabs, &mut pending), r#"{"tabId":7,"windowId":2}"#);
    assert_eq!(pending, None);
    assert_eq!(handle("/activate", "", &mut tabs, &mut pending), "{}");
}

#[test]
fn tabs_activate_body_writes_negative_ids() {
    assert_eq!(activate_body(Some((5, -2))), r#"{"tabId":5,"windowId":-2}"#);
    assert_eq!(activate_body(None), "{}");
}

#[test]
fn tabs_search_is_case_insensitive_and_keeps_eight() {
    let mut tabs = vec![t("Rust Docs", "https://doc.rust-lang.org", 1, 1), t("News", "https://RUST.example", 2, 1), t("Mail", "https://mail", 3, 1)];
    assert_eq!(search_tabs(&tabs, "rust"), vec![tabs[0].clone(), tabs[1].clone()]);
    for i in 0..10 {
        tabs.push(t("x", "https://x", 10 + i, 1));
    }
    let r = search_tabs(&tabs, "X");
    assert_eq!(r.len(), 8);
    assert_eq!(r[0].2, 2);
    assert_eq!(r[1].2, 10);
}

#[test]
fn tabs_json_escapes_strings() {
    let tabs = vec![t("a\"b", "u\\v", 1, -1), t("c", "d", 2, 3)];
    assert_eq!(
        tabs_json(&tabs),
        r#"{"title":"a\"b","url":"u\\v","id":1,"win":-1},{"title":"c","url":"d","id":2,"win":3}"#
    );
    assert_eq!(tabs_json(&vec![]), "");
}

#[test]
fn tabs_ids_are_whole_numbers() {
    let body = r#"[{"url":"u","id":9007199254740993,"windowId":-7},{"url":"v","id":1e3,"windowId":18446744073709551615}]"#;
    assert_eq!(parse_tabs(body), Some(vec![t("", "u", 9007199254740993, -7), t("", "v", -1, -1)]));
}

#[test]
fn bridge_address_and_headers() {
    assert_eq!(BRIDGE_ADDR, "127.0.0.1:37421");
    assert_eq!(
        response_headers(),
        vec![
            ("Access-Control-Allow-Origin".to_string(), "*".to_string()),
            ("Content-Type".to_string(), "application/json".to_string()),
        ]
    );
}

use batcave::config::{
    file_search_enabled, mime_type, restart_command, skin_file, skin_headers, token_field, toggled_config, ui_folder,
};

#[test]
fn config_file_search_defaults_to_on() {
    assert!(file_search_enabled(None));
    assert!(file_search_enabled(Some("not json")));
    assert!(file_search_enabled(Some("{}")));
    assert!(file_search_enabled(Some(r#"{"file_search":"no"}"#)));
    assert!(!file_search_enabled(Some(r#"{ "file_search": false }"#)));
    assert!(file_search_enabled(Some(r#"{"file_search":true}"#)));
}

#[test]
fn config_toggle_writes_the_opposite() {
    assert_eq!(toggled_config(true), r#"{"file_search":false}"#);
    assert_eq!(toggled_config(false), r#"{"file_search":true}"#);
    assert!(!file_search_enabled(Some(&toggled_config(true))));
    assert!(file_search_enabled(Some(&toggled_config(false))));
}

#[test]
fn config_ui_folder() {
    assert_eq!(ui_folder(Some(r#"{"ui":"D:\\skins\\neon"}"#)), Some("D:\\skins\\neon".to_string()));
    assert_eq!(ui_folder(Some(r#"{"ui":1}"#)), None);
    assert_eq!(ui_folder(None), None);
}

#[test]
fn config_tokens() {
    let t = r#"{"spotify_id":"abc","notion":5}"#;
    assert_eq!(token_field(Some(t), "spotify_id"), "abc");
    assert_eq!(token_field(Some(t), "notion"), "");
    assert_eq!(token_field(Some(t), "spotify_secret"), "");
    assert_eq!(token_field(None, "spotify_id"), "");
    assert_eq!(token_field(Some("{"), "spotify_id"), "");
}

#[test]
fn restart_goes_through_the_scheduled_task() {
    assert_eq!(restart_command(), vec!["cmd", "/C", "timeout /t 2 >nul & schtasks /run /tn BatcaveHost"]);
}

#[test]
fn skin_file_paths() {
    assert_eq!(skin_file("/app.js", "index.html"), "app.js");
    assert_eq!(skin_file("//img/a.png", "index.html"), "img/a.png");
    assert_eq!(skin_file("/", "index.html"), "index.html");
    assert_eq!(skin_file("", "index.html"), "index.html");
    assert_eq!(skin_file("a/b/", "index.html"), "a/b/");
}

#[test]
fn skin_mime_types_and_headers() {
    assert_eq!(mime_type(Some("html")), "text/html; charset=utf-8");
    assert_eq!(mime_type(Some("jpeg")), "image/jpeg");
    assert_eq!(mime_type(Some("jpg")), "image/jpeg");
    assert_eq!(mime_type(Some("JSON")), "application/octet-stream");
    assert_eq!(mime_type(None), "application/octet-stream");
    assert_eq!(
        skin_headers(Some("css")),
        vec![
            ("Content-Type".to_string(), "text/css; charset=utf-8".to_string()),
            ("Access-Control-Allow-Origin".to_string(), "*".to_string()),
            ("Cache-Control".to_string(), "no-store, must-revalidate".to_string()),
        ]
    );
}

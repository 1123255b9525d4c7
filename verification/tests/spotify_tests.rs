use batcave::net::bearer;
use batcave::spotify::{
    basic_auth, basic_header, cached_token, search, search_url, token_form, token_fresh, token_from_reply, TOKEN_URL,
};

fn s(x: &str) -> String {
    x.to_string()
}

#[test]
fn spotify_token_reused_under_3300_seconds() {
    assert!(token_fresh(0));
    assert!(token_fresh(3299));
    assert!(!token_fresh(3300));
    assert_eq!(cached_token(Some((s("t"), 10))), Some(s("t")));
    assert_eq!(cached_token(Some((s("t"), 4000))), None);
    assert_eq!(cached_token(None), None);
}

#[test]
fn spotify_basic_auth_is_base64_of_id_colon_secret() {
    assert_eq!(basic_auth("id", "secret"), Some(s("aWQ6c2VjcmV0")));
    assert_eq!(basic_auth("é", "x"), Some(s("w6k6eA==")));
}

#[test]
fn spotify_token_from_reply() {
    assert_eq!(token_from_reply(Some(&br#"{"access_token":"abc","expires_in":3600}"#[..])), Some(s("abc")));
    assert_eq!(token_from_reply(Some(&br#"{"access_token":5}"#[..])), None);
    assert_eq!(token_from_reply(Some(&b"oops"[..])), None);
    assert_eq!(token_from_reply(None), None);
}

#[test]
fn spotify_search_url_encodes_the_query() {
    assert_eq!(search_url("a b&c"), "https://api.spotify.com/v1/search?type=track&limit=6&q=a%20b%26c");
}

#[test]
fn spotify_search_reads_tracks() {
    let reply = br#"{"tracks":{"items":[
        {"name":"Song","artists":[{"name":"Band"},{"name":"Other"}],"external_urls":{"spotify":"https://open.spotify.com/track/1"}},
        {"name":"","artists":[{"name":"Skip"}]},
        {"name":"Lonely"}
    ]}}"#;
    let r = search(Some(&reply[..]));
    assert_eq!(
        r,
        vec![
            (s("Song"), s("Band"), s("https://open.spotify.com/track/1")),
            (s("Lonely"), s(""), s("")),
        ]
    );
    assert!(search(None).is_empty());
    assert!(search(Some(&b"{\"tracks\":{}}"[..])).is_empty());
}

#[test]
fn spotify_token_request_parts() {
    assert_eq!(TOKEN_URL, "https://accounts.spotify.com/api/token");
    assert_eq!(token_form(), vec![(s("grant_type"), s("client_credentials"))]);
    assert_eq!(basic_header("id", "secret"), Some(s("Basic aWQ6c2VjcmV0")));
    assert_eq!(basic_header("", ""), Some(s("Basic Og==")));
}

#[test]
fn bearer_header_value() {
    assert_eq!(bearer("tok.123"), "Bearer tok.123");
    assert_eq!(bearer(""), "Bearer ");
}

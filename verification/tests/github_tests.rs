use batcave::github::{notifications, notifications_command, repos, repos_command};

#[test]
fn repos_reads_pairs() {
    let out = br#"[{"nameWithOwner":"a/b","url":"https://github.com/a/b"},{"nameWithOwner":"c/d"},{"nameWithOwner":"e/f","url":"u"}]"#;
    let r = repos(true, out);
    assert_eq!(
        r,
        vec![
            ("a/b".to_string(), "https://github.com/a/b".to_string()),
            ("e/f".to_string(), "u".to_string())
        ]
    );
}

#[test]
fn repos_failed_run_is_empty() {
    assert!(repos(false, b"[]").is_empty());
    assert!(repos(true, b"not json").is_empty());
    assert!(repos(true, b"{}").is_empty());
}

#[test]
fn notifications_build_repo_url() {
    let out = br#"[{"subject":{"title":"Fix it"},"repository":{"full_name":"o/r"}},{"subject":{"title":""}},{"subject":{"title":"No repo"}}]"#;
    let r = notifications(true, out);
    assert_eq!(
        r,
        vec![
            ("Fix it".to_string(), "https://github.com/o/r".to_string()),
            ("No repo".to_string(), "https://github.com/".to_string())
        ]
    );
}

#[test]
fn gh_argument_lists() {
    assert_eq!(repos_command(), vec!["repo", "list", "--limit", "300", "--json", "nameWithOwner,url"]);
    assert_eq!(notifications_command(), vec!["api", "/notifications"]);
}

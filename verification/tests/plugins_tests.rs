use batcave::plugins::{gather, parse_manifest, parse_reply, request_line, Host};

fn s(x: &str) -> String {
    x.to_string()
}

#[test]
fn plugin_manifest_reads_all_fields() {
    let p = parse_manifest(r#"{"name":"GH","trigger":"gh","command":"node  index.js --x"}"#).unwrap();
    assert_eq!(p.name, "GH");
    assert_eq!(p.trigger, "gh");
    assert_eq!(p.program, "node");
    assert_eq!(p.args, vec![s("index.js"), s("--x")]);
}

#[test]
fn plugin_manifest_defaults() {
    let p = parse_manifest(r#"{"command":"./p.exe"}"#).unwrap();
    assert_eq!(p.name, "plugin");
    assert_eq!(p.trigger, "");
    assert_eq!(p.program, "./p.exe");
    assert!(p.args.is_empty());
}

#[test]
fn plugin_manifest_needs_a_command() {
    assert!(parse_manifest(r#"{"name":"x"}"#).is_none());
    assert!(parse_manifest(r#"{"command":""}"#).is_none());
    assert!(parse_manifest(r#"{"command":"   "}"#).is_none());
    assert!(parse_manifest(r#"{"command":3}"#).is_none());
    assert!(parse_manifest("not json").is_none());
}

#[test]
fn plugin_trigger_is_stripped() {
    let mut h = Host::new();
    h.add(s("Echo"), s("echo"));
    h.add(s("All"), s(""));
    h.add(s("GitHub"), s("gh"));
    assert_eq!(h.list().len(), 3);
    assert_eq!(h.list()[2], (s("GitHub"), s("gh")));
    assert_eq!(h.query("gh cats"), vec![(1, s("gh cats")), (2, s("cats"))]);
    assert_eq!(h.query("echo  hello world "), vec![(0, s("hello world")), (1, s("echo  hello world "))]);
    assert_eq!(h.query("cats"), vec![(1, s("cats"))]);
}

#[test]
fn plugin_request_is_one_json_line() {
    assert_eq!(request_line("cats"), "{\"query\":\"cats\"}\n");
    assert_eq!(request_line("a\"b"), "{\"query\":\"a\\\"b\"}\n");
}

#[test]
fn plugin_reply_reads_results() {
    let line = "  {\"results\": [{\"title\":\"Search\",\"subtitle\":\"opens Google\",\"action\":\"open:https://g\"},{\"subtitle\":\"no title\"},{\"title\":\"Copy\"}]}\r\n";
    let r = parse_reply(line).unwrap();
    assert_eq!(
        r,
        vec![
            (s("Search"), s("opens Google"), s("open:https://g")),
            (s("Copy"), s(""), s("")),
        ]
    );
}

#[test]
fn plugin_reply_without_results_is_none() {
    assert!(parse_reply("").is_none());
    assert!(parse_reply("{}").is_none());
    assert!(parse_reply("{\"results\":5}").is_none());
    assert_eq!(parse_reply("{\"results\":[]}"), Some(vec![]));
}

#[test]
fn plugin_host_load_lists_started_plugins() {
    let started = vec![
        parse_manifest(r#"{"name":"GH","trigger":"gh","command":"gh-plugin"}"#).unwrap(),
        parse_manifest(r#"{"command":"echo"}"#).unwrap(),
    ];
    let h = Host::load(&started);
    assert_eq!(h.list().to_vec(), vec![(s("GH"), s("gh")), (s("plugin"), s(""))]);
    assert_eq!(h.query("gh x"), vec![(0, s("x")), (1, s("gh x"))]);
}

#[test]
fn plugin_replies_join_in_order_failures_add_nothing() {
    let t = |a: &str| (s(a), s(""), s(""));
    let replies = vec![Some(vec![t("a"), t("b")]), None, Some(vec![]), Some(vec![t("c")])];
    assert_eq!(gather(replies), vec![t("a"), t("b"), t("c")]);
    assert!(gather(vec![None, None]).is_empty());
}

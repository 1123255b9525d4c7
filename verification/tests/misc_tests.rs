use batcave::bytes::{push_utf8, utf8_len};
use batcave::notifications::{notif_message, notif_text, poll, set_native_toasts};
use batcave::script::{
    call_script_exec, esc, icons_json, list_script, message_script, pair_objects_json, procs_json,
    results_script, triple_objects_json,
};
use batcave::sorting::{stable_sort, stable_sort_take, Descending, RankThenLen};
use batcave::text::lines;
use std::collections::HashSet;

fn s(x: &str) -> String {
    x.to_string()
}

#[test]
fn notifications_poll_reports_new_ones_once() {
    let mut seen = HashSet::new();
    let live = vec![(1u32, s("Mail"), s("hi")), (2, s(""), s("")), (3, s(""), s("text"))];
    assert_eq!(poll(&mut seen, Some(live.clone())), vec![(s("Mail"), s("hi")), (s(""), s("text"))]);
    assert_eq!(seen, [1, 2, 3].into_iter().collect());
    assert!(poll(&mut seen, Some(live.clone())).is_empty());
    assert!(poll(&mut seen, Some(vec![(3, s(""), s("text"))])).is_empty());
    assert!(poll(&mut seen, None).is_empty());
    assert_eq!(seen, [3].into_iter().collect());
    assert_eq!(poll(&mut seen, Some(live)), vec![(s("Mail"), s("hi"))]);
}

#[test]
fn notifications_text_and_message() {
    assert_eq!(notif_text(&vec![s("Title"), s(""), s("Body")]), "Title · Body");
    assert_eq!(notif_text(&vec![]), "");
    assert_eq!(notif_message("Slack", "hey"), Some(s("Slack · hey")));
    assert_eq!(notif_message("Slack", ""), Some(s("Slack")));
    assert_eq!(notif_message("", "hey"), Some(s("hey")));
    assert_eq!(notif_message("", ""), None);
}

#[test]
fn notifications_toast_switch_is_reversible() {
    let off = set_native_toasts(false);
    let on = set_native_toasts(true);
    assert_eq!(off[7], "0");
    assert_eq!(on[7], "1");
    assert_eq!(off[..7], on[..7]);
    assert_eq!(on[3], "NOC_GLOBAL_SETTING_TOASTS_ENABLED");
}

#[test]
fn script_escape_and_calls() {
    assert_eq!(esc("a\"b\\c\nd"), "a\\\"b\\\\c d");
    assert_eq!(call_script_exec("pushStats", "{}"), "window.pushStats && window.pushStats({});");
    assert_eq!(list_script("pushApps", "1,2"), "window.pushApps && window.pushApps([1,2]);");
    assert_eq!(results_script("pushFiles", "q\"", "x"), "window.pushFiles && window.pushFiles(\"q\\\"\", [x]);");
    assert_eq!(message_script("playToast", "hi", None), "window.playToast && window.playToast(\"hi\");");
}

#[test]
fn script_json_lists() {
    let pairs = vec![(s("A\"pp"), s("C:\\a")), (s("B"), s("b"))];
    assert_eq!(pair_objects_json("name", "path", &pairs), r#"{"name":"A\"pp","path":"C:\\a"},{"name":"B","path":"b"}"#);
    let triples = vec![(s("t"), s("s"), s("a:1"))];
    assert_eq!(triple_objects_json("title", "subtitle", "action", &triples), r#"{"title":"t","subtitle":"s","action":"a:1"}"#);
    let procs = vec![(s("x.exe"), 12u32, 3400u64), (s("y"), 0, 0)];
    assert_eq!(procs_json(&procs), r#"{"name":"x.exe","pid":12,"mem":3400},{"name":"y","pid":0,"mem":0}"#);
    let icons = vec![(s("C:\\a.lnk"), s("data:x")), (s("b"), s("data:y"))];
    assert_eq!(icons_json(&icons), r#"{"C:\\a.lnk":"data:x","b":"data:y"}"#);
    assert_eq!(icons_json(&vec![]), "{}");
}

#[test]
fn bytes_utf8() {
    let mut out = vec![1u8];
    push_utf8(&mut out, "aé€😀");
    assert_eq!(out, [&[1u8][..], "aé€😀".as_bytes()].concat());
    assert_eq!(utf8_len("aé€😀"), 10);
}

#[test]
fn text_lines_split_like_str_lines() {
    let l = lines("a\r\nb\n\nc");
    assert_eq!(l.len(), 4);
    assert_eq!(l[0], vec!['a']);
    assert!(l[2].is_empty());
}

#[test]
fn sorting_is_stable_and_takes_the_top() {
    let v = vec![(Descending(1), s("a")), (Descending(3), s("b")), (Descending(1), s("c")), (Descending(2), s("d"))];
    let r: Vec<String> = stable_sort(v).into_iter().map(|x| x.1).collect();
    assert_eq!(r, vec![s("b"), s("d"), s("a"), s("c")]);
    let v = vec![(RankThenLen(1, 5), 1u8), (RankThenLen(2, 9), 2), (RankThenLen(2, 3), 3), (RankThenLen(1, 1), 4)];
    let r: Vec<u8> = stable_sort_take(v, 3).into_iter().map(|x| x.1).collect();
    assert_eq!(r, vec![3, 2, 4]);
}

#[test]
fn script_escape_keeps_string_literals_closed() {
    let e = esc("say \"hi\"\\\n\"");
    assert!(!e.contains('\n'));
    let chars: Vec<char> = e.chars().collect();
    for (i, c) in chars.iter().enumerate() {
        if *c == '"' {
            assert!(i > 0 && chars[i - 1] == '\\');
        }
    }
}

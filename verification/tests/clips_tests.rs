use batcave::clips::{clip_source, clip_text, is_new_copy, record, CLIP_HISTORY_MAX};

fn s(x: &str) -> String {
    x.to_string()
}

#[test]
fn clips_source_names() {
    assert_eq!(clip_source("chrome.exe"), "chrome.exe");
    assert_eq!(clip_source(""), "clipboard");
    assert_eq!(clip_source("HOST.EXE"), "clipboard");
    assert_eq!(clip_source("host.exe2"), "host.exe2");
}

#[test]
fn clips_new_copy_rule() {
    assert!(is_new_copy("hello", ""));
    assert!(!is_new_copy("hello", "hello"));
    assert!(!is_new_copy(" \n\t", ""));
    assert!(!is_new_copy("", "x"));
}

#[test]
fn clips_record_moves_repeats_to_front() {
    let mut h: Vec<(String, String)> = Vec::new();
    record(&mut h, s("a"), s("x.exe"));
    record(&mut h, s("b"), s("y.exe"));
    record(&mut h, s("a"), s("z.exe"));
    assert_eq!(h, vec![(s("a"), s("z.exe")), (s("b"), s("y.exe"))]);
    assert_eq!(clip_text(&h, 1), Some(s("b")));
    assert_eq!(clip_text(&h, 2), None);
}

#[test]
fn clips_record_keeps_forty() {
    let mut h: Vec<(String, String)> = Vec::new();
    for i in 0..50 {
        record(&mut h, format!("t{i}"), s("src"));
    }
    assert_eq!(h.len(), CLIP_HISTORY_MAX);
    assert_eq!(h[0].0, "t49");
    assert_eq!(h[39].0, "t10");
}

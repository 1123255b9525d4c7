use batcave::proc::find;

fn p(name: &str, pid: u32, mem: u64) -> (String, u32, u64) {
    (name.to_string(), pid, mem)
}

#[test]
fn proc_find_biggest_first() {
    let table = vec![
        p("chrome.exe", 1, 100),
        p("explorer.exe", 2, 900),
        p("Chrome.exe", 3, 500),
        p("chrome.exe", 4, 100),
    ];
    let r = find("CHROME", table);
    assert_eq!(r, vec![p("Chrome.exe", 3, 500), p("chrome.exe", 1, 100), p("chrome.exe", 4, 100)]);
}

#[test]
fn proc_find_empty_query_lists_nothing() {
    assert!(find("", vec![p("a", 1, 1)]).is_empty());
}

#[test]
fn proc_find_keeps_twenty() {
    let table: Vec<_> = (0..30).map(|i| p("svc.exe", i, i as u64)).collect();
    let r = find("svc", table);
    assert_eq!(r.len(), 20);
    assert_eq!(r[0], p("svc.exe", 29, 29));
    assert_eq!(r[19], p("svc.exe", 10, 10));
}

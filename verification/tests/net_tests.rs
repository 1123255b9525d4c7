use batcave::net::urlencode;

#[test]
fn urlencode_keeps_unreserved() {
    assert_eq!(urlencode("abcXYZ019-_.~"), "abcXYZ019-_.~");
}

#[test]
fn urlencode_space_and_symbols() {
    assert_eq!(urlencode("a b&c/d"), "a%20b%26c%2Fd");
}

#[test]
fn urlencode_utf8_bytes() {
    assert_eq!(urlencode("é"), "%C3%A9");
    assert_eq!(urlencode(""), "");
}

#[test]
fn urlencode_output_is_url_safe() {
    let e = urlencode("q=1&x=#frag ?é\u{1F600}\"'<>");
    assert!(e.chars().all(|c| c.is_ascii_alphanumeric() || "-_.~%".contains(c)));
}

#[test]
fn urlencode_concatenates_and_has_the_stated_length() {
    let (a, b) = ("a b", "é&");
    assert_eq!(urlencode(&format!("{a}{b}")), urlencode(a) + &urlencode(b));
    let s = "x y-é";
    let expected: usize = s.bytes().map(|c| if c.is_ascii_alphanumeric() || b"-_.~".contains(&c) { 1 } else { 3 }).sum();
    assert_eq!(urlencode(s).len(), expected);
}

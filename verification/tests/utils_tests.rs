use voice_core::utils::safe_truncate;

#[test]
fn ascii_within_limit() {
    assert_eq!(safe_truncate("hello", 10), "hello");
}

#[test]
fn ascii_at_limit() {
    assert_eq!(safe_truncate("hello", 5), "hello");
}

#[test]
fn ascii_truncated() {
    assert_eq!(safe_truncate("hello world", 5), "hello");
}

#[test]
fn multibyte_no_split() {
    // Three characters of three bytes each, nine bytes in all.
    let s = "\u{3042}\u{3044}\u{3046}";
    // Cutting at seven bytes must back up to six (two whole characters).
    assert_eq!(safe_truncate(s, 7), "\u{3042}\u{3044}");
}

#[test]
fn multibyte_exact_boundary() {
    let s = "\u{3042}\u{3044}\u{3046}";
    assert_eq!(safe_truncate(s, 6), "\u{3042}\u{3044}");
}

#[test]
fn empty_string() {
    assert_eq!(safe_truncate("", 10), "");
}

#[test]
fn zero_max() {
    assert_eq!(safe_truncate("hello", 0), "");
}

use editor_tab_manager::percent::{percent_decode, percent_decode_bytes};

#[test]
fn percent_decode_basic() {
    assert_eq!(percent_decode("hello%20world"), "hello world");
    assert_eq!(percent_decode("/path/to/no%20encode"), "/path/to/no encode");
    assert_eq!(percent_decode("no_encoding"), "no_encoding");
}

#[test]
fn percent_decode_japanese() {
    // %E3%83%86%E3%82%B9%E3%83%88 = "テスト" in UTF-8
    assert_eq!(percent_decode("%E3%83%86%E3%82%B9%E3%83%88"), "テスト");
}

#[test]
fn percent_decode_malformed_triplets() {
    // A percent sign without two hex digits stands for itself; the two
    // consumed bytes after it are dropped.
    assert_eq!(percent_decode("%zzx"), "%x");
    assert_eq!(percent_decode("%4"), "%");
    assert_eq!(percent_decode("%"), "%");
}

#[test]
fn percent_decode_byte_level() {
    let decoded = percent_decode_bytes(&b"a%2Fb".to_vec());
    assert_eq!(decoded, b"a/b".to_vec());
    // Invalid UTF-8 after decoding leaves the string input unchanged.
    assert_eq!(percent_decode("%FF%FE"), "%FF%FE");
}

use forth_core::text::split_whitespace;

#[test]
fn split_at_unicode_white_space() {
    let v = split_whitespace("  3 2\t*\n.\u{a0}cr\u{3000}x\u{200b}y  ");
    assert_eq!(v, vec!["3", "2", "*", ".", "cr", "x\u{200b}y"]);
}

#[test]
fn split_empty_and_blank() {
    assert!(split_whitespace("").is_empty());
    assert!(split_whitespace(" \t\r\n\u{85}\u{2028}").is_empty());
    assert_eq!(split_whitespace("word"), vec!["word"]);
}

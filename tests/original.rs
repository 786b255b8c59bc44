use fast_whitespace_collapse::collapse_whitespace;

#[test]
fn test_basic_collapse() {
    assert_eq!(collapse_whitespace("This   is 	  a   test."), "This is a test.");
    assert_eq!(collapse_whitespace("  Leading and trailing  "), "Leading and trailing");
    assert_eq!(collapse_whitespace("Multiple     spaces"), "Multiple spaces");
    assert_eq!(collapse_whitespace("NoExtraSpaces"), "NoExtraSpaces");
    assert_eq!(collapse_whitespace("   "), "");
}

#[test]
fn test_unicode_characters() {
    assert_eq!(collapse_whitespace("ã“ã‚“ã«ã¡ã¯  ä¸–ç•Œ"), "ã“ã‚“ã«ã¡ã¯ ä¸–ç•Œ"); // Japanese
    assert_eq!(collapse_whitespace("ÐŸÑ€Ð¸Ð²ÐµÑ‚    Ð¼Ð¸Ñ€"), "ÐŸÑ€Ð¸Ð²ÐµÑ‚ Ð¼Ð¸Ñ€"); // Cyrillic
    assert_eq!(collapse_whitespace("ä½ å¥½  ä¸–ç•Œ"), "ä½ å¥½ ä¸–ç•Œ"); // Chinese
    assert_eq!(collapse_whitespace("ì•ˆë…•í•˜ì„¸ìš”    ì„¸ê³„"), "ì•ˆë…•í•˜ì„¸ìš” ì„¸ê³„"); // Korean
    assert_eq!(collapse_whitespace("ðŸ˜€  ðŸ˜ƒ  ðŸ˜„"), "ðŸ˜€ ðŸ˜ƒ ðŸ˜„"); // Emojis
}

#[test]
fn test_mixed_whitespace() {
    assert_eq!(collapse_whitespace("Mix  of	tabs and spaces"), "Mix of tabs and spaces");
    assert_eq!(collapse_whitespace("  	   Multiple types of   whitespace  	  "), "Multiple types of whitespace");
}

#[test]
fn test_newlines_not_collapsed() {
    assert_eq!(collapse_whitespace("Line1\n   Line2\nLine3"), "Line1\n Line2\nLine3");
    assert_eq!(collapse_whitespace("First line\n    Second line"), "First line\n Second line");
}

#[test]
fn single_tab() {
    assert_eq!(collapse_whitespace("\t"), "");
    assert_eq!(collapse_whitespace("A\tB"), "A B");
}

#[test]
fn only_tabs() {
    assert_eq!(collapse_whitespace("\t\t\t"), "");
    assert_eq!(collapse_whitespace("\t\t\tA\t\tB\t\t"), "A B");
}

#[test]
fn empty_input() {
    assert_eq!(collapse_whitespace(""), "");
}

#[test]
fn mixed_whitespace_around_text() {
    assert_eq!(collapse_whitespace("\t  Surround \t"), "Surround");
}

#[test]
fn unicode_with_tabs() {
    assert_eq!(collapse_whitespace("ã“ã‚“ã«ã¡ã¯\t\tä¸–ç•Œ"), "ã“ã‚“ã«ã¡ã¯ ä¸–ç•Œ");
    assert_eq!(collapse_whitespace("ä½ å¥½\tä¸–ç•Œ\t"), "ä½ å¥½ ä¸–ç•Œ");
}

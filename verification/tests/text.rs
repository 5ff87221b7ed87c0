use mcserver::text::{is_whitespace, trim_end};

#[test]
fn whitespace_agrees_with_std() {
    for c in (0u32..0x4000).filter_map(char::from_u32) {
        assert_eq!(is_whitespace(c), c.is_whitespace(), "{:#x}", c as u32);
    }
    assert!(is_whitespace('\u{3000}'));
    assert!(!is_whitespace('\u{200b}'));
    assert!(!is_whitespace('\u{10ffff}'));
}

#[test]
fn trimming_the_end() {
    assert_eq!(trim_end("a b \t\r\n"), "a b");
    assert_eq!(trim_end("x\u{a0}\u{2029}"), "x");
    assert_eq!(trim_end("  "), "");
}

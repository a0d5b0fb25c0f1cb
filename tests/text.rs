use papdieo::text::{compare_text, trim_text, white_space};

#[test]
fn trimming_removes_unicode_white_space_at_both_ends() {
    assert_eq!(trim_text("  a b \t\n"), "a b");
    assert_eq!(trim_text("\u{3000}\u{85}x\u{2029}"), "x");
    assert_eq!(trim_text("\u{200b}x"), "\u{200b}x");
    assert_eq!(trim_text(" \t "), "");
    assert_eq!(trim_text(""), "");
    for c in ['\u{9}', '\u{d}', ' ', '\u{a0}', '\u{1680}', '\u{200a}', '\u{202f}', '\u{205f}'] {
        assert!(white_space(c));
        assert_eq!(c.is_whitespace(), white_space(c));
    }
    assert!(!white_space('x'));
    assert!(!white_space('\u{200b}'));
}

#[test]
fn text_order_is_string_order() {
    for (a, b) in [("a", "b"), ("B", "a"), ("ab", "a"), ("", "x"), ("\u{e9}", "z"), ("same", "same")] {
        let c = compare_text(a, b);
        assert_eq!(c.signum() as i32, a.cmp(b) as i32);
    }
}

use greet_tasks::text::{is_space, trim};

#[test]
fn trim_both_ends() {
    assert_eq!(trim("  buy milk  "), "buy milk");
}

#[test]
fn trim_empty() {
    assert_eq!(trim(""), "");
}

#[test]
fn trim_all_whitespace() {
    assert_eq!(trim("   "), "");
    assert_eq!(trim(" \t\r\n"), "");
}

#[test]
fn trim_keeps_inner_whitespace() {
    assert_eq!(trim("a b"), "a b");
    assert_eq!(trim("  a \t b  "), "a \t b");
}

#[test]
fn trim_nothing_to_do() {
    assert_eq!(trim("abc"), "abc");
}

#[test]
fn trim_unicode_whitespace() {
    assert_eq!(trim("\u{3000}\u{00A0}hi\u{2028}\u{205F}"), "hi");
    assert_eq!(trim("\u{1680}x\u{2009}"), "x");
}

#[test]
fn trim_non_ascii_content() {
    assert_eq!(trim(" h\u{00E9}llo "), "h\u{00E9}llo");
}

#[test]
fn trim_agrees_with_std() {
    for s in ["", " ", "  a  ", "\ta b\n", "\u{2000}x", "x\u{3000}", "\u{85}\u{B}y\u{C}"] {
        assert_eq!(trim(s), s.trim());
    }
}

#[test]
fn space_classification() {
    assert!(is_space(' '));
    assert!(is_space('\t'));
    assert!(is_space('\n'));
    assert!(is_space('\u{3000}'));
    assert!(!is_space('a'));
    assert!(!is_space('\u{200B}'));
    for c in '\u{0}'..='\u{3001}' {
        assert_eq!(is_space(c), c.is_whitespace());
    }
}

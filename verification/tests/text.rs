use roleplay_core::text::{char_is_whitespace, chars_of, is_blank, str_eq, trim};

#[test]
fn trim_removes_outer_white_space() {
    assert_eq!(trim("  a b \n"), "a b");
    assert_eq!(trim("\u{3000}名字\t"), "名字");
    assert_eq!(trim("   "), "");
    assert_eq!(trim(""), "");
}

#[test]
fn blank_means_only_white_space() {
    assert!(is_blank(""));
    assert!(is_blank(" \n\t\u{a0}"));
    assert!(!is_blank(" x "));
}

#[test]
fn equality_and_chars() {
    assert!(str_eq("旁白", "旁白"));
    assert!(!str_eq("旁白", "旁"));
    assert!(!str_eq("ab", "ac"));
    assert_eq!(chars_of("a旁b"), vec!['a', '旁', 'b']);
}

#[test]
fn trimming_twice_is_trimming_once() {
    for s in ["  a b \n", "\u{3000}x\u{3000}", "   ", "plain"] {
        assert_eq!(trim(&trim(s)), trim(s));
    }
}

#[test]
fn white_space_agrees_with_std() {
    for c in ['\t', '\n', '\u{b}', '\u{c}', '\r', ' ', '\u{85}', '\u{a0}', '\u{1680}', '\u{2000}', '\u{200a}',
              '\u{2028}', '\u{2029}', '\u{202f}', '\u{205f}', '\u{3000}', 'A', 'c', '越', '\u{200b}', '\u{feff}', '\u{1f}'] {
        assert_eq!(char_is_whitespace(c), c.is_whitespace(), "{:?}", c);
    }
    for n in 0u32..0x3100 {
        if let Some(c) = char::from_u32(n) {
            assert_eq!(char_is_whitespace(c), c.is_whitespace(), "{:?}", c);
        }
    }
}

use hotshot_logging::text::{chars_of, is_whitespace, range_spells, same_text, trim_bounds};

#[test]
fn white_space_characters() {
    for c in [' ', '\t', '\n', '\u{b}', '\u{c}', '\r', '\u{85}', '\u{a0}', '\u{1680}', '\u{2000}', '\u{200a}', '\u{2028}', '\u{2029}', '\u{202f}', '\u{205f}', '\u{3000}'] {
        assert!(is_whitespace(c), "{:?}", c);
        assert!(c.is_whitespace());
    }
    for c in ['a', ',', '\u{0}', '\u{200b}', '\u{feff}', '\u{1f}', '_'] {
        assert!(!is_whitespace(c), "{:?}", c);
        assert_eq!(c.is_whitespace(), false);
    }
}

#[test]
fn white_space_agrees_with_std() {
    for code in 0u32..0x3100 {
        if let Some(c) = char::from_u32(code) {
            assert_eq!(is_whitespace(c), c.is_whitespace(), "{:#x}", code);
        }
    }
}

#[test]
fn chars_of_keeps_order() {
    assert_eq!(chars_of("aé,b"), vec!['a', 'é', ',', 'b']);
    assert_eq!(chars_of(""), Vec::<char>::new());
}

#[test]
fn trim_bounds_match_std_trim() {
    let s = chars_of("  ab c \t");
    assert_eq!(trim_bounds(&s, 0, s.len()), (2, 6));
    let s = chars_of("   ");
    let (a, b) = trim_bounds(&s, 0, 3);
    assert_eq!(a, b);
    let s = chars_of("x, y ,z");
    assert_eq!(trim_bounds(&s, 2, 5), (3, 4));
    assert_eq!(trim_bounds(&s, 2, 6), (3, 6));
}

#[test]
fn range_spells_compares_exactly() {
    let s = chars_of("xnewx");
    assert!(range_spells(&s, 1, 4, "new"));
    assert!(!range_spells(&s, 1, 5, "new"));
    assert!(!range_spells(&s, 0, 3, "new"));
    assert!(range_spells(&s, 2, 2, ""));
}

#[test]
fn same_text_compares_exactly() {
    assert!(same_text("json", "json"));
    assert!(!same_text("json ", "json"));
    assert!(!same_text("JSON", "json"));
    assert!(same_text("", ""));
}

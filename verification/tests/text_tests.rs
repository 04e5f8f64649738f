use azure_sapi::text::{
    chars_of, contains_chars, push_decimal, str_eq, str_starts_with, string_of, trim_chars,
    trim_string, utf16_len,
};

#[test]
fn trims_unicode_whitespace() {
    assert_eq!(trim_string("  a b \t\n"), "a b");
    assert_eq!(trim_string("\u{3000}x\u{A0}"), "x");
    assert_eq!(trim_string("   "), "");
    assert_eq!(trim_string(""), "");
}

#[test]
fn law_trim_shape_on_values() {
    for s in ["  abc  ", "abc", " a b ", "\t\t", "x "] {
        let t: String = trim_chars(&chars_of(s)).into_iter().collect();
        assert_eq!(t, s.trim());
        assert!(s.contains(t.as_str()));
    }
}

#[test]
fn utf16_widths() {
    assert_eq!(utf16_len('a'), 1);
    assert_eq!(utf16_len('\u{FFFF}'), 1);
    assert_eq!(utf16_len('\u{10000}'), 2);
    assert_eq!(utf16_len('\u{1F600}'), 2);
}

#[test]
fn decimal_notation() {
    for n in [0u64, 7, 10, 99, 12345, u64::MAX] {
        let mut v = Vec::new();
        push_decimal(&mut v, n);
        assert_eq!(v.into_iter().collect::<String>(), n.to_string());
    }
}

#[test]
fn substring_search() {
    let h = chars_of("abcabd");
    assert!(contains_chars(&h, &chars_of("abd")));
    assert!(contains_chars(&h, &chars_of("")));
    assert!(!contains_chars(&h, &chars_of("abe")));
    assert!(!contains_chars(&chars_of("ab"), &chars_of("abc")));
}

#[test]
fn string_comparisons() {
    assert!(str_eq("abc", "abc"));
    assert!(!str_eq("abc", "abd"));
    assert!(!str_eq("ab", "abc"));
    assert!(str_starts_with("--purge", "--"));
    assert!(!str_starts_with("-", "--"));
    assert_eq!(string_of(&['h', 'i']), "hi");
}

#[test]
fn whitespace_matches_std_for_every_char() {
    for u in 0u32..=0x10FFFF {
        if let Some(c) = char::from_u32(u) {
            assert_eq!(azure_sapi::text::char_is_whitespace(c), c.is_whitespace(), "{u:#x}");
        }
    }
}

#[test]
fn no_whitespace_char_is_alphanumeric() {
    for u in 0u32..=0x10FFFF {
        if let Some(c) = char::from_u32(u) {
            if c.is_whitespace() {
                assert!(!c.is_alphanumeric(), "{u:#x}");
            }
        }
    }
}

#[test]
fn utf16_decoding_matches_std() {
    let interesting: [u16; 9] = [0x41, 0x20, 0xD7FF, 0xD800, 0xDBFF, 0xDC00, 0xDFFF, 0xE000, 0xFFFF];
    let mut cases: Vec<Vec<u16>> = vec![vec![]];
    for &a in &interesting {
        cases.push(vec![a]);
        for &b in &interesting {
            cases.push(vec![a, b]);
            for &c in &interesting {
                cases.push(vec![a, b, c]);
            }
        }
    }
    cases.push("x\u{1F600}y".encode_utf16().collect());
    for u in cases {
        let mine: String = azure_sapi::text::utf16_to_chars_lossy(&u).into_iter().collect();
        assert_eq!(mine, String::from_utf16_lossy(&u), "{u:x?}");
    }
}

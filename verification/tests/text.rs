use dockerit::text::{chars_of, is_whitespace, replace_all, trim};

#[test]
fn trim_agrees_with_std() {
    for s in [
        "",
        "   ",
        "abc",
        "  abc  ",
        "\t\r\n go 1.21 \r\n",
        "\u{a0}\u{2003}x y\u{3000}\u{85}",
        "\u{200b}zero width is not white space\u{200b}",
        "\u{feff}bom\u{feff}",
        "é ü",
    ] {
        assert_eq!(trim(s), s.trim(), "{s:?}");
    }
}

#[test]
fn is_whitespace_agrees_with_std() {
    for n in 0u32..0x3100 {
        if let Some(c) = char::from_u32(n) {
            assert_eq!(is_whitespace(c), c.is_whitespace(), "{n:#x}");
        }
    }
    for c in ['\u{feff}', '\u{10ffff}', 'a'] {
        assert_eq!(is_whitespace(c), c.is_whitespace());
    }
}

#[test]
fn replace_all_agrees_with_std() {
    for (s, pat, to) in [
        ("aaa", "aa", "b"),
        ("abcabc", "bc", "X"),
        ("no match", "zz", "y"),
        ("", "a", "b"),
        ("{GO_VERSION}{GO_VERSION}", "{GO_VERSION}", "1.2"),
        ("ééé", "é", "e"),
        ("abab", "ab", "ab"),
    ] {
        assert_eq!(replace_all(s, pat, to), s.replace(pat, to), "{s:?} {pat:?} {to:?}");
    }
}

#[test]
fn chars_of_keeps_every_character() {
    let s = "go 1.21 — é";
    assert_eq!(chars_of(s), s.chars().collect::<Vec<char>>());
    assert!(chars_of("").is_empty());
}

use tnsm_relay::text::{
    chars_of, decimal_text, is_white_space, same_text, sorts_before, split_words, string_of,
};

#[test]
fn white_space_is_that_of_unicode() {
    for u in 0..=0x10ffff_u32 {
        if let Some(c) = char::from_u32(u) {
            assert_eq!(is_white_space(c), c.is_whitespace(), "U+{:04X}", u);
        }
    }
}

#[test]
fn words_are_split_at_any_white_space() {
    let lines = [
        "",
        "   ",
        "HOST",
        "HOST abc",
        "  HOST\tabc\u{a0}secret \u{3000} more ",
        "\u{2003}x\u{85}y\u{1680}",
        "na\u{ef}ve \u{1F600}\u{2028}end",
    ];
    for line in lines {
        let expected: Vec<String> = line.split_whitespace().map(|w| w.to_string()).collect();
        assert_eq!(split_words(line), expected, "{:?}", line);
    }
    assert_eq!(split_words("RC  code s3cret"), vec!["RC", "code", "s3cret"]);
}

#[test]
fn strings_sort_by_their_bytes() {
    let texts = ["", "a", "aa", "ab", "b", "Z", "z", "\u{e9}", "\u{ffff}", "\u{10000}", "a\u{0}"];
    for a in texts {
        for b in texts {
            assert_eq!(sorts_before(a, b), a < b, "{:?} {:?}", a, b);
        }
    }
    assert!(sorts_before("Z", "a"));
    assert!(!sorts_before("same", "same"));
}

#[test]
fn texts_are_compared_by_character() {
    assert!(same_text("", ""));
    assert!(same_text("caf\u{e9}", "caf\u{e9}"));
    assert!(!same_text("abc", "abd"));
    assert!(!same_text("abc", "ab"));
}

#[test]
fn characters_come_back_as_text() {
    let chars = chars_of("a\u{e9}\u{1F600}z");
    assert_eq!(chars, vec!['a', '\u{e9}', '\u{1F600}', 'z']);
    assert_eq!(string_of(&chars, 1, 3), "\u{e9}\u{1F600}");
    assert_eq!(string_of(&chars, 2, 2), "");
}

#[test]
fn decimals_have_no_leading_zeros() {
    assert_eq!(decimal_text(0), "0");
    assert_eq!(decimal_text(9), "9");
    assert_eq!(decimal_text(10), "10");
    assert_eq!(decimal_text(7800), "7800");
    assert_eq!(decimal_text(u64::MAX), "18446744073709551615");
}

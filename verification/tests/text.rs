use bridge_gen::text::{
    chars_of, is_whitespace, matches_at, push_escaped, skip_whitespace, skip_whitespace_back,
    string_of,
};

#[test]
fn whitespace_is_what_the_standard_library_calls_whitespace() {
    for code in 0..=0x10ffff_u32 {
        if let Some(c) = char::from_u32(code) {
            assert_eq!(is_whitespace(c), c.is_whitespace(), "U+{:04X}", code);
        }
    }
}

#[test]
fn chars_and_back() {
    let text = "a\u{e9}\u{1f600}\n";
    let chars = chars_of(text);
    assert_eq!(chars, vec!['a', '\u{e9}', '\u{1f600}', '\n']);
    assert_eq!(string_of(&chars, 0, chars.len()), text);
    assert_eq!(string_of(&chars, 1, 3), "\u{e9}\u{1f600}");
    assert_eq!(string_of(&chars, 2, 2), "");
    assert!(chars_of("").is_empty());
}

#[test]
fn trimming_agrees_with_the_standard_library() {
    let samples = [
        "",
        " ",
        "\n\t a b \r\n",
        "x",
        "\u{a0}\u{3000}x y\u{2009}\u{85}",
        "  \u{200b} ",
        "\u{feff}x ",
    ];
    for sample in samples {
        let chars = chars_of(sample);
        let first = skip_whitespace(&chars, 0, chars.len());
        assert_eq!(string_of(&chars, first, chars.len()), sample.trim_start());
        let last = skip_whitespace_back(&chars, 0, chars.len());
        assert_eq!(string_of(&chars, 0, last), sample.trim_end());
        let last = skip_whitespace_back(&chars, first, chars.len());
        assert_eq!(string_of(&chars, first, last), sample.trim());
    }
}

#[test]
fn trimming_stays_inside_its_range() {
    let chars = chars_of("  ab  ");
    assert_eq!(skip_whitespace(&chars, 1, 4), 2);
    assert_eq!(skip_whitespace(&chars, 4, 6), 6);
    assert_eq!(skip_whitespace_back(&chars, 0, 5), 4);
    assert_eq!(skip_whitespace_back(&chars, 0, 2), 0);
    assert_eq!(skip_whitespace_back(&chars, 3, 3), 3);
}

#[test]
fn matching_at_a_position() {
    let text = chars_of("hello world");
    assert!(matches_at(&text, 0, &chars_of("hello")));
    assert!(matches_at(&text, 6, &chars_of("world")));
    assert!(!matches_at(&text, 7, &chars_of("world")));
    assert!(!matches_at(&text, 1, &chars_of("hello")));
    assert!(matches_at(&text, 11, &chars_of("")));
    assert!(!matches_at(&text, 12, &chars_of("")));
    assert!(!matches_at(&text, 0, &chars_of("hello world!")));
    assert!(!matches_at(&text, usize::MAX, &chars_of("d")));
}

#[test]
fn escaping_one_character() {
    let cases = [
        ('a', "a"),
        (' ', " "),
        ('~', "~"),
        ('\t', "\\t"),
        ('\r', "\\r"),
        ('\n', "\\n"),
        ('\'', "\\'"),
        ('"', "\\\""),
        ('\\', "\\\\"),
        ('\u{0}', "\\u{0}"),
        ('\u{f}', "\\u{f}"),
        ('\u{10}', "\\u{10}"),
        ('\u{7f}', "\\u{7f}"),
        ('\u{abc}', "\\u{abc}"),
        ('\u{10ffff}', "\\u{10ffff}"),
    ];
    for (c, expected) in cases {
        let mut out = String::from("<");
        push_escaped(&mut out, c);
        assert_eq!(out, format!("<{}", expected));
    }
}

#[test]
fn escaping_every_character_agrees_with_the_standard_library() {
    for code in 0..=0x10ffff_u32 {
        if let Some(c) = char::from_u32(code) {
            let mut out = String::new();
            push_escaped(&mut out, c);
            let expected: String = c.escape_default().collect();
            assert_eq!(out, expected, "U+{:04X}", code);
        }
    }
}

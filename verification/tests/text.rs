use enum_ts::text::{
    contains_bytes, is_space, reindented, same_text, slice, split_lines, string_of, to_chars,
    trimmed,
};

#[test]
fn reindented_pads_after_every_line_break() {
    assert_eq!(reindented("a\nb\n\nc", "  "), "a\n  b\n  \n  c");
    assert_eq!(reindented("\n", "\t"), "\n\t");
    assert_eq!(reindented("no break", "    "), "no break");
    assert_eq!(reindented("", "    "), "");
    assert_eq!(reindented("a\nb", ""), "a\nb");
}

#[test]
fn trimmed_removes_whitespace_at_both_ends() {
    assert_eq!(trimmed("\n  a b \t\r\n"), "a b");
    assert_eq!(trimmed("a"), "a");
    assert_eq!(trimmed(""), "");
    assert_eq!(trimmed(" \n\t "), "");
    assert_eq!(trimmed("\u{a0}\u{3000}x\u{2028}\u{85}"), "x");
    assert_eq!(trimmed("\u{200b}x"), "\u{200b}x");
}

#[test]
fn is_space_agrees_with_the_standard_library() {
    let mut code: u32 = 0;
    while code <= 0x3100 {
        if let Some(c) = char::from_u32(code) {
            assert_eq!(is_space(c), c.is_whitespace(), "U+{:04X}", code);
        }
        code += 1;
    }
}

#[test]
fn split_lines_agrees_with_the_standard_library() {
    let samples = [
        "",
        "\n",
        "a",
        "a\n",
        "a\nb",
        "a\r\nb\r\n",
        "a\rb\n",
        "a\n\nb",
        "\r",
        "\r\n",
        "a\r",
        "\n\n",
        "x\n\r\ny",
    ];
    for sample in samples {
        let expected: Vec<String> = sample.lines().map(|line| line.to_string()).collect();
        assert_eq!(split_lines(sample), expected, "{:?}", sample);
    }
}

#[test]
fn split_lines_exact() {
    assert_eq!(split_lines("a\r\nb\n\nc\r"), vec!["a", "b", "", "c\r"]);
    assert!(split_lines("").is_empty());
}

#[test]
fn contains_bytes_finds_a_run_of_bytes() {
    assert!(contains_bytes(b"hello world", b"o w"));
    assert!(contains_bytes(b"hello", b"hello"));
    assert!(contains_bytes(b"hello", b""));
    assert!(contains_bytes(b"", b""));
    assert!(contains_bytes(b"aab", b"ab"));
    assert!(!contains_bytes(b"hello", b"hello!"));
    assert!(!contains_bytes(b"hello", b"lol"));
    assert!(!contains_bytes(b"", b"a"));
}

#[test]
fn slice_cuts_between_byte_offsets() {
    assert_eq!(slice("héllo", 0, 3), "hé");
    assert_eq!(slice("héllo", 3, 6), "llo");
    assert_eq!(slice("héllo", 1, 3), "é");
    assert_eq!(slice("héllo", 6, 6), "");
    assert_eq!(slice("héllo", 0, 6), "héllo");
}

#[test]
fn same_text_compares_characters() {
    assert!(same_text("null", "null"));
    assert!(!same_text("null", "Null"));
    assert!(!same_text("null", "nul"));
    assert!(same_text("", ""));
}

#[test]
fn chars_and_back() {
    let chars = to_chars("héllo");
    assert_eq!(chars, vec!['h', 'é', 'l', 'l', 'o']);
    assert_eq!(string_of(&chars, 1, 4), "éll");
    assert_eq!(string_of(&chars, 2, 2), "");
    assert_eq!(string_of(&chars, 0, 5), "héllo");
}

use ypbank_records::text::{
    chars_of, push_bytes, push_chars, push_str, push_utf8, same_chars, spells, string_of,
    trim_bounds, whitespace,
};

fn chars(s: &str) -> Vec<char> {
    s.chars().collect()
}

fn trimmed(s: &str) -> String {
    let text = chars(s);
    let (start, end) = trim_bounds(&text);
    text[start..end].iter().collect()
}

#[test]
fn whitespace_is_what_std_calls_whitespace() {
    for code in 0..=0x10FFFFu32 {
        if let Some(c) = char::from_u32(code) {
            assert_eq!(whitespace(c), c.is_whitespace(), "U+{code:04X}");
        }
    }
}

#[test]
fn trimming_agrees_with_std() {
    let samples = [
        "",
        " ",
        "\t \r\n",
        "a",
        " a",
        "a ",
        "  a b  ",
        "\u{00A0}TX_ID: 5\u{3000}",
        "\u{2003}\u{2028}x\u{0085}",
        "no space at all",
        " \u{200B} ",
        "# comment  ",
    ];
    for s in samples {
        assert_eq!(trimmed(s), s.trim(), "{s:?}");
    }
}

#[test]
fn trim_bounds_of_blank_text_are_empty() {
    let text = chars("   ");
    let (start, end) = trim_bounds(&text);
    assert_eq!(start, end);
    let none = chars("");
    assert_eq!(trim_bounds(&none), (0, 0));
}

#[test]
fn trim_bounds_keep_inner_whitespace() {
    let text = chars("  a  b ");
    assert_eq!(trim_bounds(&text), (2, 6));
}

#[test]
fn strings_and_characters_convert_both_ways() {
    for s in ["", "TX_ID", "\"User transfer\"", "пополнение счёта", "a\u{1F600}b"] {
        let text = chars_of(s);
        assert_eq!(text, chars(s));
        assert_eq!(string_of(&text), s);
    }
}

#[test]
fn same_chars_compares_length_and_content() {
    assert!(same_chars(&chars("abc"), &chars("abc")));
    assert!(same_chars(&chars(""), &chars("")));
    assert!(!same_chars(&chars("abc"), &chars("abd")));
    assert!(!same_chars(&chars("abc"), &chars("ab")));
    assert!(!same_chars(&chars("ab"), &chars("abc")));
}

#[test]
fn spells_is_case_sensitive() {
    assert!(spells(&chars("STATUS"), "STATUS"));
    assert!(!spells(&chars("status"), "STATUS"));
    assert!(!spells(&chars("STATUS "), "STATUS"));
}

#[test]
fn pushes_append_in_order() {
    let mut text = vec!['a'];
    push_str(&mut text, "bc");
    push_chars(&mut text, &['d', 'e']);
    assert_eq!(text, chars("abcde"));

    let mut bytes = vec![1u8];
    push_bytes(&mut bytes, &[2, 3]);
    assert_eq!(bytes, vec![1, 2, 3]);
}

#[test]
fn push_utf8_appends_the_utf8_encoding() {
    let mut bytes = b"x=".to_vec();
    push_utf8(&mut bytes, &chars("é€😀\n"));
    assert_eq!(bytes, "x=é€😀\n".as_bytes());
}

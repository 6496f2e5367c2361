use nvm_switch::decimal::{parse_decimal, push_decimal};
use nvm_switch::text::{
    chars_of, is_whitespace, join_chars, push_chars, push_str, same_chars, slice_of, spells,
    split_chars, starts_with, string_of, trim_chars,
};

fn chars(s: &str) -> Vec<char> {
    s.chars().collect()
}

fn pieces(s: &str, sep: char) -> Vec<String> {
    split_chars(&chars(s), sep).iter().map(|piece| piece.iter().collect()).collect()
}

#[test]
fn characters_and_strings_convert_both_ways() {
    assert_eq!(chars_of("a\u{e9}\u{1f600}"), vec!['a', '\u{e9}', '\u{1f600}']);
    assert_eq!(chars_of(""), Vec::<char>::new());
    assert_eq!(string_of(&vec!['n', 'o', 'd', 'e']), "node");
    assert_eq!(string_of(&vec![]), "");
    assert_eq!(string_of(&chars_of("/home/\u{fc}ser")), "/home/\u{fc}ser");
}

#[test]
fn push_appends_in_order() {
    let mut out = chars("ab");
    push_str(&mut out, "cd");
    push_chars(&mut out, &chars("ef"));
    assert_eq!(out, chars("abcdef"));
}

#[test]
fn split_agrees_with_the_standard_library() {
    for text in ["", ":", "a", "a:b", ":a", "a:", "a::b", "::", "/usr/bin:/bin:", "a:b:c:d"] {
        let expected: Vec<String> = text.split(':').map(|piece| piece.to_string()).collect();
        assert_eq!(pieces(text, ':'), expected, "{:?}", text);
    }
}

#[test]
fn split_keeps_empty_pieces() {
    assert_eq!(pieces("", '.'), vec![""]);
    assert_eq!(pieces("1..3", '.'), vec!["1", "", "3"]);
    assert_eq!(pieces(".", '.'), vec!["", ""]);
}

#[test]
fn join_puts_one_separator_between_neighbours() {
    assert_eq!(join_chars(&vec![], ':'), chars(""));
    assert_eq!(join_chars(&vec![chars("a")], ':'), chars("a"));
    assert_eq!(join_chars(&vec![chars("a"), chars(""), chars("b")], ':'), chars("a::b"));
    assert_eq!(join_chars(&vec![chars(""), chars("")], ':'), chars(":"));
}

#[test]
fn join_undoes_split() {
    for text in ["", ":", "a:b", "a::b:", ":/usr/bin:/bin"] {
        assert_eq!(join_chars(&split_chars(&chars(text), ':'), ':'), chars(text));
    }
}

#[test]
fn white_space_is_what_the_standard_library_takes_for_it() {
    let mut code = 0u32;
    while code <= 0x10ffff {
        if let Some(c) = char::from_u32(code) {
            assert_eq!(is_whitespace(c), c.is_whitespace(), "U+{:04X}", code);
        }
        code += 1;
    }
}

#[test]
fn trim_agrees_with_the_standard_library() {
    for text in [
        "",
        " ",
        "v12",
        "  v12.4.5\n",
        "\t\r\n lts/iron \u{a0}\u{2003}",
        "a b",
        " a b ",
        "\u{3000}node\u{2028}\u{2029}",
        "\u{200b}x\u{200b}",
        "\u{85}\u{1680}default\u{202f}\u{205f}",
        "\n\n\n",
    ] {
        assert_eq!(string_of(&trim_chars(&chars(text))), text.trim(), "{:?}", text);
    }
}

#[test]
fn comparisons_of_characters() {
    assert!(same_chars(&chars("abc"), &chars("abc")));
    assert!(!same_chars(&chars("abc"), &chars("abd")));
    assert!(!same_chars(&chars("abc"), &chars("ab")));
    assert!(same_chars(&chars(""), &chars("")));
    assert!(spells(&chars("node"), "node"));
    assert!(!spells(&chars("node "), "node"));
    assert!(starts_with(&chars("lts/iron"), &chars("lts/")));
    assert!(starts_with(&chars("lts/"), &chars("lts/")));
    assert!(starts_with(&chars("x"), &chars("")));
    assert!(!starts_with(&chars("lts"), &chars("lts/")));
    assert!(!starts_with(&chars("lTs/iron"), &chars("lts/")));
}

#[test]
fn slice_copies_a_range() {
    assert_eq!(slice_of(&chars("abcdef"), 2, 4), chars("cd"));
    assert_eq!(slice_of(&chars("abcdef"), 0, 6), chars("abcdef"));
    assert_eq!(slice_of(&chars("abcdef"), 3, 3), chars(""));
}

#[test]
fn decimal_numbers_are_read() {
    assert_eq!(parse_decimal(&chars("0"), 10), Some(0));
    assert_eq!(parse_decimal(&chars("10"), 10), Some(10));
    assert_eq!(parse_decimal(&chars("11"), 10), None);
    assert_eq!(parse_decimal(&chars("0000000000000000000000000000000007"), 10), Some(7));
    assert_eq!(parse_decimal(&chars(""), 10), None);
    assert_eq!(parse_decimal(&chars("+1"), 10), None);
    assert_eq!(parse_decimal(&chars("1a"), 10), None);
    assert_eq!(parse_decimal(&chars("99999999999999999999a"), 10), None);
    assert_eq!(parse_decimal(&chars("18446744073709551615"), u64::MAX), Some(u64::MAX));
    assert_eq!(parse_decimal(&chars("18446744073709551616"), u64::MAX), None);
    assert_eq!(parse_decimal(&chars("4294967295"), 4294967295), Some(4294967295));
    assert_eq!(parse_decimal(&chars("4294967296"), 4294967295), None);
}

#[test]
fn decimal_numbers_are_written() {
    for n in [0u32, 1, 9, 10, 11, 99, 100, 12345, 4294967295] {
        let mut out = chars("v");
        push_decimal(&mut out, n);
        assert_eq!(string_of(&out), format!("v{}", n));
    }
}

use gptui::decimal::decimal_of;
use gptui::decimal::parse_decimal;
use gptui::lines::join;
use gptui::lines::lines;
use gptui::text::chars_of;
use gptui::text::is_whitespace;
use gptui::text::starts_with;
use gptui::text::str_eq;
use gptui::text::string_of;
use gptui::text::strip_prefixes;
use gptui::text::trim;

fn v(s: &str) -> Vec<char> {
    s.chars().collect()
}

fn s(v: &Vec<char>) -> String {
    v.iter().collect()
}

#[test]
fn white_space_is_what_the_standard_library_says() {
    for n in 0..=0x10FFFFu32 {
        if let Some(c) = char::from_u32(n) {
            assert_eq!(is_whitespace(c), c.is_whitespace(), "U+{n:04X}");
        }
    }
}

#[test]
fn trim_agrees_with_the_standard_library() {
    for text in [
        "",
        " ",
        "\r\n\t ",
        "a",
        " a",
        "a ",
        "  a b  ",
        "\u{2003}x\u{3000}",
        "\u{feff}x",
    ] {
        assert_eq!(s(&trim(&v(text))), text.trim(), "{text:?}");
    }
}

#[test]
fn lines_agree_with_the_standard_library() {
    for text in [
        "",
        "\n",
        "a",
        "a\n",
        "a\nb",
        "a\r\nb\r\n",
        "a\r",
        "\r\n\r\n",
        "a\n\nb\n\n",
        "x\r\ry\n",
    ] {
        let got: Vec<String> = lines(&v(text)).iter().map(s).collect();
        let expected: Vec<String> = text.lines().map(|l| l.to_string()).collect();
        assert_eq!(got, expected, "{text:?}");
    }
}

#[test]
fn repeated_prefixes_are_taken_away() {
    assert_eq!(s(&strip_prefixes(&v("data:data: x"), &v("data:"))), " x");
    assert_eq!(s(&strip_prefixes(&v("data"), &v("data:"))), "data");
    assert_eq!(s(&strip_prefixes(&v("abc"), &v(""))), "abc");
    assert_eq!(
        "data:data: x".trim_start_matches("data:"),
        s(&strip_prefixes(&v("data:data: x"), &v("data:")))
    );
    assert!(starts_with(&v("abc"), &v("ab")));
    assert!(starts_with(&v("abc"), &v("")));
    assert!(!starts_with(&v("ab"), &v("abc")));
}

#[test]
fn pieces_are_joined() {
    assert_eq!(s(&join(&vec![], &v(", "))), "");
    assert_eq!(s(&join(&vec![v("a")], &v(", "))), "a");
    assert_eq!(s(&join(&vec![v("a"), v(""), v("c")], &v(", "))), "a, , c");
}

#[test]
fn strings_and_characters_convert() {
    assert_eq!(chars_of("héllo"), v("héllo"));
    assert_eq!(string_of(&v("héllo")), "héllo");
    assert!(str_eq("a", "a"));
    assert!(!str_eq("a", "A"));
}

#[test]
fn numbers_are_written_and_read() {
    assert_eq!(s(&decimal_of(0)), "0");
    assert_eq!(s(&decimal_of(7)), "7");
    assert_eq!(s(&decimal_of(1234567890)), "1234567890");
    assert_eq!(s(&decimal_of(usize::MAX)), usize::MAX.to_string());
    assert_eq!(parse_decimal(&v("0")), Some(0));
    assert_eq!(parse_decimal(&v("0042")), Some(42));
    assert_eq!(parse_decimal(&v(&usize::MAX.to_string())), Some(usize::MAX));
    assert_eq!(parse_decimal(&v("99999999999999999999999999")), None);
    assert_eq!(parse_decimal(&v("")), None);
    assert_eq!(parse_decimal(&v("12a")), None);
    assert_eq!(parse_decimal(&v("+1")), None);
    assert_eq!(parse_decimal(&v("٣")), None);
}

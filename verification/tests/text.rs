use clasangd::decimal::{parse_u64, push_decimal};
use clasangd::order::text_precedes;
use clasangd::text::{chars_of, lines, same_text, split, split_lines, starts_with, trim};

fn chars(s: &str) -> Vec<char> {
    s.chars().collect()
}

fn text(v: &[char]) -> String {
    v.iter().collect()
}

#[test]
fn chars_of_gives_the_characters() {
    assert_eq!(chars_of("a\u{e9}\u{1f600}"), vec!['a', '\u{e9}', '\u{1f600}']);
    assert_eq!(chars_of(""), Vec::<char>::new());
    assert!(same_text("abc", "abc"));
    assert!(!same_text("abc", "abd"));
}

#[test]
fn split_keeps_empty_pieces() {
    let pieces: Vec<String> = split(&chars("a::b:"), ':').iter().map(|p| text(p)).collect();
    assert_eq!(pieces, vec!["a", "", "b", ""]);
    let one: Vec<String> = split(&chars(""), ':').iter().map(|p| text(p)).collect();
    assert_eq!(one, vec![""]);
}

#[test]
fn lines_are_those_of_the_standard_library() {
    for s in ["", "a", "a\n", "a\r\n", "a\r", "a\n\nb", "\n", "\r\n", "a\r\r\n", "a\nb\r\nc\r", "\n\n"] {
        let expected: Vec<String> = s.lines().map(|l| l.to_string()).collect();
        assert_eq!(lines(s), expected, "lines of {:?}", s);
        let got: Vec<String> = split_lines(&chars(s)).iter().map(|l| text(l)).collect();
        assert_eq!(got, expected);
    }
}

#[test]
fn trim_takes_white_space_from_both_ends() {
    assert_eq!(text(&trim(&chars("  \t 12 3\r\n"))), "12 3");
    assert_eq!(text(&trim(&chars("   "))), "");
    assert_eq!(text(&trim(&chars(""))), "");
    assert_eq!(text(&trim(&chars("x"))), "x");
    assert_eq!(text(&trim(&chars("\u{a0}x"))), "\u{a0}x");
}

#[test]
fn starts_with_compares_prefixes() {
    assert!(starts_with(&chars("file:///a"), &chars("file://")));
    assert!(!starts_with(&chars("file:/"), &chars("file://")));
    assert!(starts_with(&chars("abc"), &chars("")));
}

#[test]
fn numerals_are_read_as_the_standard_library_reads_them() {
    for s in ["0", "7", "007", "+7", "18446744073709551615", "18446744073709551616", "", "+", "-1",
        "1a", " 1", "99999999999999999999999", "\u{661}"]
    {
        assert_eq!(parse_u64(&chars(s)), s.parse::<u64>().ok(), "numeral {:?}", s);
    }
}

#[test]
fn numbers_are_written_without_leading_zeros() {
    for n in [0u64, 9, 10, 99, 100, 12345, u64::MAX] {
        let mut buf = vec!['x'];
        push_decimal(&mut buf, n);
        assert_eq!(text(&buf), format!("x{}", n));
        assert_eq!(parse_u64(&buf[1..]), Some(n));
    }
}

#[test]
fn order_of_texts_is_that_of_strings() {
    let samples = ["", "a", "ab", "b", "B", "a\u{e9}", "a\u{1f600}", "file:///x", "file:///x/y"];
    for a in samples {
        for b in samples {
            assert_eq!(text_precedes(&chars(a), &chars(b)), a < b, "{:?} and {:?}", a, b);
        }
    }
}

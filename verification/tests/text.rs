use romajiagent::number::{float_literal, parse_i32, parse_unsigned, NumberError};
use romajiagent::options::strip_prefixes;
use romajiagent::search::{contains_text, join_texts, lines_of, starts_with_text};
use romajiagent::text::{blank, chars_of, string_of, trimmed};

#[test]
fn white_space_is_that_of_unicode() {
    for code in 0u32..0x11_0000 {
        if let Some(c) = char::from_u32(code) {
            assert_eq!(blank(&c.to_string()), c.is_whitespace(), "{:x}", code);
        }
    }
}

#[test]
fn trimmed_text_keeps_inner_white_space() {
    assert_eq!(trimmed(" \u{3000}a  b\r\n"), "a  b");
    assert_eq!(trimmed(""), "");
    assert_eq!(trimmed(" \t "), "");
}

#[test]
fn lines_end_with_line_feeds() {
    let lines = |s: &str| -> Vec<String> {
        lines_of(&chars_of(s)).iter().map(|line| string_of(line)).collect()
    };
    for text in ["", "a", "a\n", "a\r\nb", "a\n\nb\n", "\r\n", "a\r", "a\rb\n", "\n\r"] {
        let expected: Vec<String> = text.lines().map(str::to_string).collect();
        assert_eq!(lines(text), expected, "{text:?}");
    }
}

#[test]
fn search_is_that_of_str() {
    for (text, pattern) in [("今日は", "日"), ("aab", "ab"), ("", ""), ("a", ""), ("a", "aa")] {
        assert_eq!(contains_text(text, pattern), text.contains(pattern));
        assert_eq!(starts_with_text(text, pattern), text.starts_with(pattern));
    }
}

#[test]
fn texts_are_joined_by_the_separator() {
    let parts: Vec<String> = vec!["a".into(), String::new(), "c".into()];
    assert_eq!(join_texts(&parts, ", "), "a, , c");
    assert_eq!(join_texts(&[], ", "), "");
}

#[test]
fn prefixes_are_stripped_as_often_as_they_stand() {
    assert_eq!(strip_prefixes("--model=--model=x", "--model="), "x");
    assert_eq!(strip_prefixes("--model=", "--model="), "");
    assert_eq!(strip_prefixes("x--model=", "--model="), "x--model=");
}

#[test]
fn unsigned_numbers_are_those_of_std() {
    let texts = [
        "", "0", "7", "+7", "-7", "-0", "+", "-", "007", "4294967295", "4294967296", "1_0", " 1",
        "1 ", "１", "99999999999999999999999999",
    ];
    for text in texts {
        let ours = parse_unsigned(text, u64::from(u32::MAX));
        match text.parse::<u32>() {
            Ok(n) => assert_eq!(ours, Ok(u64::from(n)), "{text:?}"),
            Err(e) => assert_eq!(ours.unwrap_err().message(), e.to_string(), "{text:?}"),
        }
    }
}

#[test]
fn signed_numbers_are_those_of_std() {
    let texts = [
        "", "0", "-0", "+0", "7", "+7", "-7", "+", "-", "2147483647", "2147483648",
        "-2147483648", "-2147483649", "--1", "+-1", "x", "1x", "99999999999999", "-99999999999999",
    ];
    for text in texts {
        let ours = parse_i32(text);
        match text.parse::<i32>() {
            Ok(n) => assert_eq!(ours, Ok(n), "{text:?}"),
            Err(e) => assert_eq!(ours.unwrap_err().message(), e.to_string(), "{text:?}"),
        }
    }
    assert_eq!(parse_i32("-99999999999999"), Err(NumberError::TooSmall));
    assert_eq!(parse_i32("99999999999999"), Err(NumberError::TooLarge));
    assert_eq!(parse_i32("x"), Err(NumberError::InvalidDigit));
    assert_eq!(parse_i32(""), Err(NumberError::Empty));
}

#[test]
fn float_literals_are_those_of_std() {
    let texts = [
        "", "0", "0.1", ".5", "5.", ".", "-", "+", "-.5", "+5.", "1e5", "1E-5", "1e", "e5", "1e+",
        "1.5e+10", "inf", "-inf", "+INF", "infinity", "Infinity", "infinit", "nan", "NaN", "-nan",
        "nan1", "1.2.3", "0x1", "1_0", " 1", "1 ", "１", "--1", "1-", "1e5.0", ".e1", "1.e1",
        "100", "-0", "00.00",
    ];
    for text in texts {
        assert_eq!(float_literal(text), text.parse::<f32>().is_ok(), "{text:?}");
        assert_eq!(float_literal(text), text.parse::<f64>().is_ok(), "{text:?}");
    }
}

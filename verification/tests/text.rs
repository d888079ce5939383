use httpd::text::{
    chars_of, equals, parse_unsigned, push_decimal, same, split, split_words, string_of,
};

fn split_strings(text: &str, pattern: &str) -> Vec<String> {
    let text = chars_of(text);
    let pattern = chars_of(pattern);
    split(&text, &pattern).iter().map(|piece| string_of(piece)).collect()
}

fn word_strings(text: &str) -> Vec<String> {
    let text = chars_of(text);
    split_words(&text).iter().map(|word| string_of(word)).collect()
}

#[test]
fn characters_and_back() {
    for text in ["", "abc", "\r\n", "h\u{e9}llo \u{1f600}"] {
        assert_eq!(chars_of(text), text.chars().collect::<Vec<char>>());
        assert_eq!(string_of(&chars_of(text)), text);
    }
}

#[test]
fn equal_texts() {
    assert!(equals(&chars_of("Host"), "Host"));
    assert!(!equals(&chars_of("Host"), "host"));
    assert!(!equals(&chars_of("Hos"), "Host"));
    assert!(same("", ""));
    assert!(!same("", "a"));
}

#[test]
fn split_gives_what_stands_between() {
    assert_eq!(split_strings("a\r\nb\r\n\r\n", "\r\n"), ["a", "b", "", ""]);
    assert_eq!(split_strings("", ": "), [""]);
    assert_eq!(split_strings("key: value: more", ": "), ["key", "value", "more"]);
    assert_eq!(split_strings("aaaa", "aa"), ["", "", ""]);
    assert_eq!(split_strings("aaa", "aa"), ["", "a"]);
}

#[test]
fn split_agrees_with_std() {
    for text in ["", "a", "\r\n", "\r\r\n\n", "a\r\nb", "x: y: : z", "::: ", "aaaaa", "\u{e9}: \u{e9}"] {
        for pattern in ["\r\n", ": ", "aa", "/", "\u{e9}"] {
            let expected: Vec<&str> = text.split(pattern).collect();
            assert_eq!(split_strings(text, pattern), expected);
        }
    }
}

#[test]
fn glued_pieces_are_the_text() {
    for text in ["", "a\r\nb\r\n", "\r\n\r\n", "no break"] {
        assert_eq!(split_strings(text, "\r\n").join("\r\n"), text);
    }
}

#[test]
fn words_agree_with_std() {
    for text in ["", " ", "GET / HTTP/1.1", "  a\tb\nc\x0cd\re  ", "a\x0bb", "\u{a0}x y"] {
        let expected: Vec<&str> = text.split_ascii_whitespace().collect();
        assert_eq!(word_strings(text), expected);
    }
}

#[test]
fn unsigned_numbers() {
    assert_eq!(parse_unsigned(&chars_of("0")), Some(0));
    assert_eq!(parse_unsigned(&chars_of("+17")), Some(17));
    assert_eq!(parse_unsigned(&chars_of("007")), Some(7));
    for text in ["", "+", "-", "-1", "+-1", "++1", "1 ", " 1", "1a", "\u{661}"] {
        assert_eq!(parse_unsigned(&chars_of(text)), None);
    }
}

#[test]
fn unsigned_numbers_agree_with_std() {
    let biggest = usize::MAX.to_string();
    let too_big = format!("{}0", biggest);
    let above = format!("{}", usize::MAX as u128 + 1);
    for text in [biggest.as_str(), too_big.as_str(), above.as_str(), "12345", "+0", "9x"] {
        assert_eq!(parse_unsigned(&chars_of(text)), text.parse::<usize>().ok());
    }
}

#[test]
fn decimal_is_read_back() {
    for n in [0, 7, 10, 99, 100, 404, 65536, usize::MAX] {
        let mut out = String::from("n=");
        push_decimal(&mut out, n);
        assert_eq!(out, format!("n={}", n));
        assert_eq!(parse_unsigned(&chars_of(&out[2..])), Some(n));
    }
}

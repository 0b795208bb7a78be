use tokens::chars::{
    is_alphanumeric, is_digit, is_escapable, is_exponent_char, is_hex_digit, is_white_space,
};
use tokens::expr::{is_number, read_expr};
use tokens::syntax::{Token, Unit};
use tokens::tokens::{is_ident, is_newline_char};
use unicode_xid::UnicodeXID;

#[test]
fn white_space_is_that_of_the_standard_library() {
    for c in '\0'..=char::MAX {
        assert_eq!(is_white_space(c), c.is_whitespace(), "{:?}", c);
    }
}

#[test]
fn classes_of_ascii_are_those_of_the_standard_library() {
    for c in '\0'..=char::MAX {
        assert_eq!(is_digit(c), c.is_ascii_digit(), "{:?}", c);
        assert_eq!(is_hex_digit(c), c.is_ascii_hexdigit(), "{:?}", c);
        assert_eq!(is_alphanumeric(c), c.is_ascii_alphanumeric(), "{:?}", c);
        assert_eq!(is_exponent_char(c), c.eq_ignore_ascii_case(&'e'), "{:?}", c);
        assert_eq!(is_escapable(c), "[]\\/*_`\"#~".contains(c), "{:?}", c);
    }
}

#[test]
fn newline_chars_are_these_seven() {
    let newlines: String = ('\0'..=char::MAX).filter(|&c| is_newline_char(c)).collect();
    assert_eq!(newlines, "\n\u{b}\u{c}\r\u{85}\u{2028}\u{2029}");
}

#[test]
fn identifiers_start_and_go_on_by_unicode() {
    for c in '\0'..=char::MAX {
        let also = c == '.' || c == '-' || c == '_';
        assert_eq!(is_ident(&c.to_string()), also || c.is_xid_start(), "{:?}", c);
        assert_eq!(is_ident(&format!("a{}", c)), also || c.is_xid_continue(), "{:?}", c);
    }
}

#[test]
fn words_that_are_and_are_not_identifiers() {
    for word in ["a", "A1", "_", "-", ".", "..", "größe", "日本", "a-b.c_d", "x١"] {
        assert!(is_ident(word), "{:?}", word);
    }
    for word in ["", "1", "1a", "a b", "a:", "△", "a△", "🌍", "%", "١x"] {
        assert!(!is_ident(word), "{:?}", word);
    }
}

#[test]
fn prefixes_of_identifiers_are_identifiers_and_so_are_joined_ones() {
    let words = ["a", "größe", "日本", "-x.1", "_", "x١"];
    for a in words {
        for (end, _) in a.char_indices().skip(1) {
            assert!(is_ident(&a[..end]), "{:?}", &a[..end]);
        }
        for b in words {
            assert!(is_ident(&format!("{}{}", a, b)), "{:?} {:?}", a, b);
        }
    }
    // What an identifier starts with, it can go on with.
    for c in '\0'..=char::MAX {
        assert!(!c.is_xid_start() || c.is_xid_continue(), "{:?}", c);
    }
}

/// Whether the library finds a number exactly where the standard library does.
fn agrees(word: &str) {
    assert_eq!(is_number(word), word.parse::<f64>().is_ok(), "{:?}", word);
}

#[test]
fn numbers_are_those_of_the_standard_library_in_all_short_words() {
    let letters: Vec<char> = "05.eE+-inf_".chars().collect();
    let mut words: Vec<String> = vec![String::new()];
    for _ in 0..5 {
        let mut longer: Vec<String> = vec![];
        for word in &words {
            agrees(word);
            for c in &letters {
                longer.push(format!("{}{}", word, c));
            }
        }
        words = longer;
    }
    for word in &words {
        agrees(word);
    }
}

#[test]
fn numbers_are_those_of_the_standard_library_in_longer_words() {
    for word in [
        "inf", "INF", "iNf", "infinity", "Infinity", "INFINITY", "infinit", "infinityy", "nan",
        "NaN", "NAN", "nano", "+inf", "-NaN", "+-inf", "--1", "+", "-", "1e400", "1e-400",
        "123456789012345678901234567890", "0x10", "1,5", "1 ", " 1", "1e5.5", "1.2.3", ".5e-3",
        "5.e+3", "1e", "1e+", "e5", ".e5", "1_000", "١", "½", "1e5e5", "ınf", "ınﬁnity", "K", "0.",
    ] {
        agrees(word);
    }
}

#[test]
fn words_of_a_header() {
    assert_eq!(read_expr("true"), Token::Bool(true));
    assert_eq!(read_expr("false"), Token::Bool(false));
    assert_eq!(read_expr("True"), Token::Ident("True"));
    assert_eq!(read_expr("3.14"), Token::Number { digits: "3.14", percent: false });
    assert_eq!(read_expr("inf"), Token::Number { digits: "inf", percent: false });
    assert_eq!(read_expr("25%"), Token::Number { digits: "25", percent: true });
    assert_eq!(read_expr("%"), Token::Invalid("%"));
    assert_eq!(read_expr("25%%"), Token::Invalid("25%%"));
    assert_eq!(read_expr("a%"), Token::Invalid("a%"));
    assert_eq!(read_expr("12pt"), Token::Length { digits: "12", unit: Unit::Pt });
    assert_eq!(read_expr("1.mm"), Token::Length { digits: "1.", unit: Unit::Mm });
    assert_eq!(read_expr(".5cm"), Token::Length { digits: ".5", unit: Unit::Cm });
    assert_eq!(read_expr("1e2in"), Token::Length { digits: "1e2", unit: Unit::In });
    assert_eq!(read_expr("pt"), Token::Ident("pt"));
    assert_eq!(read_expr("12px"), Token::Invalid("12px"));
    assert_eq!(read_expr("12PT"), Token::Invalid("12PT"));
    assert_eq!(read_expr("12 pt"), Token::Invalid("12 pt"));
    assert_eq!(read_expr("größe"), Token::Ident("größe"));
    assert_eq!(read_expr("5ü%"), Token::Invalid("5ü%"));
    assert_eq!(read_expr(""), Token::Invalid(""));
}

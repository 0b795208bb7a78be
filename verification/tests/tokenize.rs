#![allow(non_snake_case)]

use tokens::syntax::{Pos, Span, Spanned, Token, Unit};
use tokens::tokens::TokenMode::{self, Body, Header};
use tokens::tokens::Tokens;

use Token::{
    Backslash, Bool, Chain, Colon, Comma, Equals, Hashtag, Hyphen, LeftBrace, LeftBracket,
    LeftParen, Plus, RightBrace, RightBracket, RightParen, Slash, Star, Underscore,
};

/// A token whose number, if it has one, is a value.
#[derive(Debug, Copy, Clone, PartialEq)]
enum Exp<'a> {
    Tok(Token<'a>),
    Num(f64),
    Len(f64, Unit),
}

use Exp::{Len, Num};

const ZERO: Span = Span { start: Pos { line: 0, column: 0 }, end: Pos { line: 0, column: 0 } };

impl<'a> From<Token<'a>> for Exp<'a> {
    fn from(token: Token<'a>) -> Self {
        match token {
            Token::Number { digits, percent: false } => Num(digits.parse().unwrap()),
            Token::Number { digits, percent: true } => {
                Num(digits.parse::<f64>().unwrap() / 100.0)
            }
            Token::Length { digits, unit } => Len(digits.parse().unwrap(), unit),
            Token::Raw { backticks, lang, raw, terminated } => Exp::Tok(Token::Raw {
                backticks,
                lang: lang.map(|tag| Spanned { v: tag.v, span: ZERO }),
                raw,
                terminated,
            }),
            token => Exp::Tok(token),
        }
    }
}

fn K(token: Token) -> Exp {
    Exp::Tok(token)
}
fn S<'a>(newlines: usize) -> Exp<'a> {
    K(Token::Space(newlines))
}
fn LC(text: &str) -> Exp {
    K(Token::LineComment(text))
}
fn BC(text: &str) -> Exp {
    K(Token::BlockComment(text))
}
fn T(text: &str) -> Exp {
    K(Token::Text(text))
}
fn Id(text: &str) -> Exp {
    K(Token::Ident(text))
}
fn Invalid(text: &str) -> Exp {
    K(Token::Invalid(text))
}
fn Hex(text: &str) -> Exp {
    K(Token::Hex(text))
}
fn Str(string: &str, terminated: bool) -> Exp {
    K(Token::Str { string, terminated })
}
fn Raw<'a>(
    backticks: usize,
    lang: Option<Spanned<&'a str>>,
    raw: &'a str,
    terminated: bool,
) -> Exp<'a> {
    K(Token::Raw { backticks, lang, raw, terminated })
}
fn Lang(tag: &str) -> Option<Spanned<&str>> {
    Some(Spanned { v: tag, span: ZERO })
}
fn UE(sequence: &str, terminated: bool) -> Exp {
    K(Token::UnicodeEscape { sequence, terminated })
}

/// Check the tokens of some source code without their spans.
fn t(mode: TokenMode, src: &str, exp: Vec<Exp>) {
    let found: Vec<Exp> =
        Tokens::new(src, mode).collect().into_iter().map(|token| Exp::from(token.v)).collect();
    assert_eq!(found, exp, "{:?}", src);

    let mut tokens = Tokens::new(src, mode);
    for token in exp {
        assert_eq!(tokens.next().map(|token| Exp::from(token.v)), Some(token), "{:?}", src);
    }
    assert_eq!(tokens.next(), None, "{:?}", src);
    assert_eq!(tokens.index(), src.len(), "{:?}", src);
}

fn s(sl: usize, sc: usize, el: usize, ec: usize, v: Exp) -> Spanned<Exp> {
    let start = Pos { line: sl, column: sc };
    let end = Pos { line: el, column: ec };
    Spanned { v, span: Span { start, end } }
}

/// Check the tokens of some source code with their spans.
fn ts(mode: TokenMode, src: &str, exp: Vec<Spanned<Exp>>) {
    let found: Vec<Spanned<Exp>> = Tokens::new(src, mode)
        .collect()
        .into_iter()
        .map(|token| Spanned { v: Exp::from(token.v), span: token.span })
        .collect();
    assert_eq!(found, exp, "{:?}", src);
}

#[test]
fn test_tokenize_whitespace() {
    t(Body, "", vec![]);
    t(Body, " ", vec![S(0)]);
    t(Body, "    ", vec![S(0)]);
    t(Body, "\t", vec![S(0)]);
    t(Body, "  \t", vec![S(0)]);
    t(Body, "\n", vec![S(1)]);
    t(Body, "\n ", vec![S(1)]);
    t(Body, "  \n", vec![S(1)]);
    t(Body, "  \n   ", vec![S(1)]);
    t(Body, "\r\n", vec![S(1)]);
    t(Body, "  \n\t \n  ", vec![S(2)]);
    t(Body, "\n\r", vec![S(2)]);
    t(Body, " \r\r\n \x0D", vec![S(3)]);
    t(Body, "a~b", vec![T("a"), T("\u{00A0}"), T("b")]);
}

#[test]
fn test_tokenize_comments() {
    t(Body, "a // bc\n ", vec![T("a"), S(0), LC(" bc"), S(1)]);
    t(Body, "a //a//b\n ", vec![T("a"), S(0), LC("a//b"), S(1)]);
    t(Body, "a //a//b\r\n", vec![T("a"), S(0), LC("a//b"), S(1)]);
    t(Body, "a //a//b\n\nhello", vec![T("a"), S(0), LC("a//b"), S(2), T("hello")]);
    t(Body, "/**/", vec![BC("")]);
    t(Body, "_/*_/*a*/*/", vec![K(Underscore), BC("_/*a*/")]);
    t(Body, "/*/*/", vec![BC("/*/")]);
    t(Body, "abc*/", vec![T("abc"), Invalid("*/")]);
    t(Body, "/***/", vec![BC("*")]);
    t(Body, "/**\\****/*/*/", vec![BC("*\\***"), Invalid("*/"), Invalid("*/")]);
    t(Body, "/*abc", vec![BC("abc")]);
}

#[test]
fn test_tokenize_body_only_tokens() {
    t(Body, "_*", vec![K(Underscore), K(Star)]);
    t(Body, "***", vec![K(Star), K(Star), K(Star)]);
    t(
        Body,
        "[func]*bold*",
        vec![K(LeftBracket), T("func"), K(RightBracket), K(Star), T("bold"), K(Star)],
    );
    t(
        Body,
        "hi_you_ there",
        vec![T("hi"), K(Underscore), T("you"), K(Underscore), S(0), T("there")],
    );
    t(Body, "# hi", vec![K(Hashtag), S(0), T("hi")]);
    t(Body, "#()", vec![K(Hashtag), T("()")]);
    t(Body, "\\ ", vec![K(Backslash), S(0)]);
    t(Header, "_`", vec![Invalid("_`")]);
}

#[test]
fn test_tokenize_raw() {
    // Basics.
    t(Body, "`raw`", vec![Raw(1, None, "raw", true)]);
    t(Body, "`[func]`", vec![Raw(1, None, "[func]", true)]);
    t(Body, "`]", vec![Raw(1, None, "]", false)]);
    t(Body, r"`\`` ", vec![Raw(1, None, r"\", true), Raw(1, None, " ", false)]);

    // Language tag.
    t(Body, "``` hi```", vec![Raw(3, None, " hi", true)]);
    t(Body, "```rust hi```", vec![Raw(3, Lang("rust"), " hi", true)]);
    t(Body, r"``` hi\````", vec![Raw(3, None, r" hi\", true), Raw(1, None, "", false)]);
    t(Body, "``` not `y`e`t finished```", vec![Raw(3, None, " not `y`e`t finished", true)]);
    t(
        Body,
        "```js   \r\n  document.write(\"go\")`",
        vec![Raw(3, Lang("js"), "   \r\n  document.write(\"go\")`", false)],
    );

    // More backticks.
    t(Body, "`````` ``````hi", vec![Raw(6, None, " ", true), T("hi")]);
    t(
        Body,
        "````\n```js\nalert()\n```\n````",
        vec![Raw(4, None, "\n```js\nalert()\n```\n", true)],
    );
}

#[test]
fn test_tokenize_header_only_tokens() {
    let (LP, RP, LB, RB) = (K(LeftParen), K(RightParen), K(LeftBrace), K(RightBrace));
    let Min = K(Hyphen);

    t(Body, "a: b", vec![T("a:"), S(0), T("b")]);
    t(Body, "c=d, ", vec![T("c=d,"), S(0)]);
    t(Header, "(){}:=,", vec![LP, RP, LB, RB, K(Colon), K(Equals), K(Comma)]);
    t(Header, "a:b", vec![Id("a"), K(Colon), Id("b")]);
    t(Header, "#6ae6dd", vec![Hex("6ae6dd")]);
    t(Header, "#8A083c", vec![Hex("8A083c")]);
    t(
        Header,
        "a: true, x=1",
        vec![
            Id("a"),
            K(Colon),
            S(0),
            K(Bool(true)),
            K(Comma),
            S(0),
            Id("x"),
            K(Equals),
            Num(1.0),
        ],
    );
    t(Header, "=3.14", vec![K(Equals), Num(3.14)]);
    t(Header, "12.3e5", vec![Num(12.3e5)]);
    t(Header, "120%", vec![Num(1.2)]);
    t(Header, "12e4%", vec![Num(1200.0)]);
    t(Header, "__main__", vec![Id("__main__")]);
    t(Header, ">main", vec![Invalid(">main")]);
    t(Header, ".func.box", vec![Id(".func.box")]);
    t(
        Header,
        "arg, _b, _1",
        vec![Id("arg"), K(Comma), S(0), Id("_b"), K(Comma), S(0), Id("_1")],
    );
    t(
        Header,
        "f: arg >> g",
        vec![Id("f"), K(Colon), S(0), Id("arg"), S(0), K(Chain), S(0), Id("g")],
    );
    t(Header, "12_pt, 12pt", vec![Invalid("12_pt"), K(Comma), S(0), Len(12.0, Unit::Pt)]);
    t(Header, "1e5in", vec![Len(100000.0, Unit::In)]);
    t(Header, "2.3cm", vec![Len(2.3, Unit::Cm)]);
    t(Header, "12e-3in", vec![Len(12e-3, Unit::In)]);
    t(
        Header,
        "6.1cm + 4pt,a=1*2",
        vec![
            Len(6.1, Unit::Cm),
            S(0),
            K(Plus),
            S(0),
            Len(4.0, Unit::Pt),
            K(Comma),
            Id("a"),
            K(Equals),
            Num(1.0),
            K(Star),
            Num(2.0),
        ],
    );
    t(
        Header,
        "(5 - 1) / 2.1",
        vec![LP, Num(5.0), S(0), Min, S(0), Num(1.0), RP, S(0), K(Slash), S(0), Num(2.1)],
    );
    t(Header, "-1", vec![Min, Num(1.0)]);
    t(Header, "--1", vec![Min, Min, Num(1.0)]);
    t(Header, "- 1", vec![Min, S(0), Num(1.0)]);
    t(Header, "02.4mm", vec![Len(2.4, Unit::Mm)]);
    t(Header, "2.4.cm", vec![Invalid("2.4.cm")]);
    t(Header, "(1,2)", vec![LP, Num(1.0), K(Comma), Num(2.0), RP]);
    t(Header, "{abc}", vec![LB, Id("abc"), RB]);
    t(Header, "🌓, 🌍,", vec![Invalid("🌓"), K(Comma), S(0), Invalid("🌍"), K(Comma)]);
}

#[test]
fn test_tokenize_strings() {
    t(Body, "a \"hi\" string", vec![T("a"), S(0), T("\"hi\""), S(0), T("string")]);
    t(Header, "\"hello", vec![Str("hello", false)]);
    t(Header, "\"hello world\"", vec![Str("hello world", true)]);
    t(Header, "\"hello\nworld\"", vec![Str("hello\nworld", true)]);
    t(
        Header,
        r#"1"hello\nworld"false"#,
        vec![Num(1.0), Str("hello\\nworld", true), K(Bool(false))],
    );
    t(Header, r#""a\"bc""#, vec![Str(r#"a\"bc"#, true)]);
    t(Header, r#""a\\"bc""#, vec![Str(r#"a\\"#, true), Id("bc"), Str("", false)]);
    t(Header, r#""a\tbc"#, vec![Str("a\\tbc", false)]);
    t(Header, "\"🌎\"", vec![Str("🌎", true)]);
}

#[test]
fn test_tokenize_escaped_symbols() {
    t(Body, r"\\", vec![T(r"\")]);
    t(Body, r"\[", vec![T("[")]);
    t(Body, r"\]", vec![T("]")]);
    t(Body, r"\*", vec![T("*")]);
    t(Body, r"\_", vec![T("_")]);
    t(Body, r"\`", vec![T("`")]);
    t(Body, r"\/", vec![T("/")]);
    t(Body, r"\u{2603}", vec![UE("2603", true)]);
    t(Body, r"\u{26A4", vec![UE("26A4", false)]);
    t(Body, r#"\""#, vec![T("\"")]);
}

#[test]
fn test_tokenize_unescapable_symbols() {
    t(Body, r"\a", vec![T("\\"), T("a")]);
    t(Body, r"\:", vec![T(r"\"), T(":")]);
    t(Body, r"\=", vec![T(r"\"), T("=")]);
    t(Body, r"\u{2GA4", vec![UE("2", false), T("GA4")]);
    t(Body, r"\u{ ", vec![UE("", false), S(0)]);
    t(Body, r"\u", vec![T(r"\u")]);
    t(Header, r"\\\\", vec![Invalid(r"\\\\")]);
    t(Header, r"\a", vec![Invalid(r"\a")]);
    t(Header, r"\:", vec![Invalid(r"\"), K(Colon)]);
    t(Header, r"\=", vec![Invalid(r"\"), K(Equals)]);
    t(Header, r"\,", vec![Invalid(r"\"), K(Comma)]);
}

#[test]
fn test_tokenize_with_spans() {
    ts(Body, "hello", vec![s(0, 0, 0, 5, T("hello"))]);
    ts(
        Body,
        "ab\r\nc",
        vec![s(0, 0, 0, 2, T("ab")), s(0, 2, 1, 0, S(1)), s(1, 0, 1, 1, T("c"))],
    );
    ts(
        Body,
        "// ab\r\n\nf",
        vec![s(0, 0, 0, 5, LC(" ab")), s(0, 5, 2, 0, S(2)), s(2, 0, 2, 1, T("f"))],
    );
    ts(Body, "/*b*/_", vec![s(0, 0, 0, 5, BC("b")), s(0, 5, 0, 6, K(Underscore))]);
    ts(
        Header,
        "a=10",
        vec![s(0, 0, 0, 1, Id("a")), s(0, 1, 0, 2, K(Equals)), s(0, 2, 0, 4, Num(10.0))],
    );
}

use tokens::syntax::{Pos, Span, Spanned, Token};
use tokens::tokens::{TokenMode, Tokens};

fn pos(line: usize, column: usize) -> Pos {
    Pos { line, column }
}

/// The tokens of some source code without their spans.
fn all(src: &str, mode: TokenMode) -> Vec<Token> {
    Tokens::new(src, mode).collect().into_iter().map(|token| token.v).collect()
}

fn body(src: &str) -> Vec<Token> {
    all(src, TokenMode::Body)
}

fn header(src: &str) -> Vec<Token> {
    all(src, TokenMode::Header)
}

#[test]
fn a_new_iterator_is_at_the_start() {
    let tokens = Tokens::new("ab", TokenMode::Body);
    assert_eq!(tokens.index(), 0);
    assert_eq!(tokens.pos(), pos(0, 0));
}

#[test]
fn the_index_counts_bytes_and_the_column_characters() {
    let mut tokens = Tokens::new("ä€🌍 b", TokenMode::Body);
    assert_eq!(tokens.next().unwrap().v, Token::Text("ä€🌍"));
    assert_eq!(tokens.index(), 9);
    assert_eq!(tokens.pos(), pos(0, 3));
    assert_eq!(tokens.next().unwrap().v, Token::Space(0));
    assert_eq!(tokens.index(), 10);
    assert_eq!(tokens.pos(), pos(0, 4));
}

#[test]
fn every_newline_char_starts_a_line() {
    let mut tokens = Tokens::new("\n\u{b}\u{c}\r\u{85}\u{2028}\u{2029}\r\n x", TokenMode::Body);
    assert_eq!(tokens.next().unwrap().v, Token::Space(8));
    assert_eq!(tokens.pos(), pos(8, 1));
}

#[test]
fn pop_mode_undoes_push_mode() {
    let mut tokens = Tokens::new("(_(_(", TokenMode::Header);
    assert_eq!(tokens.next().unwrap().v, Token::LeftParen);
    tokens.push_mode(TokenMode::Body);
    assert_eq!(tokens.index(), 1);
    assert_eq!(tokens.next().unwrap().v, Token::Underscore);
    tokens.push_mode(TokenMode::Header);
    assert_eq!(tokens.next().unwrap().v, Token::LeftParen);
    tokens.pop_mode();
    assert_eq!(tokens.next().unwrap().v, Token::Underscore);
    tokens.pop_mode();
    assert_eq!(tokens.next().unwrap().v, Token::LeftParen);
    assert_eq!(tokens.next(), None);
}

#[test]
fn the_end_stays_the_end() {
    let mut tokens = Tokens::new("*", TokenMode::Body);
    assert_eq!(tokens.next().unwrap().v, Token::Star);
    for _ in 0..3 {
        assert_eq!(tokens.next(), None);
        assert_eq!(tokens.index(), 1);
        assert_eq!(tokens.pos(), pos(0, 1));
    }
}

#[test]
fn collect_goes_on_where_next_stopped() {
    let mut tokens = Tokens::new("a b", TokenMode::Body);
    tokens.next();
    let rest: Vec<Token> = tokens.collect().into_iter().map(|token| token.v).collect();
    assert_eq!(rest, vec![Token::Space(0), Token::Text("b")]);
}

#[test]
fn tokens_are_adjacent() {
    let src = "a // b\r\n[f: 12pt] `x` /* y\n */ ~\\u{41}\\n \"é\" \u{2028}end";
    for mode in [TokenMode::Body, TokenMode::Header] {
        let mut tokens = Tokens::new(src, mode);
        let mut end = pos(0, 0);
        let mut index = 0;
        while let Some(token) = tokens.next() {
            assert_eq!(token.span.start, end);
            assert_ne!(token.span.start, token.span.end);
            assert_eq!(token.span.end, tokens.pos());
            assert!(tokens.index() > index);
            end = token.span.end;
            index = tokens.index();
        }
        assert_eq!(index, src.len());
        assert_eq!(end, pos(3, 3));
    }
}

#[test]
fn a_nested_comment_closes_before_the_outer_one() {
    assert_eq!(body("/*a/*b/*c*/d*/e*/f"), vec![
        Token::BlockComment("a/*b/*c*/d*/e"),
        Token::Text("f"),
    ]);
    assert_eq!(body("/* /* */ x"), vec![Token::BlockComment(" /* */ x")]);
    assert_eq!(body("/*ü*/"), vec![Token::BlockComment("ü")]);
    assert_eq!(body("/*/"), vec![Token::BlockComment("/")]);
}

#[test]
fn delimiters_of_comments_that_touch() {
    // A star behind an opening delimiter can belong to a closing one.
    assert_eq!(body("/*/**/*/"), vec![Token::BlockComment("/**/")]);
    assert_eq!(body("/*/** a*/ b*/ c*/d"), vec![
        Token::BlockComment("/** a*/ b"),
        Token::Space(0),
        Token::Text("c"),
        Token::Invalid("*/"),
        Token::Text("d"),
    ]);
    // A slash behind a closing delimiter can belong to an opening one.
    assert_eq!(body("/*/*a*//*b*/*/c"), vec![
        Token::BlockComment("/*a*//*b*/"),
        Token::Text("c"),
    ]);
    // By itself it closes nothing.
    assert_eq!(body("/*/*a*//x"), vec![Token::BlockComment("/*a*//x")]);
    let mut tokens = Tokens::new("/*/*a*//b*/", TokenMode::Body);
    assert_eq!(tokens.next().unwrap().v, Token::BlockComment("/*a*//b"));
    assert_eq!(tokens.index(), 11);
    // No character belongs to two delimiters.
    assert_eq!(body("/*/*/*/x"), vec![Token::BlockComment("/*/*/x")]);
    assert_eq!(body("/**/*a"), vec![Token::BlockComment(""), Token::Star, Token::Text("a")]);
}

#[test]
fn a_comment_without_nested_ones_ends_at_the_first_delimiter() {
    assert_eq!(header("/* a * / b */*/"), vec![
        Token::BlockComment(" a * / b "),
        Token::Invalid("*/"),
    ]);
}

#[test]
fn a_line_comment_ends_with_the_line() {
    assert_eq!(body("//a\u{2028}b"), vec![
        Token::LineComment("a"),
        Token::Space(1),
        Token::Text("b"),
    ]);
    assert_eq!(header("//"), vec![Token::LineComment("")]);
}

#[test]
fn strings_end_at_the_first_quote_that_is_not_escaped() {
    assert_eq!(header(r#""\\\"a""#), vec![
        Token::Str { string: r#"\\\"a"#, terminated: true },
    ]);
    assert_eq!(header(r#""\"#), vec![Token::Str { string: r"\", terminated: false }]);
    assert_eq!(header("\"\""), vec![Token::Str { string: "", terminated: true }]);
}

#[test]
fn the_language_tag_has_a_span() {
    let mut tokens = Tokens::new("\n``rs`x``y", TokenMode::Body);
    tokens.next();
    let lang = Spanned { v: "rs", span: Span { start: pos(1, 2), end: pos(1, 4) } };
    assert_eq!(
        tokens.next().unwrap().v,
        Token::Raw { backticks: 2, lang: Some(lang), raw: "`x", terminated: true },
    );
    assert_eq!(tokens.next().unwrap().v, Token::Text("y"));
}

#[test]
fn raw_blocks_need_as_many_backticks() {
    assert_eq!(body("``"), vec![
        Token::Raw { backticks: 2, lang: None, raw: "", terminated: false },
    ]);
    assert_eq!(body("` é`"), vec![
        Token::Raw { backticks: 1, lang: None, raw: " é", terminated: true },
    ]);
    assert_eq!(body("``` a`` ````"), vec![
        Token::Raw { backticks: 3, lang: None, raw: " a`` ", terminated: true },
        Token::Raw { backticks: 1, lang: None, raw: "", terminated: false },
    ]);
}

#[test]
fn backslashes() {
    assert_eq!(body("\\"), vec![Token::Backslash]);
    assert_eq!(body("\\\u{3000}"), vec![Token::Backslash, Token::Space(0)]);
    assert_eq!(body("\\é"), vec![Token::Text("\\"), Token::Text("é")]);
    assert_eq!(body("\\u41"), vec![Token::Text("\\u"), Token::Text("41")]);
    assert_eq!(body("\\#\\~\\\""), vec![Token::Text("#"), Token::Text("~"), Token::Text("\"")]);
    assert_eq!(body("\\u{}"), vec![Token::UnicodeEscape { sequence: "", terminated: true }]);
}

#[test]
fn signs_end_words_unless_they_follow_an_exponent() {
    let number = |digits| Token::Number { digits, percent: false };
    assert_eq!(header("1e+5"), vec![number("1e+5")]);
    assert_eq!(header("1E-5"), vec![number("1E-5")]);
    assert_eq!(header("1+5"), vec![number("1"), Token::Plus, number("5")]);
    assert_eq!(header("e-5"), vec![Token::Ident("e"), Token::Hyphen, number("5")]);
    assert_eq!(header("1e--5"), vec![Token::Invalid("1e-"), Token::Hyphen, number("5")]);
    assert_eq!(header("cafe-5"), vec![Token::Ident("cafe-5")]);
    assert_eq!(body("1+5-e"), vec![Token::Text("1+5-e")]);
}

#[test]
fn symbols_that_mean_the_same_in_both_modes() {
    let symbols = vec![
        Token::LeftBracket,
        Token::RightBracket,
        Token::LeftBrace,
        Token::RightBrace,
        Token::Star,
        Token::Invalid("*/"),
    ];
    assert_eq!(body("[]{}**/"), symbols);
    assert_eq!(header("[]{}**/"), symbols);
}

#[test]
fn symbols_that_mean_something_else_in_the_other_mode() {
    assert_eq!(body("/a"), vec![Token::Text("/a")]);
    assert_eq!(header("/a"), vec![Token::Slash, Token::Ident("a")]);
    assert_eq!(body(">>"), vec![Token::Text(">>")]);
    assert_eq!(header(">>>"), vec![Token::Chain, Token::Invalid(">")]);
    assert_eq!(header("#xyz_"), vec![Token::Hex("xyz"), Token::Ident("_")]);
    assert_eq!(header("#"), vec![Token::Hex("")]);
    assert_eq!(header("a~"), vec![Token::Invalid("a~")]);
    assert_eq!(body("()=,:+-\""), vec![Token::Text("()=,:+-\"")]);
}

/// The source code of each token.
fn sources(src: &str, mode: TokenMode) -> Vec<&str> {
    let mut tokens = Tokens::new(src, mode);
    let mut parts = vec![];
    let mut start = tokens.index();
    while tokens.next().is_some() {
        parts.push(&src[start..tokens.index()]);
        start = tokens.index();
    }
    parts
}

#[test]
fn no_character_is_lost() {
    assert_eq!(
        sources("a~\\#//é\n/*x*/``l r``\\u{1}*/", TokenMode::Body),
        vec!["a", "~", "\\#", "//é", "\n", "/*x*/", "``l r``", "\\u{1}", "*/"],
    );
    assert_eq!(
        sources("f:1%,2cm >>#a \"é\\\"\"true(", TokenMode::Header),
        vec!["f", ":", "1%", ",", "2cm", " ", ">>", "#a", " ", "\"é\\\"\"", "true", "("],
    );
}

/// A token, with its language tag at the start of the source code.
fn without_tag_span(token: Token) -> Token {
    match token {
        Token::Raw { backticks, lang: Some(tag), raw, terminated } => {
            let span = Span { start: pos(0, 0), end: pos(0, 0) };
            Token::Raw { backticks, lang: Some(Spanned { v: tag.v, span }), raw, terminated }
        },
        token => token,
    }
}

#[test]
fn tokens_do_not_depend_on_what_stands_before() {
    let src = "ä /*/* */ *//*/**/*/ ``rust\r\nx`` \"a\\\"b\" 1e+2 \\u{41}\n\n#fff >> 12pt //é\n*/ `r";
    for mode in [TokenMode::Body, TokenMode::Header] {
        let mut tokens = Tokens::new(src, mode);
        loop {
            // The index is where the rest starts.
            let mut alone = Tokens::new(&src[tokens.index()..], mode);
            let (index, start) = (tokens.index(), tokens.pos());
            let (token, expected) = match (tokens.next(), alone.next()) {
                (Some(token), Some(expected)) => (token, expected),
                (token, expected) => {
                    assert_eq!(token, None);
                    assert_eq!(expected, None);
                    break;
                },
            };
            assert_eq!(without_tag_span(token.v), without_tag_span(expected.v));
            assert_eq!(tokens.index(), index + alone.index());
            let end = alone.pos();
            let column = if end.line == 0 { start.column + end.column } else { end.column };
            assert_eq!(tokens.pos(), pos(start.line + end.line, column));
        }
    }
}

#[test]
fn all_tokens_of_the_rest_are_the_same() {
    let src = "x `y`\u{2028} ``tag z``";
    let mut tokens = Tokens::new(src, TokenMode::Body);
    tokens.next();
    tokens.next();
    assert_eq!(tokens.index(), 2);
    let rest = tokens.collect();
    let alone = Tokens::new(&src[2..], TokenMode::Body).collect();
    assert_eq!(rest.len(), 3);
    assert_eq!(alone.len(), 3);
    for i in 0..3 {
        assert_eq!(rest[i].v, alone[i].v);
    }
    assert_eq!(rest[0].span, Span { start: pos(0, 2), end: pos(0, 5) });
    assert_eq!(alone[0].span, Span { start: pos(0, 0), end: pos(0, 3) });
    // From the next line on, the columns are the same too.
    assert_eq!(rest[2].span, Span { start: pos(1, 1), end: pos(1, 10) });
    assert_eq!(alone[2].span, rest[2].span);
}

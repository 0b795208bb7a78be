//! What holds of all tokens.

use vstd::prelude::*;

use crate::chars;
use crate::expr;
use crate::grammar;
use crate::lines;
use crate::syntax::{Pos, TokenView, Unit};
use crate::text;
use crate::tokens::{TokenMode, TokensView};
use crate::until::{self, Until};

verus! {

/// Popping a mode undoes pushing one, whatever the state.
pub proof fn law_pop_undoes_push(tokens: TokensView, mode: TokenMode)
    ensures
        tokens.pushed(mode).popped() == tokens,
{
    assert(tokens.stack.push(tokens.mode).drop_last() =~= tokens.stack);
}

/// The index grows with each token by the bytes of its text.
pub proof fn law_index_grows_by_token(s: Seq<char>, at: int, mode: TokenMode)
    requires
        0 <= at < s.len(),
    ensures
        ({
            let end = grammar::token_at(s, at, mode).1;
            text::byte_len(s.take(end)) == text::byte_len(s.take(at)) + text::byte_len(
                s.subrange(at, end),
            )
        }),
{
    grammar::lemma_token_end(s, at, mode);
    let end = grammar::token_at(s, at, mode).1;
    text::lemma_encode_concat(s.take(at), s.subrange(at, end));
    assert(s.take(end) =~= s.take(at) + s.subrange(at, end));
}

/// Whether one position stands before another.
pub open spec fn before(a: Pos, b: Pos) -> bool {
    a.line < b.line || a.line == b.line && a.column < b.column
}

/// Positions grow with every character: a later one is on a later line, or on
/// the same line in a later column. Different characters have different
/// positions.
pub proof fn law_positions_grow(s: Seq<char>, a: int, b: int)
    requires
        0 <= a < b <= s.len() <= usize::MAX,
    ensures
        before(lines::pos_of(s, a), lines::pos_of(s, b)),
    decreases b - a,
{
    lines::lemma_pos_bound(s, a);
    lines::lemma_pos_bound(s, b);
    if a + 1 < b {
        lines::lemma_pos_bound(s, b - 1);
        law_positions_grow(s, a, b - 1);
    }
}

/// A Carriage Return and a Line Feed are one newline.
pub proof fn law_crlf_is_one_newline(s: Seq<char>, k: int)
    requires
        0 <= k,
        k + 1 < s.len(),
        s[k] == '\r',
        s[k + 1] == '\n',
    ensures
        lines::line_of(s, k + 2) == lines::line_of(s, k) + 1,
        lines::column_of(s, k + 2) == 0,
{
    assert(!lines::ends_line(s, k));
    assert(lines::ends_line(s, k + 1));
    assert(lines::line_of(s, k + 1) == lines::line_of(s, k));
}

/// The tokens of source code follow each other without a gap: the first one
/// starts where reading starts, each other one where the one before it ends, and
/// the last one ends with the source code.
pub proof fn law_tokens_are_adjacent(s: Seq<char>, at: int, mode: TokenMode)
    requires
        0 <= at < s.len(),
    ensures
        ({
            let tokens = grammar::tokens_from(s, at, mode);
            &&& tokens.len() > 0
            &&& tokens.first().span.start == lines::pos_of(s, at)
            &&& tokens.last().span.end == lines::pos_of(s, s.len() as int)
            &&& forall|i: int|
                0 < i < tokens.len() ==> (#[trigger] tokens[i]).span.start == tokens[i
                    - 1].span.end
        }),
    decreases s.len() - at,
{
    grammar::lemma_token_end(s, at, mode);
    let end = grammar::token_at(s, at, mode).1;
    let tokens = grammar::tokens_from(s, at, mode);
    let rest = grammar::tokens_from(s, end, mode);
    if end < s.len() {
        law_tokens_are_adjacent(s, end, mode);
        assert(tokens.last() == rest.last());
        assert forall|i: int| 0 < i < tokens.len() implies (#[trigger] tokens[i]).span.start
            == tokens[i - 1].span.end by {
            assert(tokens[i] == rest[i - 1]);
            if i > 1 {
                assert(tokens[i - 1] == rest[i - 2]);
            }
        }
    } else {
        assert(rest =~= seq![]);
        assert(tokens.len() == 1);
    }
}

/// The span of a token is never empty.
pub proof fn law_spans_are_not_empty(s: Seq<char>, at: int, mode: TokenMode)
    requires
        0 <= at < s.len() <= usize::MAX,
    ensures
        before(
            lines::pos_of(s, at),
            lines::pos_of(s, grammar::token_at(s, at, mode).1),
        ),
{
    grammar::lemma_token_end(s, at, mode);
    law_positions_grow(s, at, grammar::token_at(s, at, mode).1);
}

/// The tokens that both modes yield.
pub open spec fn common_token(token: TokenView) -> bool {
    match token {
        TokenView::Space(_)
        | TokenView::LineComment(_)
        | TokenView::BlockComment(_)
        | TokenView::LeftBracket
        | TokenView::RightBracket
        | TokenView::LeftBrace
        | TokenView::RightBrace
        | TokenView::Star => true,
        TokenView::Invalid(text) => text == seq!['*', '/'],
        _ => false,
    }
}

/// In a body there are, besides the tokens of both modes, text, raw blocks,
/// escapes and the symbols that style text, and nothing else.
pub proof fn law_body_tokens(s: Seq<char>, at: int)
    requires
        0 <= at < s.len(),
    ensures
        ({
            let token = grammar::token_at(s, at, TokenMode::Body).0;
            common_token(token) || match token {
                TokenView::Underscore
                | TokenView::Hashtag
                | TokenView::Backslash
                | TokenView::UnicodeEscape { .. }
                | TokenView::Raw { .. }
                | TokenView::Text(_) => true,
                _ => false,
            }
        }),
{
}

/// In a header there are, besides the tokens of both modes, expressions,
/// operators and the elements of syntax, and nothing else.
pub proof fn law_header_tokens(s: Seq<char>, at: int)
    requires
        0 <= at < s.len(),
    ensures
        ({
            let token = grammar::token_at(s, at, TokenMode::Header).0;
            common_token(token) || match token {
                TokenView::LeftParen
                | TokenView::RightParen
                | TokenView::Colon
                | TokenView::Comma
                | TokenView::Equals
                | TokenView::Chain
                | TokenView::Plus
                | TokenView::Hyphen
                | TokenView::Slash
                | TokenView::Ident(_)
                | TokenView::Bool(_)
                | TokenView::Number { .. }
                | TokenView::Length { .. }
                | TokenView::Hex(_)
                | TokenView::Str { .. }
                | TokenView::Invalid(_) => true,
                _ => false,
            }
        }),
{
}

/// What is yielded as a number is written as one, with or without a percent sign
/// or a unit; what is yielded as an identifier is one; and what is yielded as
/// invalid is none of these, unless it is a stray end of a comment.
pub proof fn law_header_words(s: Seq<char>, at: int)
    requires
        0 <= at < s.len(),
    ensures
        match grammar::token_at(s, at, TokenMode::Header).0 {
            TokenView::Number { digits, .. } => expr::number(digits),
            TokenView::Length { digits, .. } => expr::number(digits),
            TokenView::Ident(text) => expr::ident(text),
            TokenView::Invalid(text) => text == seq!['*', '/'] || !expr::number(text)
                && !expr::percentage(text) && !expr::length(text) && !expr::ident(text),
            _ => true,
        },
{
}

/// Every prefix of an identifier that is not empty is an identifier.
pub proof fn law_ident_prefix(s: Seq<char>, k: int)
    requires
        expr::ident(s),
        0 < k <= s.len(),
    ensures
        expr::ident(s.take(k)),
{
    assert forall|i: int| 0 <= i < k implies expr::ident_continue(#[trigger] s.take(k)[i]) by {
        assert(s.take(k)[i] == s[i]);
    }
}

/// Two identifiers joined are an identifier.
pub proof fn law_idents_join(a: Seq<char>, b: Seq<char>)
    requires
        expr::ident(a),
        expr::ident(b),
    ensures
        expr::ident(a + b),
{
    assert forall|i: int| 0 <= i < (a + b).len() implies expr::ident_continue(
        #[trigger] (a + b)[i],
    ) by {
        if i < a.len() {
            assert((a + b)[i] == a[i]);
        } else {
            assert((a + b)[i] == b[i - a.len()]);
        }
    }
}

/// White space is one token: it holds nothing but white space, it counts the
/// newlines in it, and what follows it is no white space.
pub proof fn law_space_is_maximal(s: Seq<char>, at: int, mode: TokenMode)
    requires
        0 <= at < s.len(),
        grammar::token_at(s, at, mode).0 is Space,
    ensures
        ({
            let (token, end) = grammar::token_at(s, at, mode);
            &&& token->Space_0 == lines::line_of(s, end) - lines::line_of(s, at)
            &&& forall|j: int| at <= j < end ==> chars::white_space(#[trigger] s[j])
            &&& end < s.len() ==> {
                &&& !chars::white_space(s[end])
                &&& !(grammar::token_at(s, end, mode).0 is Space)
            }
        }),
{
    let end = grammar::token_at(s, at, mode).1;
    until::lemma_first_stop(Until::SpaceEnd, s, at + 1, at + 1);
    lines::lemma_line_monotone(s, at, end);
    assert forall|j: int| at <= j < end implies chars::white_space(#[trigger] s[j]) by {
        if j > at {
            assert(!Until::SpaceEnd.stops(s, at + 1, j));
        }
    }
}

/// A line comment holds the rest of its line: there is no newline in it, and it
/// ends before a newline or with the source code.
pub proof fn law_line_comment_ends_with_line(s: Seq<char>, at: int, mode: TokenMode)
    requires
        0 <= at < s.len(),
        grammar::token_at(s, at, mode).0 is LineComment,
    ensures
        ({
            let (token, end) = grammar::token_at(s, at, mode);
            &&& forall|j: int|
                0 <= j < token->LineComment_0.len() ==> !chars::newline_char(
                    #[trigger] token->LineComment_0[j],
                )
            &&& end < s.len() ==> chars::newline_char(s[end])
        }),
{
    until::lemma_first_stop(Until::LineEnd, s, at + 2, at + 2);
    let (token, end) = grammar::token_at(s, at, mode);
    assert forall|j: int| 0 <= j < token->LineComment_0.len() implies !chars::newline_char(
        #[trigger] token->LineComment_0[j],
    ) by {
        assert(!Until::LineEnd.stops(s, at + 2, at + 2 + j));
    }
}

/// Equally many backticks.
pub open spec fn backticks(n: nat) -> Seq<char> {
    Seq::new(n, |i: int| '`')
}

/// How a unit is written.
pub open spec fn unit_name(unit: Unit) -> Seq<char> {
    match unit {
        Unit::Pt => seq!['p', 't'],
        Unit::Mm => seq!['m', 'm'],
        Unit::Cm => seq!['c', 'm'],
        Unit::In => seq!['i', 'n'],
    }
}

/// These characters, if something is so.
pub open spec fn chars_if(yes: bool, chars: Seq<char>) -> Seq<char> {
    if yes {
        chars
    } else {
        seq![]
    }
}

/// Whether source code can be what a token stands for.
pub open spec fn stands_for(token: TokenView, source: Seq<char>) -> bool {
    match token {
        TokenView::Space(_) => {
            source.len() > 0 && forall|i: int|
                0 <= i < source.len() ==> chars::white_space(#[trigger] source[i])
        },
        TokenView::LineComment(text) => source == seq!['/', '/'] + text,
        TokenView::BlockComment(text) => {
            ||| source == seq!['/', '*'] + text + seq!['*', '/']
            // The source code ends inside of the comment.
            ||| source == seq!['/', '*'] + text
        },
        TokenView::LeftBracket => source == seq!['['],
        TokenView::RightBracket => source == seq![']'],
        TokenView::LeftBrace => source == seq!['{'],
        TokenView::RightBrace => source == seq!['}'],
        TokenView::LeftParen => source == seq!['('],
        TokenView::RightParen => source == seq![')'],
        TokenView::Colon => source == seq![':'],
        TokenView::Comma => source == seq![','],
        TokenView::Equals => source == seq!['='],
        TokenView::Chain => source == seq!['>', '>'],
        TokenView::Plus => source == seq!['+'],
        TokenView::Hyphen => source == seq!['-'],
        TokenView::Slash => source == seq!['/'],
        TokenView::Star => source == seq!['*'],
        TokenView::Underscore => source == seq!['_'],
        TokenView::Hashtag => source == seq!['#'],
        TokenView::Backslash => source == seq!['\\'],
        TokenView::Ident(text) => source == text,
        TokenView::Bool(value) => {
            source == if value {
                "true"@
            } else {
                "false"@
            }
        },
        TokenView::Number { digits, percent } => source == digits + chars_if(percent, seq!['%']),
        TokenView::Length { digits, unit } => source == digits + unit_name(unit),
        TokenView::Hex(text) => source == seq!['#'] + text,
        TokenView::Str { string, terminated } => {
            source == seq!['"'] + string + chars_if(terminated, seq!['"'])
        },
        TokenView::UnicodeEscape { sequence, terminated } => {
            source == seq!['\\', 'u', '{'] + sequence + chars_if(terminated, seq!['}'])
        },
        TokenView::Raw { backticks: n, lang, raw, terminated } => {
            let tag = match lang {
                Some(tag) => tag.v,
                None => seq![],
            };
            source == backticks(n) + tag + raw + chars_if(terminated, backticks(n))
        },
        TokenView::Text(text) => {
            ||| source == text
            ||| source == seq!['\\'] + text && text.len() == 1 && chars::escapable(text[0])
            ||| source == seq!['~'] && text == seq!['\u{00A0}']
        },
        TokenView::Invalid(text) => source == text,
    }
}

proof fn lemma_line_comment_source(s: Seq<char>, at: int)
    requires
        0 <= at,
        at + 1 < s.len(),
        s[at] == '/' && s[at + 1] == '/',
    ensures
        ({
            let (token, end) = grammar::line_comment(s, at + 2);
            stands_for(token, s.subrange(at, end))
        }),
{
    until::lemma_first_stop(Until::LineEnd, s, at + 2, at + 2);
    let (token, end) = grammar::line_comment(s, at + 2);
    assert(s.subrange(at, end) =~= seq!['/', '/'] + token->LineComment_0);
}

proof fn lemma_block_comment_source(s: Seq<char>, at: int)
    requires
        0 <= at,
        at + 1 < s.len(),
        s[at] == '/' && s[at + 1] == '*',
    ensures
        ({
            let (token, end) = grammar::block_comment(s, at + 2);
            stands_for(token, s.subrange(at, end))
        }),
{
    let slash = Until::CommentEnd.end(s, at + 2);
    let (token, end) = grammar::block_comment(s, at + 2);
    let text = token->BlockComment_0;
    until::lemma_first_stop(Until::CommentEnd, s, at + 2, at + 2);
    if slash < s.len() {
        until::lemma_comment_closer(s, at + 2, slash);
        assert(s.subrange(at, end) =~= seq!['/', '*'] + text + seq!['*', '/']);
    } else {
        assert(s.subrange(at, end) =~= seq!['/', '*'] + text);
    }
}

proof fn lemma_hex_source(s: Seq<char>, at: int)
    requires
        0 <= at < s.len(),
        s[at] == '#',
    ensures
        ({
            let (token, end) = grammar::hex(s, at + 1);
            stands_for(token, s.subrange(at, end))
        }),
{
    let (token, end) = grammar::hex(s, at + 1);
    until::lemma_first_stop(Until::AlphanumericEnd, s, at + 1, at + 1);
    assert(s.subrange(at, end) =~= seq!['#'] + token->Hex_0);
}

proof fn lemma_string_source(s: Seq<char>, at: int)
    requires
        0 <= at < s.len(),
        s[at] == '"',
    ensures
        ({
            let (token, end) = grammar::string(s, at + 1);
            stands_for(token, s.subrange(at, end))
        }),
{
    let (token, end) = grammar::string(s, at + 1);
    until::lemma_first_stop(Until::Unescaped('"'), s, at + 1, at + 1);
    assert(s.subrange(at, end) =~= seq!['"'] + token->string + chars_if(
        token->Str_terminated,
        seq!['"'],
    ));
}

proof fn lemma_raw_source(s: Seq<char>, at: int)
    requires
        0 <= at < s.len(),
        s[at] == '`',
    ensures
        ({
            let (token, end) = grammar::raw(s, at);
            stands_for(token, s.subrange(at, end))
        }),
{
    let (token, end) = grammar::raw(s, at);
    let tag_at = grammar::backticks_end(s, at);
    let n = (tag_at - at) as nat;
    grammar::lemma_backticks_end(s, at);
    until::lemma_first_stop(Until::TagEnd, s, tag_at, tag_at);
    let start = if n > 1 {
        Until::TagEnd.end(s, tag_at)
    } else {
        tag_at
    };
    grammar::lemma_raw_end(s, start, n as int, start);
    let tag = s.subrange(tag_at, start);
    assert(s.subrange(at, end) =~= backticks(n) + tag + token->raw + chars_if(
        token->Raw_terminated,
        backticks(n),
    ));
    if token->lang is None {
        assert(tag =~= seq![]);
    }
}

proof fn lemma_escape_source(s: Seq<char>, at: int)
    requires
        0 <= at < s.len(),
        s[at] == '\\',
    ensures
        ({
            let (token, end) = grammar::escape(s, at + 1);
            stands_for(token, s.subrange(at, end))
        }),
{
    let (token, end) = grammar::escape(s, at + 1);
    let source = s.subrange(at, end);
    match token {
        TokenView::UnicodeEscape { sequence, terminated } => {
            until::lemma_first_stop(Until::HexDigitsEnd, s, at + 3, at + 3);
            assert(source =~= seq!['\\', 'u', '{'] + sequence + chars_if(terminated, seq!['}']));
        },
        TokenView::Text(text) => {
            if end == at + 2 && text.len() == 1 {
                assert(source =~= seq!['\\'] + text);
            } else {
                assert(source =~= text);
            }
        },
        _ => {
            assert(source =~= seq!['\\']);
        },
    }
}

proof fn lemma_word_source(s: Seq<char>, at: int, mode: TokenMode)
    requires
        0 <= at < s.len(),
    ensures
        ({
            let (token, end) = grammar::word(s, at, mode);
            stands_for(token, s.subrange(at, end))
        }),
{
    let (token, end) = grammar::word(s, at, mode);
    let source = s.subrange(at, end);
    match token {
        TokenView::Number { digits, percent } => {
            assert(source =~= digits + chars_if(percent, seq!['%']));
        },
        TokenView::Length { digits, unit } => {
            assert(source =~= digits + unit_name(unit));
        },
        _ => {},
    }
}

/// The source code from where a token starts to where it ends is what the token
/// stands for. Together with [`law_tokens_are_adjacent`] no character is lost.
pub proof fn law_token_stands_for_source(s: Seq<char>, at: int, mode: TokenMode)
    requires
        0 <= at < s.len(),
    ensures
        ({
            let (token, end) = grammar::token_at(s, at, mode);
            stands_for(token, s.subrange(at, end))
        }),
{
    let next = at + 1;
    let one = s.subrange(at, next);
    assert(one =~= seq![s[at]]);
    if s[at] == '/' && grammar::char_at(s, next, '/') {
        lemma_line_comment_source(s, at);
    } else if s[at] == '/' && grammar::char_at(s, next, '*') {
        lemma_block_comment_source(s, at);
    } else if s[at] == '*' && grammar::char_at(s, next, '/') {
        assert(s.subrange(at, next + 1) =~= seq!['*', '/']);
    } else if chars::white_space(s[at]) {
        grammar::lemma_token_end(s, at, mode);
        law_space_is_maximal(s, at, mode);
    } else {
        lemma_word_source(s, at, mode);
        match mode {
            TokenMode::Body => {
                if s[at] == '`' {
                    lemma_raw_source(s, at);
                } else if s[at] == '\\' {
                    lemma_escape_source(s, at);
                }
            },
            TokenMode::Header => {
                if s[at] == '#' {
                    lemma_hex_source(s, at);
                } else if s[at] == '"' {
                    lemma_string_source(s, at);
                } else if s[at] == '>' && grammar::char_at(s, next, '>') {
                    assert(s.subrange(at, next + 1) =~= seq!['>', '>']);
                }
            },
        }
    }
}

proof fn lemma_escaped_in_part(s: Seq<char>, start: int, end: int, j: int)
    requires
        0 <= start <= end <= s.len(),
        0 <= j <= end - start,
    ensures
        until::escaped(s.subrange(start, end), 0, j) == until::escaped(s, start, start + j),
    decreases j,
{
    if j > 0 {
        lemma_escaped_in_part(s, start, end, j - 1);
    }
}

/// A string ends at its first quote that is not escaped: it holds no such quote,
/// and without one it takes the rest of the source code.
pub proof fn law_string_ends_at_quote(s: Seq<char>, at: int, mode: TokenMode)
    requires
        0 <= at < s.len(),
        grammar::token_at(s, at, mode).0 is Str,
    ensures
        match grammar::token_at(s, at, mode) {
            (TokenView::Str { string, terminated }, end) => {
                &&& forall|j: int|
                    0 <= j < string.len() && #[trigger] string[j] == '"' ==> until::escaped(
                        string,
                        0,
                        j,
                    )
                &&& if terminated {
                    s[end - 1] == '"' && !until::escaped(s, at + 1, end - 1)
                } else {
                    end == s.len()
                }
            },
            _ => false,
        },
{
    let start = at + 1;
    let quote = Until::Unescaped('"').end(s, start);
    until::lemma_first_stop(Until::Unescaped('"'), s, start, start);
    let string = s.subrange(start, quote);
    assert forall|j: int| 0 <= j < string.len() && #[trigger] string[j] == '"' implies until::escaped(
        string,
        0,
        j,
    ) by {
        assert(!Until::Unescaped('"').stops(s, start, start + j));
        lemma_escaped_in_part(s, start, quote, j);
    }
}

/// A raw block ends at the first backticks that are as many as those it starts
/// with: its text holds fewer in a row, and without them it takes the rest of the
/// source code. Only two backticks or more are followed by a tag, in which there
/// is no white space and no backtick.
pub proof fn law_raw_ends_at_backticks(s: Seq<char>, at: int, mode: TokenMode)
    requires
        0 <= at < s.len(),
        grammar::token_at(s, at, mode).0 is Raw,
    ensures
        match grammar::token_at(s, at, mode) {
            (TokenView::Raw { backticks: n, lang, raw, terminated }, end) => {
                &&& n > 0
                &&& forall|e: int| !#[trigger] grammar::closes_raw(raw, 0, n as int, e)
                &&& !terminated ==> end == s.len()
                &&& lang matches Some(tag) ==> {
                    &&& n > 1
                    &&& tag.v.len() > 0
                    &&& forall|j: int|
                        0 <= j < tag.v.len() ==> #[trigger] tag.v[j] != '`' && !chars::white_space(
                            tag.v[j],
                        )
                }
            },
            _ => false,
        },
{
    let tag_at = grammar::backticks_end(s, at);
    let n = tag_at - at;
    grammar::lemma_backticks_end(s, at);
    assert(grammar::backticks_end(s, at) == grammar::backticks_end(s, at + 1));
    grammar::lemma_backticks_end(s, at + 1);
    until::lemma_first_stop(Until::TagEnd, s, tag_at, tag_at);
    let start = if n > 1 {
        Until::TagEnd.end(s, tag_at)
    } else {
        tag_at
    };
    grammar::lemma_raw_end(s, start, n, start);
    let raw = grammar::raw(s, at).0->raw;
    assert forall|e: int| !#[trigger] grammar::closes_raw(raw, 0, n, e) by {
        if grammar::closes_raw(raw, 0, n, e) {
            assert forall|j: int| start + e - n <= j < start + e implies s[j] == '`' by {
                assert(raw[j - start] == '`');
            }
            assert(grammar::closes_raw(s, start, n, start + e));
        }
    }
    if tag_at < start {
        let tag = s.subrange(tag_at, start);
        assert forall|j: int| 0 <= j < tag.len() implies #[trigger] tag[j] != '`'
            && !chars::white_space(tag[j]) by {
            assert(!Until::TagEnd.stops(s, tag_at, tag_at + j));
        }
    }
}

/// A word in a body or a header holds nothing behind its first character that
/// would end it, and what follows it does end it.
pub proof fn law_word_is_maximal(s: Seq<char>, at: int, mode: TokenMode)
    requires
        0 <= at < s.len(),
    ensures
        ({
            let end = grammar::word(s, at, mode).1;
            &&& forall|j: int| at < j < end ==> !#[trigger] until::ends_word(mode, s, at + 1, j)
            &&& end < s.len() ==> until::ends_word(mode, s, at + 1, end)
        }),
{
    until::lemma_first_stop(Until::WordEnd(mode), s, at + 1, at + 1);
    let end = grammar::word(s, at, mode).1;
    assert forall|j: int| at < j < end implies !#[trigger] until::ends_word(mode, s, at + 1, j) by {
        assert(!Until::WordEnd(mode).stops(s, at + 1, j));
    }
}

/// A nested comment opens exactly with a slash and a star and closes exactly with
/// a star and a slash, where neither of the two belongs to another delimiter: of
/// two characters in a row only one completes a delimiter.
pub proof fn law_comment_delimiters(s: Seq<char>, start: int, j: int)
    requires
        0 <= start < j < s.len(),
    ensures
        until::opens_comment(s, start, j) <==> s[j - 1] == '/' && s[j] == '*'
            && !until::closes_comment(s, start, j - 1),
        until::closes_comment(s, start, j) <==> s[j - 1] == '*' && s[j] == '/'
            && !until::opens_comment(s, start, j - 1),
        until::opens_comment(s, start, j) || until::closes_comment(s, start, j) ==> {
            &&& !until::opens_comment(s, start, j - 1)
            &&& !until::closes_comment(s, start, j - 1)
        },
{
}

/// A block comment ends at the first closing delimiter that does not correspond
/// to a nested opening one: at its end all nested comments are closed, up to
/// there never more are closed than were open, and every closing delimiter before
/// it closes a nested comment.
pub proof fn law_comments_nest(s: Seq<char>, start: int)
    requires
        0 <= start <= s.len(),
    ensures
        ({
            let end = Until::CommentEnd.end(s, start);
            &&& start <= end <= s.len()
            &&& end < s.len() ==> until::closes_comment(s, start, end) && until::open_comments(
                s,
                start,
                end,
            ) == 0
            &&& forall|i: int| start <= i <= end ==> #[trigger] until::open_comments(s, start, i) >= 0
            &&& forall|i: int|
                start <= i < end && #[trigger] until::closes_comment(s, start, i)
                    ==> until::open_comments(s, start, i) > 0
        }),
{
    let end = Until::CommentEnd.end(s, start);
    until::lemma_first_stop(Until::CommentEnd, s, start, start);
    assert forall|i: int| start <= i <= end implies #[trigger] until::open_comments(s, start, i)
        >= 0 by {
        lemma_open_comments(s, start, end, i);
    }
    assert forall|i: int|
        start <= i < end && #[trigger] until::closes_comment(
            s,
            start,
            i,
        ) implies until::open_comments(s, start, i) > 0 by {
        lemma_open_comments(s, start, end, i);
        assert(!Until::CommentEnd.stops(s, start, i));
    }
}

/// The text of a block comment that is closed is what stands before the star and
/// the slash of its closing delimiter.
pub proof fn law_comment_text_ends_before_delimiter(s: Seq<char>, start: int)
    requires
        0 <= start <= s.len(),
        Until::CommentEnd.end(s, start) < s.len(),
    ensures
        ({
            let (token, end) = grammar::block_comment(s, start);
            s.subrange(start, end) == token->BlockComment_0 + seq!['*', '/']
        }),
{
    let slash = Until::CommentEnd.end(s, start);
    until::lemma_first_stop(Until::CommentEnd, s, start, start);
    until::lemma_comment_closer(s, start, slash);
    let (token, end) = grammar::block_comment(s, start);
    assert(s.subrange(start, end) =~= token->BlockComment_0 + seq!['*', '/']);
}

proof fn lemma_open_comments(s: Seq<char>, start: int, end: int, i: int)
    requires
        start <= i <= end,
        forall|j: int| start <= j < end ==> !#[trigger] Until::CommentEnd.stops(s, start, j),
    ensures
        until::open_comments(s, start, i) >= 0,
    decreases i - start,
{
    if start < i {
        lemma_open_comments(s, start, end, i - 1);
        assert(!Until::CommentEnd.stops(s, start, i - 1));
    }
}

/// A block comment in which no other one opens ends at the first star that a
/// slash follows.
pub proof fn law_comment_without_nested_ones(s: Seq<char>, start: int, star: int)
    requires
        0 <= start <= star,
        star + 1 < s.len(),
        s[star] == '*' && s[star + 1] == '/',
        forall|j: int|
            start <= j < star ==> !(#[trigger] s[j] == '*' && s[j + 1] == '/') && !(s[j] == '/'
                && s[j + 1] == '*'),
    ensures
        grammar::block_comment(s, start) == (
            TokenView::BlockComment(s.subrange(start, star)),
            star + 2,
        ),
{
    lemma_no_delimiters(s, start, star, star);
    assert(Until::CommentEnd.stops(s, start, star + 1));
    until::lemma_first_stop(Until::CommentEnd, s, start, start);
    let end = Until::CommentEnd.end(s, start);
    if end <= star {
        lemma_no_delimiters(s, start, star, end);
    }
}

proof fn lemma_no_delimiters(s: Seq<char>, start: int, star: int, i: int)
    requires
        0 <= start <= i <= star < s.len(),
        forall|j: int|
            start <= j < star ==> !(#[trigger] s[j] == '*' && s[j + 1] == '/') && !(s[j] == '/'
                && s[j + 1] == '*'),
    ensures
        !until::opens_comment(s, start, i),
        !until::closes_comment(s, start, i),
        until::open_comments(s, start, i) == 0,
        until::open_comments(s, start, i + 1) == 0,
    decreases i - start,
{
    if start < i {
        lemma_no_delimiters(s, start, star, i - 1);
        assert(!(s[i - 1] == '*' && s[i] == '/'));
    }
    assert(!until::opens_comment(s, start, i));
    assert(!until::closes_comment(s, start, i));
    assert(until::open_comments(s, start, i + 1) == until::open_comments(s, start, i));
}

} // verus!

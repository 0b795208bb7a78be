//! How tokens are written, character by character.
//!
//! Most of these laws take the number of the character before which a token ends
//! and say what makes it end there. There is always exactly one such character.

use vstd::prelude::*;

use crate::chars;
use crate::expr;
use crate::grammar;
use crate::lines;
use crate::syntax::{Span, Spanned, Token, TokenView};
use crate::tokens::{views, TokenMode, TokensView};
use crate::until::{self, Until};

verus! {

/// Which characters denote a newline, are white space, digits and so on, by their
/// code points.
pub proof fn law_char_classes(c: char)
    ensures
        ({
            let n = c as u32;
            &&& chars::newline_char(c) <==> n == 0xA || n == 0xB || n == 0xC || n == 0xD || n
                == 0x85 || n == 0x2028 || n == 0x2029
            &&& chars::white_space(c) <==> {
                ||| n == 9 || n == 0xA || n == 0xB || n == 0xC || n == 0xD || n == 0x20
                ||| n == 0x85 || n == 0xA0 || n == 0x1680
                ||| n == 0x2000 || n == 0x2001 || n == 0x2002 || n == 0x2003 || n == 0x2004
                ||| n == 0x2005 || n == 0x2006 || n == 0x2007 || n == 0x2008 || n == 0x2009
                ||| n == 0x200A || n == 0x2028 || n == 0x2029 || n == 0x202F || n == 0x205F
                ||| n == 0x3000
            }
            &&& chars::digit(c) <==> 0x30 <= n < 0x30 + 10
            &&& chars::ascii_letter(c) <==> 0x41 <= n < 0x41 + 26 || 0x61 <= n < 0x61 + 26
            &&& chars::hex_digit(c) <==> 0x30 <= n < 0x30 + 10 || 0x41 <= n < 0x41 + 6 || 0x61 <= n
                < 0x61 + 6
            &&& chars::exponent_char(c) <==> c == 'e' || c == 'E'
            &&& chars::escapable(c) <==> c == '[' || c == ']' || c == '\\' || c == '/' || c == '*'
                || c == '_' || c == '`' || c == '"' || c == '#' || c == '~'
        }),
{
}

/// Every character moves the position: to the start of the next line if it is one
/// of the newline characters, to the next column if it is none. A Carriage Return
/// before a Line Feed leaves the newline to the Line Feed.
pub proof fn law_positions_step(s: Seq<char>, k: int)
    requires
        0 <= k < s.len() <= usize::MAX,
    ensures
        ({
            let c = s[k];
            let crlf = c == '\r' && k + 1 < s.len() && s[k + 1] == '\n';
            let newline = c == '\n' || c == '\u{B}' || c == '\u{C}' || c == '\r' || c == '\u{85}'
                || c == '\u{2028}' || c == '\u{2029}';
            let before = lines::pos_of(s, k);
            let after = lines::pos_of(s, k + 1);
            if newline && !crlf {
                after.line == before.line + 1 && after.column == 0
            } else {
                after.line == before.line && after.column == before.column + 1
            }
        }),
        lines::pos_of(s, k).line == lines::line_of(s, k),
        lines::pos_of(s, k).column == lines::column_of(s, k),
{
    lines::lemma_pos_bound(s, k);
    lines::lemma_pos_bound(s, k + 1);
}

/// Source code starts on the first line in the first column. A position is that
/// of a character and a span goes from one position to another.
pub proof fn law_positions_start(s: Seq<char>, a: int, b: int)
    ensures
        lines::pos_of(s, 0).line == 0,
        lines::pos_of(s, 0).column == 0,
        lines::span_of(s, a, b).start == lines::pos_of(s, a),
        lines::span_of(s, a, b).end == lines::pos_of(s, b),
{
}

/// Pushing a mode changes to that mode and popping one changes to the mode before
/// the last push. Neither these nor moving on change anything else.
pub proof fn law_modes(tokens: TokensView, at: int, mode: TokenMode, other: TokenMode)
    ensures
        ({
            let pushed = tokens.pushed(mode);
            let popped = pushed.pushed(other).moved(at).popped();
            &&& pushed.mode == mode
            &&& pushed.src == tokens.src
            &&& pushed.at == tokens.at
            &&& pushed.stack.len() == tokens.stack.len() + 1
            &&& popped.mode == mode
            &&& popped.src == tokens.src
            &&& popped.at == at
            &&& popped.stack == pushed.stack
            &&& popped.popped().mode == tokens.mode
            &&& popped.popped().stack == tokens.stack
            &&& tokens.moved(at).at == at
            &&& tokens.moved(at).src == tokens.src
            &&& tokens.moved(at).mode == tokens.mode
            &&& tokens.moved(at).stack == tokens.stack
        }),
{
    let pushed = tokens.pushed(mode);
    assert(pushed.stack.push(mode).drop_last() =~= pushed.stack);
    assert(pushed.stack.drop_last() =~= tokens.stack);
}

/// The next character is the first one of what is not read.
pub proof fn law_next_char(tokens: TokensView)
    requires
        0 <= tokens.at <= tokens.src.len(),
    ensures
        ({
            let rest = tokens.src.skip(tokens.at);
            &&& tokens.next_char() is None <==> rest.len() == 0
            &&& tokens.next_char() matches Some(c) ==> c == rest[0]
        }),
{
}

/// All tokens are the first one and all tokens behind it. At the end of the source
/// code there are none.
pub proof fn law_tokens_one_by_one(s: Seq<char>, at: int, mode: TokenMode)
    requires
        0 <= at < s.len(),
    ensures
        ({
            let (token, end) = grammar::token_at(s, at, mode);
            let span = Span { start: lines::pos_of(s, at), end: lines::pos_of(s, end) };
            let all = grammar::tokens_from(s, at, mode);
            let later = grammar::tokens_from(s, end, mode);
            &&& at < end <= s.len()
            &&& all == seq![Spanned { v: token, span }] + later
            &&& grammar::tokens_from(s, s.len() as int, mode).len() == 0
        }),
{
    grammar::lemma_token_end(s, at, mode);
}

/// A token as it is yielded is told by what it holds.
pub proof fn law_token_views(token: Token)
    ensures
        match token {
            Token::Space(newlines) => token@ == TokenView::Space(newlines as nat),
            Token::LineComment(text) => token@ == TokenView::LineComment(text@),
            Token::BlockComment(text) => token@ == TokenView::BlockComment(text@),
            Token::Ident(text) => token@ == TokenView::Ident(text@),
            Token::Bool(value) => token@ == TokenView::Bool(value),
            Token::Number { digits, percent } => {
                token@ == TokenView::Number { digits: digits@, percent }
            },
            Token::Length { digits, unit } => token@ == TokenView::Length { digits: digits@, unit },
            Token::Hex(text) => token@ == TokenView::Hex(text@),
            Token::Str { string, terminated } => {
                token@ == TokenView::Str { string: string@, terminated }
            },
            Token::UnicodeEscape { sequence, terminated } => {
                token@ == TokenView::UnicodeEscape { sequence: sequence@, terminated }
            },
            Token::Raw { backticks, lang, raw, terminated } => {
                &&& token@ is Raw
                &&& token@->backticks == backticks
                &&& token@->raw == raw@
                &&& token@->Raw_terminated == terminated
                &&& token@->lang is Some <==> lang is Some
                &&& lang matches Some(tag) ==> token@->lang == Some(tag@)
            },
            Token::Text(text) => token@ == TokenView::Text(text@),
            Token::Invalid(text) => token@ == TokenView::Invalid(text@),
            Token::LeftBracket => token@ is LeftBracket,
            Token::RightBracket => token@ is RightBracket,
            Token::LeftBrace => token@ is LeftBrace,
            Token::RightBrace => token@ is RightBrace,
            Token::LeftParen => token@ is LeftParen,
            Token::RightParen => token@ is RightParen,
            Token::Colon => token@ is Colon,
            Token::Comma => token@ is Comma,
            Token::Equals => token@ is Equals,
            Token::Chain => token@ is Chain,
            Token::Plus => token@ is Plus,
            Token::Hyphen => token@ is Hyphen,
            Token::Slash => token@ is Slash,
            Token::Star => token@ is Star,
            Token::Underscore => token@ is Underscore,
            Token::Hashtag => token@ is Hashtag,
            Token::Backslash => token@ is Backslash,
        },
{
}

/// Collected tokens are all there, in their order, each with its span.
pub proof fn law_collected_views(tokens: Seq<Spanned<Token>>, i: int)
    requires
        0 <= i < tokens.len(),
    ensures
        views(tokens).len() == tokens.len(),
        views(tokens)[i].v == tokens[i].v@,
        views(tokens)[i].span == tokens[i].span,
{
}

/// Reading stops at a character if it stops there and at none before.
proof fn lemma_end(until: Until, s: Seq<char>, start: int, end: int)
    requires
        0 <= start <= end <= s.len(),
        forall|j: int| start <= j < end ==> !#[trigger] until.stops(s, start, j),
        end < s.len() ==> until.stops(s, start, end),
    ensures
        until.end(s, start) == end,
{
    until::lemma_first_stop(until, s, start, start);
    let e = until.end(s, start);
    if e < end {
        assert(until.stops(s, start, e));
    }
}

/// Two slashes start a comment that takes everything up to the first newline
/// character, or up to the end of the source code.
pub proof fn law_line_comment(s: Seq<char>, at: int, mode: TokenMode, end: int)
    requires
        0 <= at,
        at + 2 <= end <= s.len(),
        s[at] == '/' && s[at + 1] == '/',
        forall|j: int| at + 2 <= j < end ==> !chars::newline_char(#[trigger] s[j]),
        end < s.len() ==> chars::newline_char(s[end]),
    ensures
        grammar::token_at(s, at, mode) == (
            TokenView::LineComment(s.subrange(at + 2, end)),
            end,
        ),
{
    lemma_end(Until::LineEnd, s, at + 2, end);
}

/// What comes to the same as counting the open comments, does so for every
/// character of a comment.
proof fn lemma_nesting(
    s: Seq<char>,
    start: int,
    end: int,
    opens: spec_fn(int) -> bool,
    closes: spec_fn(int) -> bool,
    depth: spec_fn(int) -> int,
    i: int,
)
    requires
        0 <= start <= i < end <= s.len(),
        forall|j: int|
            start <= j < end ==> #[trigger] opens(j) == (start < j && s[j - 1] == '/' && s[j] == '*'
                && !closes(j - 1)),
        forall|j: int|
            start <= j < end ==> #[trigger] closes(j) == (start < j && s[j - 1] == '*' && s[j]
                == '/' && !opens(j - 1)),
        depth(start) == 0,
        forall|j: int|
            start < j < end ==> #[trigger] depth(j) == depth(j - 1) + if opens(j - 1) {
                1int
            } else if closes(j - 1) {
                -1
            } else {
                0
            },
    ensures
        until::opens_comment(s, start, i) == opens(i),
        until::closes_comment(s, start, i) == closes(i),
        until::open_comments(s, start, i) == depth(i),
    decreases i - start,
{
    if start < i {
        lemma_nesting(s, start, end, opens, closes, depth, i - 1);
    }
    assert(opens(i) == (start < i && s[i - 1] == '/' && s[i] == '*' && !closes(i - 1)));
    assert(closes(i) == (start < i && s[i - 1] == '*' && s[i] == '/' && !opens(i - 1)));
}

/// A slash and a star start a block comment that ends with the first star and slash
/// that close no nested comment. Here `opens` and `closes` say with which characters
/// delimiters are complete: with the second of a slash and a star or a star and a
/// slash, where the first does not already complete another one. `depth` says how
/// many nested comments are open before a character: one more behind each that
/// opens, one less behind each that closes, and the same behind anything else.
pub proof fn law_block_comment(
    s: Seq<char>,
    at: int,
    mode: TokenMode,
    end: int,
    opens: spec_fn(int) -> bool,
    closes: spec_fn(int) -> bool,
    depth: spec_fn(int) -> int,
)
    requires
        0 <= at,
        at + 2 < end <= s.len(),
        s[at] == '/' && s[at + 1] == '*',
        forall|j: int|
            at + 2 <= j < end ==> #[trigger] opens(j) == (at + 2 < j && s[j - 1] == '/' && s[j]
                == '*' && !closes(j - 1)),
        forall|j: int|
            at + 2 <= j < end ==> #[trigger] closes(j) == (at + 2 < j && s[j - 1] == '*' && s[j]
                == '/' && !opens(j - 1)),
        depth(at + 2) == 0,
        forall|j: int|
            at + 2 < j < end ==> #[trigger] depth(j) == depth(j - 1) + if opens(j - 1) {
                1int
            } else if closes(j - 1) {
                -1
            } else {
                0
            },
        closes(end - 1) && depth(end - 1) == 0,
        forall|j: int| at + 2 <= j < end - 1 && #[trigger] closes(j) ==> depth(j) != 0,
    ensures
        grammar::token_at(s, at, mode) == (
            TokenView::BlockComment(s.subrange(at + 2, end - 2)),
            end,
        ),
{
    let start = at + 2;
    lemma_nesting(s, start, end, opens, closes, depth, end - 1);
    assert forall|j: int| start <= j < end - 1 implies !#[trigger] Until::CommentEnd.stops(
        s,
        start,
        j,
    ) by {
        lemma_nesting(s, start, end, opens, closes, depth, j);
    }
    lemma_end(Until::CommentEnd, s, start, end - 1);
}

/// A block comment in which every star and slash close a nested comment takes the
/// rest of the source code. What `opens`, `closes` and `depth` say is what they say
/// in [`law_block_comment`].
pub proof fn law_block_comment_without_end(
    s: Seq<char>,
    at: int,
    mode: TokenMode,
    opens: spec_fn(int) -> bool,
    closes: spec_fn(int) -> bool,
    depth: spec_fn(int) -> int,
)
    requires
        0 <= at,
        at + 2 <= s.len(),
        s[at] == '/' && s[at + 1] == '*',
        forall|j: int|
            at + 2 <= j < s.len() ==> #[trigger] opens(j) == (at + 2 < j && s[j - 1] == '/' && s[j]
                == '*' && !closes(j - 1)),
        forall|j: int|
            at + 2 <= j < s.len() ==> #[trigger] closes(j) == (at + 2 < j && s[j - 1] == '*' && s[j]
                == '/' && !opens(j - 1)),
        depth(at + 2) == 0,
        forall|j: int|
            at + 2 < j < s.len() ==> #[trigger] depth(j) == depth(j - 1) + if opens(j - 1) {
                1int
            } else if closes(j - 1) {
                -1
            } else {
                0
            },
        forall|j: int| at + 2 <= j < s.len() && #[trigger] closes(j) ==> depth(j) != 0,
    ensures
        grammar::token_at(s, at, mode) == (
            TokenView::BlockComment(s.skip(at + 2)),
            s.len() as int,
        ),
{
    let start = at + 2;
    assert forall|j: int| start <= j < s.len() implies !#[trigger] Until::CommentEnd.stops(
        s,
        start,
        j,
    ) by {
        lemma_nesting(s, start, s.len() as int, opens, closes, depth, j);
    }
    lemma_end(Until::CommentEnd, s, start, s.len() as int);
}

/// The number of open comments changes only behind delimiters: it is one more behind
/// each that opens a comment, one less behind each that closes one, and the same
/// behind every other character, whichever it is.
pub proof fn law_open_comments_step(s: Seq<char>, start: int, i: int)
    requires
        start <= i,
    ensures
        until::open_comments(s, start, start) == 0,
        !until::opens_comment(s, start, start) && !until::closes_comment(s, start, start),
        until::open_comments(s, start, i + 1) == until::open_comments(s, start, i)
            + if until::opens_comment(s, start, i) {
            1int
        } else if until::closes_comment(s, start, i) {
            -1
        } else {
            0
        },
        s[i] != '/' && s[i] != '*' ==> until::open_comments(s, start, i + 1)
            == until::open_comments(s, start, i),
{
}

/// A block comment goes on behind one that is nested in it, whatever the two hold
/// besides slashes and stars.
pub proof fn law_nested_comment(
    x: Seq<char>,
    y: Seq<char>,
    z: Seq<char>,
    rest: Seq<char>,
    mode: TokenMode,
)
    requires
        forall|j: int| 0 <= j < x.len() ==> #[trigger] x[j] != '/' && x[j] != '*',
        forall|j: int| 0 <= j < y.len() ==> #[trigger] y[j] != '/' && y[j] != '*',
        forall|j: int| 0 <= j < z.len() ==> #[trigger] z[j] != '/' && z[j] != '*',
    ensures
        ({
            let text = x + seq!['/', '*'] + y + seq!['*', '/'] + z;
            let comment = seq!['/', '*'] + text + seq!['*', '/'];
            grammar::token_at(comment + rest, 0, mode) == (
                TokenView::BlockComment(text),
                comment.len() as int,
            )
        }),
{
    let text = x + seq!['/', '*'] + y + seq!['*', '/'] + z;
    let comment = seq!['/', '*'] + text + seq!['*', '/'];
    let s = comment + rest;
    // The star that opens the nested comment, the slash that closes it and the one
    // that closes the outer one.
    let a: int = 3 + x.len() as int;
    let b: int = a + y.len() + 2;
    let end: int = b + z.len() + 3;
    let opens = |j: int| j == a;
    let closes = |j: int| j == b || j == end - 1;
    let depth = |j: int|
        if a < j <= b {
            1int
        } else {
            0
        };
    assert(comment.len() == end);
    assert(s[a - 1] == '/' && s[a] == '*');
    assert(s[b - 1] == '*' && s[b] == '/');
    assert(s[end - 2] == '*' && s[end - 1] == '/');
    assert forall|j: int| 2 <= j < end && j != a - 1 && j != a && j != b - 1 && j != b && j != end - 2
        && j != end - 1 implies #[trigger] s[j] != '/' && s[j] != '*' by {
        if j < a - 1 {
            assert(s[j] == x[j - 2]);
        } else if j < b - 1 {
            assert(s[j] == y[j - a - 1]);
        } else {
            assert(s[j] == z[j - b - 1]);
        }
    }
    law_block_comment(s, 0, mode, end, opens, closes, depth);
    assert(s.subrange(2, end - 2) =~= text);
}

/// White space is one token up to the first character that is no white space. It
/// holds by how many lines the position moves.
pub proof fn law_space(s: Seq<char>, at: int, mode: TokenMode, end: int)
    requires
        0 <= at < end <= s.len() <= usize::MAX,
        forall|j: int| at <= j < end ==> chars::white_space(#[trigger] s[j]),
        end < s.len() ==> !chars::white_space(s[end]),
    ensures
        grammar::token_at(s, at, mode) == (
            TokenView::Space((lines::pos_of(s, end).line - lines::pos_of(s, at).line) as nat),
            end,
        ),
        lines::pos_of(s, at).line <= lines::pos_of(s, end).line,
{
    assert(chars::white_space(s[at]));
    lemma_end(Until::SpaceEnd, s, at + 1, end);
    lines::lemma_pos_bound(s, at);
    lines::lemma_pos_bound(s, end);
    lines::lemma_line_monotone(s, at, end);
}

/// Brackets, braces and stars mean the same in both modes, and the end of a comment
/// that did not start is invalid.
pub proof fn law_common_symbols(s: Seq<char>, at: int, mode: TokenMode)
    requires
        0 <= at < s.len(),
    ensures
        ({
            let (token, end) = grammar::token_at(s, at, mode);
            let one = end == at + 1;
            &&& s[at] == '[' ==> token == TokenView::LeftBracket && one
            &&& s[at] == ']' ==> token == TokenView::RightBracket && one
            &&& s[at] == '{' ==> token == TokenView::LeftBrace && one
            &&& s[at] == '}' ==> token == TokenView::RightBrace && one
            &&& s[at] == '*' ==> if at + 1 < s.len() && s[at + 1] == '/' {
                token == TokenView::Invalid(seq!['*', '/']) && end == at + 2
            } else {
                token == TokenView::Star && one
            }
        }),
{
}

/// Underscores, hashtags and tildes are tokens of their own in a body.
pub proof fn law_body_symbols(s: Seq<char>, at: int)
    requires
        0 <= at < s.len(),
    ensures
        ({
            let (token, end) = grammar::token_at(s, at, TokenMode::Body);
            let one = end == at + 1;
            &&& s[at] == '_' ==> token == TokenView::Underscore && one
            &&& s[at] == '#' ==> token == TokenView::Hashtag && one
            &&& s[at] == '~' ==> token == TokenView::Text(seq!['\u{00A0}']) && one
        }),
{
}

/// Parentheses, separators and operators are tokens of their own in a header. So
/// are two chevrons, and a slash that starts no comment.
pub proof fn law_header_symbols(s: Seq<char>, at: int)
    requires
        0 <= at < s.len(),
    ensures
        ({
            let (token, end) = grammar::token_at(s, at, TokenMode::Header);
            let one = end == at + 1;
            &&& s[at] == '(' ==> token == TokenView::LeftParen && one
            &&& s[at] == ')' ==> token == TokenView::RightParen && one
            &&& s[at] == ':' ==> token == TokenView::Colon && one
            &&& s[at] == ',' ==> token == TokenView::Comma && one
            &&& s[at] == '=' ==> token == TokenView::Equals && one
            &&& s[at] == '+' ==> token == TokenView::Plus && one
            &&& s[at] == '-' ==> token == TokenView::Hyphen && one
            &&& s[at] == '/' && !(at + 1 < s.len() && (s[at + 1] == '/' || s[at + 1] == '*'))
                ==> token == TokenView::Slash && one
            &&& s[at] == '>' && at + 1 < s.len() && s[at + 1] == '>' ==> token == TokenView::Chain
                && end == at + 2
        }),
{
}

/// A hashtag in a header starts a hex value of all letters and digits of ASCII that
/// follow it.
pub proof fn law_hex_value(s: Seq<char>, at: int, end: int)
    requires
        0 <= at < end <= s.len(),
        s[at] == '#',
        forall|j: int|
            at < j < end ==> '0' <= #[trigger] s[j] <= '9' || 'a' <= s[j] <= 'z' || 'A' <= s[j]
                <= 'Z',
        end < s.len() ==> !('0' <= s[end] <= '9') && !('a' <= s[end] <= 'z') && !('A' <= s[end]
            <= 'Z'),
    ensures
        grammar::token_at(s, at, TokenMode::Header) == (
            TokenView::Hex(s.subrange(at + 1, end)),
            end,
        ),
{
    lemma_end(Until::AlphanumericEnd, s, at + 1, end);
}

/// A character is escaped exactly if it is preceded by an odd number of
/// backslashes, inside of the text that starts at `start`.
pub proof fn law_escaped_by_odd_backslashes(s: Seq<char>, start: int, i: int, n: int)
    requires
        0 <= n <= i - start,
        forall|j: int| i - n <= j < i ==> #[trigger] s[j] == '\\',
        i - n == start || s[i - n - 1] != '\\',
    ensures
        until::escaped(s, start, i) <==> n % 2 == 1,
    decreases n,
{
    if n > 0 {
        assert(s[i - 1] == '\\');
        law_escaped_by_odd_backslashes(s, start, i - 1, n - 1);
    }
}

/// A string reaches up to the first quote that an even number of backslashes
/// precedes. Here `n` counts the backslashes directly before a character, inside of
/// the string.
pub proof fn law_string(s: Seq<char>, at: int, quote: int, n: spec_fn(int) -> int)
    requires
        0 <= at < quote < s.len(),
        s[at] == '"' && s[quote] == '"',
        forall|i: int|
            at < i <= quote ==> {
                &&& 0 <= #[trigger] n(i) <= i - at - 1
                &&& i - n(i) == at + 1 || s[i - n(i) - 1] != '\\'
                &&& forall|j: int| i - n(i) <= j < i ==> #[trigger] s[j] == '\\'
            },
        n(quote) % 2 == 0,
        forall|i: int| at < i < quote && #[trigger] s[i] == '"' ==> n(i) % 2 == 1,
    ensures
        grammar::token_at(s, at, TokenMode::Header) == (
            TokenView::Str { string: s.subrange(at + 1, quote), terminated: true },
            quote + 1,
        ),
{
    let start = at + 1;
    law_escaped_by_odd_backslashes(s, start, quote, n(quote));
    assert forall|j: int| start <= j < quote implies !#[trigger] Until::Unescaped('"').stops(
        s,
        start,
        j,
    ) by {
        law_escaped_by_odd_backslashes(s, start, j, n(j));
    }
    lemma_end(Until::Unescaped('"'), s, start, quote);
}

/// A string in which an odd number of backslashes precedes every quote takes the
/// rest of the source code. Here `n` counts the backslashes directly before a
/// character, inside of the string.
pub proof fn law_string_without_end(s: Seq<char>, at: int, n: spec_fn(int) -> int)
    requires
        0 <= at < s.len(),
        s[at] == '"',
        forall|i: int|
            at < i < s.len() ==> {
                &&& 0 <= #[trigger] n(i) <= i - at - 1
                &&& i - n(i) == at + 1 || s[i - n(i) - 1] != '\\'
                &&& forall|j: int| i - n(i) <= j < i ==> #[trigger] s[j] == '\\'
            },
        forall|i: int| at < i < s.len() && #[trigger] s[i] == '"' ==> n(i) % 2 == 1,
    ensures
        grammar::token_at(s, at, TokenMode::Header) == (
            TokenView::Str { string: s.skip(at + 1), terminated: false },
            s.len() as int,
        ),
{
    let start = at + 1;
    assert forall|j: int| start <= j < s.len() implies !#[trigger] Until::Unescaped('"').stops(
        s,
        start,
        j,
    ) by {
        law_escaped_by_odd_backslashes(s, start, j, n(j));
    }
    lemma_end(Until::Unescaped('"'), s, start, s.len() as int);
    assert(s.subrange(start, s.len() as int) =~= s.skip(start));
}

/// Opening backticks with a language tag behind them, up to where the raw text
/// starts: all backticks in a row belong to the opening ones, and behind two or more
/// the tag takes everything up to the first backtick or white space.
proof fn lemma_raw_start(s: Seq<char>, at: int, tag: int, start: int)
    requires
        0 <= at < tag <= start <= s.len(),
        forall|j: int| at <= j < tag ==> #[trigger] s[j] == '`',
        tag < s.len() ==> s[tag] != '`',
        tag == at + 1 ==> start == tag,
        tag > at + 1 ==> {
            &&& forall|j: int|
                tag <= j < start ==> #[trigger] s[j] != '`' && !chars::white_space(s[j])
            &&& start < s.len() ==> s[start] == '`' || chars::white_space(s[start])
        },
    ensures
        grammar::backticks_end(s, at) == tag,
        tag > at + 1 ==> Until::TagEnd.end(s, tag) == start,
{
    grammar::lemma_backticks_end(s, at);
    let end = grammar::backticks_end(s, at);
    if tag < end {
        assert(s[tag] == '`');
    } else if end < tag {
        assert(s[end] == '`');
    }
    if tag > at + 1 {
        lemma_end(Until::TagEnd, s, tag, start);
    }
}

/// A raw block starts with all backticks in a row. Behind two or more of them, the
/// language tag takes everything up to the first backtick or white space; behind
/// one there is no tag. The text ends before the first backticks that are equally
/// many.
pub proof fn law_raw(s: Seq<char>, at: int, tag: int, start: int, end: int)
    requires
        0 <= at < tag <= start,
        start + (tag - at) <= end <= s.len(),
        forall|j: int| at <= j < tag ==> #[trigger] s[j] == '`',
        s[tag] != '`',
        tag == at + 1 ==> start == tag,
        tag > at + 1 ==> {
            &&& forall|j: int|
                tag <= j < start ==> #[trigger] s[j] != '`' && !chars::white_space(s[j])
            &&& s[start] == '`' || chars::white_space(s[start])
        },
        forall|j: int| end - (tag - at) <= j < end ==> #[trigger] s[j] == '`',
        forall|b: int|
            start <= b < end - (tag - at) && #[trigger] s[b] == '`' ==> exists|j: int|
                b < j < b + (tag - at) && #[trigger] s[j] != '`',
    ensures
        grammar::token_at(s, at, TokenMode::Body) == (
            TokenView::Raw {
                backticks: (tag - at) as nat,
                lang: if tag < start {
                    Some(
                        Spanned {
                            v: s.subrange(tag, start),
                            span: Span {
                                start: lines::pos_of(s, tag),
                                end: lines::pos_of(s, start),
                            },
                        },
                    )
                } else {
                    None
                },
                raw: s.subrange(start, end - (tag - at)),
                terminated: true,
            },
            end,
        ),
{
    let n = tag - at;
    lemma_raw_start(s, at, tag, start);
    grammar::lemma_raw_end(s, start, n, start);
    assert(grammar::closes_raw(s, start, n, end));
    let first = grammar::raw_end(s, start, n, start)->0;
    if first < end {
        assert(s[first - n] == '`');
    }
    assert(s[at] == '`');
}

/// A raw block without closing backticks takes the rest of the source code.
pub proof fn law_raw_without_end(s: Seq<char>, at: int, tag: int, start: int)
    requires
        0 <= at < tag <= start <= s.len(),
        forall|j: int| at <= j < tag ==> #[trigger] s[j] == '`',
        tag < s.len() ==> s[tag] != '`',
        tag == at + 1 ==> start == tag,
        tag > at + 1 ==> {
            &&& forall|j: int|
                tag <= j < start ==> #[trigger] s[j] != '`' && !chars::white_space(s[j])
            &&& start < s.len() ==> s[start] == '`' || chars::white_space(s[start])
        },
        forall|b: int|
            start <= b <= s.len() - (tag - at) && #[trigger] s[b] == '`' ==> exists|j: int|
                b < j < b + (tag - at) && #[trigger] s[j] != '`',
    ensures
        grammar::token_at(s, at, TokenMode::Body) == (
            TokenView::Raw {
                backticks: (tag - at) as nat,
                lang: if tag < start {
                    Some(
                        Spanned {
                            v: s.subrange(tag, start),
                            span: Span {
                                start: lines::pos_of(s, tag),
                                end: lines::pos_of(s, start),
                            },
                        },
                    )
                } else {
                    None
                },
                raw: s.skip(start),
                terminated: false,
            },
            s.len() as int,
        ),
{
    let n = tag - at;
    lemma_raw_start(s, at, tag, start);
    grammar::lemma_raw_end(s, start, n, start);
    if let Some(end) = grammar::raw_end(s, start, n, start) {
        assert(s[end - n] == '`');
    }
    assert(s[at] == '`');
}

/// A backslash, the letter `u` and a left brace start a unicode escape. Its
/// sequence is made of all hexadecimal digits that follow, however many, and it is
/// terminated by a right brace directly behind them.
pub proof fn law_unicode_escape(s: Seq<char>, at: int, end: int)
    requires
        0 <= at,
        at + 3 <= end <= s.len(),
        s[at] == '\\' && s[at + 1] == 'u' && s[at + 2] == '{',
        forall|j: int|
            at + 3 <= j < end ==> '0' <= #[trigger] s[j] <= '9' || 'a' <= s[j] <= 'f' || 'A' <= s[j]
                <= 'F',
        end < s.len() ==> !('0' <= s[end] <= '9') && !('a' <= s[end] <= 'f') && !('A' <= s[end]
            <= 'F'),
    ensures
        ({
            let terminated = end < s.len() && s[end] == '}';
            grammar::token_at(s, at, TokenMode::Body) == (
                TokenView::UnicodeEscape { sequence: s.subrange(at + 3, end), terminated },
                if terminated {
                    end + 1
                } else {
                    end
                },
            )
        }),
{
    lemma_end(Until::HexDigitsEnd, s, at + 3, end);
}

/// A backslash in a body makes text of the symbol behind it, if that is one of ten.
/// With the letter `u` but no brace it is itself text together with the letter.
/// Before any other character that is no white space, it is text alone, and before
/// white space or the end of the source code a token of its own.
pub proof fn law_backslash(s: Seq<char>, at: int)
    requires
        0 <= at < s.len(),
        s[at] == '\\',
    ensures
        ({
            let next = at + 1;
            let result = grammar::token_at(s, at, TokenMode::Body);
            if next == s.len() || chars::white_space(s[next]) {
                result == (TokenView::Backslash, next)
            } else if s[next] == 'u' {
                next + 1 < s.len() && s[next + 1] == '{' || result == (
                    TokenView::Text(seq!['\\', 'u']),
                    next + 1,
                )
            } else if s[next] == '[' || s[next] == ']' || s[next] == '\\' || s[next] == '/'
                || s[next] == '*' || s[next] == '_' || s[next] == '`' || s[next] == '"' || s[next]
                == '#' || s[next] == '~' {
                result == (TokenView::Text(seq![s[next]]), next + 1)
            } else {
                result == (TokenView::Text(seq!['\\']), next)
            }
        }),
{
}

/// Text in a body reaches up to the first white space or symbol. It starts with a
/// character that is neither, or with a slash that starts no comment.
pub proof fn law_text(s: Seq<char>, at: int, end: int)
    requires
        0 <= at < end <= s.len(),
        !chars::white_space(s[at]),
        s[at] == '/' && at + 1 < s.len() ==> s[at + 1] != '/' && s[at + 1] != '*',
        s[at] != '[' && s[at] != ']' && s[at] != '{' && s[at] != '}' && s[at] != '*',
        s[at] != '\\' && s[at] != '_' && s[at] != '`' && s[at] != '#' && s[at] != '~',
        forall|j: int|
            at < j < end ==> {
                &&& !chars::white_space(#[trigger] s[j])
                &&& s[j] != '[' && s[j] != ']' && s[j] != '{' && s[j] != '}'
                &&& s[j] != '*' && s[j] != '/' && s[j] != '\\' && s[j] != '_'
                &&& s[j] != '`' && s[j] != '#' && s[j] != '~'
            },
        end < s.len() ==> {
            ||| chars::white_space(s[end])
            ||| s[end] == '[' || s[end] == ']' || s[end] == '{' || s[end] == '}'
            ||| s[end] == '*' || s[end] == '/' || s[end] == '\\' || s[end] == '_'
            ||| s[end] == '`' || s[end] == '#' || s[end] == '~'
        },
    ensures
        grammar::token_at(s, at, TokenMode::Body) == (TokenView::Text(s.subrange(at, end)), end),
{
    lemma_end(Until::WordEnd(TokenMode::Body), s, at + 1, end);
}

/// A word in a header reaches up to the first white space or symbol. A sign ends it
/// too, unless the letter `e` stands directly before the sign, in upper or lower
/// case, and is not the first character of the word. What the word is depends on
/// its characters alone.
pub proof fn law_header_word(s: Seq<char>, at: int, end: int)
    requires
        0 <= at < end <= s.len(),
        !chars::white_space(s[at]),
        s[at] == '>' && at + 1 < s.len() ==> s[at + 1] != '>',
        s[at] != '[' && s[at] != ']' && s[at] != '{' && s[at] != '}' && s[at] != '*',
        s[at] != '/' && s[at] != '(' && s[at] != ')' && s[at] != ':' && s[at] != ',',
        s[at] != '=' && s[at] != '+' && s[at] != '-' && s[at] != '#' && s[at] != '"',
        forall|j: int|
            at < j < end ==> {
                &&& !chars::white_space(#[trigger] s[j])
                &&& s[j] != '[' && s[j] != ']' && s[j] != '{' && s[j] != '}'
                &&& s[j] != '*' && s[j] != '/' && s[j] != '(' && s[j] != ')'
                &&& s[j] != ':' && s[j] != ',' && s[j] != '=' && s[j] != '"'
                &&& s[j] == '+' || s[j] == '-' ==> j > at + 1 && (s[j - 1] == 'e' || s[j - 1]
                    == 'E')
            },
        end < s.len() ==> {
            ||| chars::white_space(s[end])
            ||| s[end] == '[' || s[end] == ']' || s[end] == '{' || s[end] == '}'
            ||| s[end] == '*' || s[end] == '/' || s[end] == '(' || s[end] == ')'
            ||| s[end] == ':' || s[end] == ',' || s[end] == '=' || s[end] == '"'
            ||| (s[end] == '+' || s[end] == '-') && !(end > at + 1 && (s[end - 1] == 'e'
                || s[end - 1] == 'E'))
        },
    ensures
        grammar::token_at(s, at, TokenMode::Header) == (
            expr::expr_token(s.subrange(at, end)),
            end,
        ),
{
    lemma_end(Until::WordEnd(TokenMode::Header), s, at + 1, end);
}

/// A word of a header holds no sign behind its first character, unless the letter
/// `e` stands directly before the sign, in upper or lower case, and is not the first
/// character of the word. That goes for booleans, numbers, lengths, identifiers and
/// invalid words.
pub proof fn law_signs_in_words(s: Seq<char>, at: int, j: int)
    requires
        0 <= at < j < grammar::token_at(s, at, TokenMode::Header).1,
        at < s.len(),
        match grammar::token_at(s, at, TokenMode::Header).0 {
            TokenView::Bool(_)
            | TokenView::Number { .. }
            | TokenView::Length { .. }
            | TokenView::Ident(_) => true,
            TokenView::Invalid(_) => s[at] != '*',
            _ => false,
        },
        s[j] == '+' || s[j] == '-',
    ensures
        j > at + 1,
        s[j - 1] == 'e' || s[j - 1] == 'E',
{
    until::lemma_first_stop(Until::WordEnd(TokenMode::Header), s, at + 1, at + 1);
    assert(!Until::WordEnd(TokenMode::Header).stops(s, at + 1, j));
}

/// The sequence of a unicode escape holds nothing but hexadecimal digits, and there
/// is none directly behind it.
pub proof fn law_unicode_escape_is_maximal(s: Seq<char>, at: int, j: int)
    requires
        0 <= at < s.len(),
        grammar::token_at(s, at, TokenMode::Body).0 is UnicodeEscape,
        0 <= j < s.len() - at - 3,
    ensures
        ({
            let sequence = grammar::token_at(s, at, TokenMode::Body).0->sequence;
            let c = s[at + 3 + j];
            let hex = '0' <= c <= '9' || 'a' <= c <= 'f' || 'A' <= c <= 'F';
            &&& j < sequence.len() ==> hex && sequence[j] == c
            &&& j == sequence.len() ==> !hex
        }),
{
    until::lemma_first_stop(Until::HexDigitsEnd, s, at + 3, at + 3);
    if j < grammar::token_at(s, at, TokenMode::Body).0->sequence.len() {
        assert(!Until::HexDigitsEnd.stops(s, at + 3, at + 3 + j));
    }
}

/// The language tag of a raw block is maximal: behind two or more backticks, what
/// follows the tag, or the backticks where there is no tag, is a backtick or white
/// space, unless the source code ends there.
pub proof fn law_tag_is_maximal(s: Seq<char>, at: int)
    requires
        0 <= at < s.len(),
        grammar::token_at(s, at, TokenMode::Body).0 is Raw,
        grammar::token_at(s, at, TokenMode::Body).0->backticks > 1,
    ensures
        ({
            let token = grammar::token_at(s, at, TokenMode::Body).0;
            let start = at + token->backticks + match token->lang {
                Some(tag) => tag.v.len() as int,
                None => 0,
            };
            start < s.len() ==> s[start] == '`' || chars::white_space(s[start])
        }),
{
    let tag = grammar::backticks_end(s, at);
    grammar::lemma_backticks_end(s, at);
    until::lemma_first_stop(Until::TagEnd, s, tag, tag);
}

} // verus!

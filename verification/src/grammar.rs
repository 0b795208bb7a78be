//! Which token stands where in source code.
//!
//! Each of these functions gives a token and the number of the first character
//! that no longer belongs to it. Where one takes a `start`, what tells the kind
//! of token has been read up to there.

use vstd::prelude::*;

use crate::chars;
use crate::expr;
use crate::lines;
use crate::syntax::{Spanned, TokenView};
use crate::tokens::TokenMode;
use crate::until::{lemma_first_stop, Until};

verus! {

/// Whether the source code has the character `c` at number `i`.
pub open spec fn char_at(s: Seq<char>, i: int, c: char) -> bool {
    0 <= i < s.len() && s[i] == c
}

/// The line comment whose text starts at `start`: it reaches up to the end of
/// the line.
pub open spec fn line_comment(s: Seq<char>, start: int) -> (TokenView, int) {
    let end = Until::LineEnd.end(s, start);
    (TokenView::LineComment(s.subrange(start, end)), end)
}

/// The block comment whose text starts at `start`: it reaches up to its closing
/// delimiter, or to the end of the source code.
pub open spec fn block_comment(s: Seq<char>, start: int) -> (TokenView, int) {
    let slash = Until::CommentEnd.end(s, start);
    if slash < s.len() {
        (TokenView::BlockComment(s.subrange(start, slash - 1)), slash + 1)
    } else {
        (TokenView::BlockComment(s.skip(start)), s.len() as int)
    }
}

/// The white space that starts at `at`: it reaches up to what is no white space.
pub open spec fn space(s: Seq<char>, at: int) -> (TokenView, int) {
    let end = Until::SpaceEnd.end(s, at + 1);
    (TokenView::Space((lines::line_of(s, end) - lines::line_of(s, at)) as nat), end)
}

/// The hex value whose digits start at `start`.
pub open spec fn hex(s: Seq<char>, start: int) -> (TokenView, int) {
    let end = Until::AlphanumericEnd.end(s, start);
    (TokenView::Hex(s.subrange(start, end)), end)
}

/// The string whose text starts at `start`: it reaches up to the first quote
/// that is not escaped, or to the end of the source code.
pub open spec fn string(s: Seq<char>, start: int) -> (TokenView, int) {
    let quote = Until::Unescaped('"').end(s, start);
    let terminated = quote < s.len();
    (
        TokenView::Str { string: s.subrange(start, quote), terminated },
        if terminated {
            quote + 1
        } else {
            quote
        },
    )
}

/// The first character from number `i` on that is no backtick.
pub open spec fn backticks_end(s: Seq<char>, i: int) -> int
    decreases s.len() - i,
{
    if char_at(s, i, '`') {
        backticks_end(s, i + 1)
    } else {
        i
    }
}

/// Whether raw text that starts at `start` is closed by `n` backticks that end
/// before the character number `end`.
pub open spec fn closes_raw(s: Seq<char>, start: int, n: int, end: int) -> bool {
    start + n <= end <= s.len() && forall|j: int| end - n <= j < end ==> s[j] == '`'
}

/// Where the first closing backticks end, from number `end` on, if there are
/// any.
pub open spec fn raw_end(s: Seq<char>, start: int, n: int, end: int) -> Option<int>
    decreases s.len() + 1 - end,
{
    if end > s.len() {
        None
    } else if closes_raw(s, start, n, end) {
        Some(end)
    } else {
        raw_end(s, start, n, end + 1)
    }
}

/// The raw block that starts at `at` with backticks. Two or more of them can be
/// followed by a language tag. The block reaches up to equally many backticks,
/// or to the end of the source code.
pub open spec fn raw(s: Seq<char>, at: int) -> (TokenView, int) {
    let tag = backticks_end(s, at);
    let n = tag - at;
    let start = if n > 1 {
        Until::TagEnd.end(s, tag)
    } else {
        tag
    };
    let lang = if tag < start {
        Some(Spanned { v: s.subrange(tag, start), span: lines::span_of(s, tag, start) })
    } else {
        None
    };
    match raw_end(s, start, n, start) {
        Some(end) => (
            TokenView::Raw {
                backticks: n as nat,
                lang,
                raw: s.subrange(start, end - n),
                terminated: true,
            },
            end,
        ),
        None => (
            TokenView::Raw { backticks: n as nat, lang, raw: s.skip(start), terminated: false },
            s.len() as int,
        ),
    }
}

/// What a backslash in a body starts, where `start` is the character behind it.
pub open spec fn escape(s: Seq<char>, start: int) -> (TokenView, int) {
    if char_at(s, start, 'u') && char_at(s, start + 1, '{') {
        let end = Until::HexDigitsEnd.end(s, start + 2);
        let terminated = char_at(s, end, '}');
        (
            TokenView::UnicodeEscape { sequence: s.subrange(start + 2, end), terminated },
            if terminated {
                end + 1
            } else {
                end
            },
        )
    } else if char_at(s, start, 'u') {
        (TokenView::Text(seq!['\\', 'u']), start + 1)
    } else if start < s.len() && chars::escapable(s[start]) {
        (TokenView::Text(seq![s[start]]), start + 1)
    } else if start < s.len() && !chars::white_space(s[start]) {
        (TokenView::Text(seq!['\\']), start)
    } else {
        (TokenView::Backslash, start)
    }
}

/// The word that starts at `at`: text in a body, an expression in a header.
pub open spec fn word(s: Seq<char>, at: int, mode: TokenMode) -> (TokenView, int) {
    let end = Until::WordEnd(mode).end(s, at + 1);
    let text = s.subrange(at, end);
    (
        match mode {
            TokenMode::Body => TokenView::Text(text),
            TokenMode::Header => expr::expr_token(text),
        },
        end,
    )
}

/// The token that starts in a body with a character that does not mean the same
/// in both modes.
pub open spec fn body_token(s: Seq<char>, at: int) -> (TokenView, int) {
    let next = at + 1;
    match s[at] {
        // Style toggles.
        '_' => (TokenView::Underscore, next),
        '`' => raw(s, at),
        // Sections.
        '#' => (TokenView::Hashtag, next),
        // Non-breaking spaces.
        '~' => (TokenView::Text(seq!['\u{00A0}']), next),
        // An escaped thing.
        '\\' => escape(s, next),
        // Just text.
        _ => word(s, at, TokenMode::Body),
    }
}

/// The token that starts in a header with a character that does not mean the
/// same in both modes.
pub open spec fn header_token(s: Seq<char>, at: int) -> (TokenView, int) {
    let next = at + 1;
    if s[at] == '>' && char_at(s, next, '>') {
        (TokenView::Chain, next + 1)
    } else {
        match s[at] {
            // Syntactic elements.
            '(' => (TokenView::LeftParen, next),
            ')' => (TokenView::RightParen, next),
            ':' => (TokenView::Colon, next),
            ',' => (TokenView::Comma, next),
            '=' => (TokenView::Equals, next),
            // Expression operators.
            '+' => (TokenView::Plus, next),
            '-' => (TokenView::Hyphen, next),
            '/' => (TokenView::Slash, next),
            // A hex expression.
            '#' => hex(s, next),
            // String values.
            '"' => string(s, next),
            // Other expressions.
            _ => word(s, at, TokenMode::Header),
        }
    }
}

/// The token that starts at the character number `at`.
pub open spec fn token_at(s: Seq<char>, at: int, mode: TokenMode) -> (TokenView, int) {
    let next = at + 1;
    // Comments.
    if s[at] == '/' && char_at(s, next, '/') {
        line_comment(s, next + 1)
    } else if s[at] == '/' && char_at(s, next, '*') {
        block_comment(s, next + 1)
    } else if s[at] == '*' && char_at(s, next, '/') {
        (TokenView::Invalid(seq!['*', '/']), next + 1)
    } else if chars::white_space(s[at]) {
        space(s, at)
    } else {
        match s[at] {
            // Functions and blocks.
            '[' => (TokenView::LeftBracket, next),
            ']' => (TokenView::RightBracket, next),
            '{' => (TokenView::LeftBrace, next),
            '}' => (TokenView::RightBrace, next),
            // A style toggle in a body, an operator in a header.
            '*' => (TokenView::Star, next),
            _ => match mode {
                TokenMode::Body => body_token(s, at),
                TokenMode::Header => header_token(s, at),
            },
        }
    }
}

/// The first characters that are no backticks stand behind all backticks.
pub proof fn lemma_backticks_end(s: Seq<char>, i: int)
    requires
        0 <= i <= s.len(),
    ensures
        i <= backticks_end(s, i) <= s.len(),
        !char_at(s, backticks_end(s, i), '`'),
        forall|j: int| i <= j < backticks_end(s, i) ==> s[j] == '`',
    decreases s.len() - i,
{
    if char_at(s, i, '`') {
        lemma_backticks_end(s, i + 1);
    }
}

/// Closing backticks end where they can and no earlier ones do.
pub proof fn lemma_raw_end(s: Seq<char>, start: int, n: int, from: int)
    ensures
        match raw_end(s, start, n, from) {
            Some(end) => {
                &&& from <= end
                &&& closes_raw(s, start, n, end)
                &&& forall|e: int| from <= e < end ==> !#[trigger] closes_raw(s, start, n, e)
            },
            None => forall|e: int| from <= e ==> !#[trigger] closes_raw(s, start, n, e),
        },
    decreases s.len() + 1 - from,
{
    if from <= s.len() && !closes_raw(s, start, n, from) {
        lemma_raw_end(s, start, n, from + 1);
    }
}

/// Every token has at least one character and ends inside of the source code.
pub proof fn lemma_token_end(s: Seq<char>, at: int, mode: TokenMode)
    requires
        0 <= at < s.len(),
    ensures
        at < token_at(s, at, mode).1 <= s.len(),
{
    let next = at + 1;
    lemma_first_stop(Until::SpaceEnd, s, next, next);
    lemma_first_stop(Until::AlphanumericEnd, s, next, next);
    lemma_first_stop(Until::Unescaped('"'), s, next, next);
    lemma_first_stop(Until::WordEnd(mode), s, next, next);
    if next < s.len() {
        lemma_first_stop(Until::LineEnd, s, next + 1, next + 1);
        lemma_first_stop(Until::CommentEnd, s, next + 1, next + 1);
        if next + 1 < s.len() {
            lemma_first_stop(Until::HexDigitsEnd, s, next + 2, next + 2);
        }
    }
    if s[at] == '`' {
        lemma_backticks_end(s, next);
        let tag = backticks_end(s, at);
        lemma_first_stop(Until::TagEnd, s, tag, tag);
        let start = if tag - at > 1 {
            Until::TagEnd.end(s, tag)
        } else {
            tag
        };
        lemma_raw_end(s, start, tag - at, start);
    }
}

/// All tokens from the character number `at` on, with their spans.
pub open spec fn tokens_from(s: Seq<char>, at: int, mode: TokenMode) -> Seq<Spanned<TokenView>>
    decreases s.len() - at,
{
    if 0 <= at < s.len() {
        let (token, end) = token_at(s, at, mode);
        let first = Spanned { v: token, span: lines::span_of(s, at, end) };
        proof {
            lemma_token_end(s, at, mode);
        }
        seq![first] + tokens_from(s, end, mode)
    } else {
        seq![]
    }
}

} // verus!

//! What is read of source code does not depend on what stands before it.
//!
//! Each of these functions compares source code with the rest of it that starts
//! at the character number `at`.

use vstd::prelude::*;

use crate::grammar;
use crate::lines;
use crate::syntax::TokenView;
use crate::text;
use crate::tokens::TokenMode;
use crate::until::{self, Until};

verus! {

/// The index is where the rest of the source code starts, in bytes: it is a
/// boundary between characters, and the bytes from there on encode exactly the
/// characters that are not read yet.
pub proof fn law_index_starts_rest(s: Seq<char>, at: int)
    requires
        0 <= at <= s.len(),
    ensures
        ({
            let bytes = vstd::utf8::encode_utf8(s);
            let index = text::byte_len(s.take(at)) as int;
            &&& 0 <= index <= bytes.len()
            &&& vstd::utf8::is_char_boundary(bytes, index)
            &&& bytes.skip(index) == vstd::utf8::encode_utf8(s.skip(at))
        }),
{
    let bytes = vstd::utf8::encode_utf8(s);
    let index = text::byte_len(s.take(at)) as int;
    text::lemma_boundary(s, at);
    text::lemma_encode_concat(s.take(at), s.skip(at));
    assert(s.take(at) + s.skip(at) =~= s);
    assert(bytes.skip(index) =~= vstd::utf8::encode_utf8(s.skip(at)));
}

/// Lines go on from the line on which the rest starts. So do columns on that
/// line; on all later ones they start anew.
pub proof fn law_positions_in_rest(s: Seq<char>, at: int, k: int)
    requires
        0 <= at,
        0 <= k,
        at + k <= s.len(),
    ensures
        ({
            let rest = s.skip(at);
            &&& lines::line_of(s, at + k) == lines::line_of(s, at) + lines::line_of(rest, k)
            &&& lines::column_of(s, at + k) == lines::column_of(rest, k) + if lines::line_of(
                rest,
                k,
            ) == 0 {
                lines::column_of(s, at)
            } else {
                0
            }
        }),
    decreases k,
{
    let rest = s.skip(at);
    if k > 0 {
        law_positions_in_rest(s, at, k - 1);
        assert(rest[k - 1] == s[at + k - 1]);
        if k < rest.len() {
            assert(rest[k] == s[at + k]);
        }
        assert(lines::ends_line(rest, k - 1) == lines::ends_line(s, at + k - 1));
    }
}

proof fn lemma_escaped_in_rest(s: Seq<char>, at: int, start: int, i: int)
    requires
        0 <= at,
        0 <= start <= i,
        at + i <= s.len(),
    ensures
        until::escaped(s.skip(at), start, i) == until::escaped(s, at + start, at + i),
    decreases i - start,
{
    if start < i {
        lemma_escaped_in_rest(s, at, start, i - 1);
        assert(s.skip(at)[i - 1] == s[at + i - 1]);
    }
}

proof fn lemma_delimiters_in_rest(s: Seq<char>, at: int, start: int, i: int)
    requires
        0 <= at,
        0 <= start <= i,
        at + i < s.len(),
    ensures
        until::opens_comment(s.skip(at), start, i) == until::opens_comment(s, at + start, at + i),
        until::closes_comment(s.skip(at), start, i) == until::closes_comment(
            s,
            at + start,
            at + i,
        ),
    decreases i - start,
{
    if start < i {
        lemma_delimiters_in_rest(s, at, start, i - 1);
        assert(s.skip(at)[i - 1] == s[at + i - 1]);
        assert(s.skip(at)[i] == s[at + i]);
    }
}

proof fn lemma_open_comments_in_rest(s: Seq<char>, at: int, start: int, i: int)
    requires
        0 <= at,
        0 <= start <= i,
        at + i <= s.len(),
    ensures
        until::open_comments(s.skip(at), start, i) == until::open_comments(s, at + start, at + i),
    decreases i - start,
{
    if start < i {
        lemma_open_comments_in_rest(s, at, start, i - 1);
        lemma_delimiters_in_rest(s, at, start, i - 1);
    }
}

proof fn lemma_stops_in_rest(until: Until, s: Seq<char>, at: int, start: int, i: int)
    requires
        0 <= at,
        0 <= start <= i,
        at + i < s.len(),
    ensures
        until.stops(s.skip(at), start, i) == until.stops(s, at + start, at + i),
{
    assert(s.skip(at)[i] == s[at + i]);
    if start < i {
        assert(s.skip(at)[i - 1] == s[at + i - 1]);
    }
    lemma_escaped_in_rest(s, at, start, i);
    lemma_delimiters_in_rest(s, at, start, i);
    lemma_open_comments_in_rest(s, at, start, i);
}

proof fn lemma_first_stop_in_rest(until: Until, s: Seq<char>, at: int, start: int, i: int)
    requires
        0 <= at,
        0 <= start <= i,
        at + i <= s.len(),
    ensures
        until.first_stop(s, at + start, at + i) == at + until.first_stop(s.skip(at), start, i),
    decreases s.len() - i,
{
    if at + i < s.len() {
        lemma_stops_in_rest(until, s, at, start, i);
        lemma_first_stop_in_rest(until, s, at, start, i + 1);
    }
}

/// What is read up to where reading stops is the same text in the rest.
proof fn lemma_end_in_rest(until: Until, s: Seq<char>, at: int, start: int)
    requires
        0 <= at,
        0 <= start,
        at + start <= s.len(),
    ensures
        until.end(s, at + start) == at + until.end(s.skip(at), start),
        start <= until.end(s.skip(at), start) <= s.len() - at,
{
    lemma_first_stop_in_rest(until, s, at, start, start);
    until::lemma_first_stop(until, s.skip(at), start, start);
}

proof fn lemma_part_of_rest(s: Seq<char>, at: int, a: int, b: int)
    requires
        0 <= at,
        0 <= a <= b,
        at + b <= s.len(),
    ensures
        s.skip(at).subrange(a, b) == s.subrange(at + a, at + b),
{
    assert(s.skip(at).subrange(a, b) =~= s.subrange(at + a, at + b));
}

proof fn lemma_backticks_in_rest(s: Seq<char>, at: int, i: int)
    requires
        0 <= at,
        0 <= i,
        at + i <= s.len(),
    ensures
        grammar::backticks_end(s, at + i) == at + grammar::backticks_end(s.skip(at), i),
    decreases s.len() - i,
{
    if grammar::char_at(s, at + i, '`') {
        assert(s.skip(at)[i] == s[at + i]);
        lemma_backticks_in_rest(s, at, i + 1);
    }
}

proof fn lemma_raw_end_in_rest(s: Seq<char>, at: int, start: int, n: int, end: int)
    requires
        0 <= at,
        0 <= start <= end,
        at + start <= s.len(),
    ensures
        grammar::raw_end(s, at + start, n, at + end) == match grammar::raw_end(
            s.skip(at),
            start,
            n,
            end,
        ) {
            Some(end) => Some(at + end),
            None => None::<int>,
        },
    decreases s.len() + 1 - end,
{
    let rest = s.skip(at);
    if at + end <= s.len() {
        if grammar::closes_raw(rest, start, n, end) {
            assert forall|j: int| at + end - n <= j < at + end implies s[j] == '`' by {
                assert(rest[j - at] == '`');
            }
        }
        if grammar::closes_raw(s, at + start, n, at + end) {
            assert forall|j: int| end - n <= j < end implies rest[j] == '`' by {
                assert(s[at + j] == '`');
            }
        }
        lemma_raw_end_in_rest(s, at, start, n, end + 1);
    }
}

/// Whether two tokens are the same, wherever a language tag stands.
pub open spec fn same_token(a: TokenView, b: TokenView) -> bool {
    match (a, b) {
        (
            TokenView::Raw { backticks: n, lang: tag, raw: text, terminated: closed },
            TokenView::Raw { backticks, lang, raw, terminated },
        ) => {
            &&& n == backticks
            &&& text == raw
            &&& closed == terminated
            &&& match (tag, lang) {
                (Some(tag), Some(lang)) => tag.v == lang.v,
                (None, None) => true,
                _ => false,
            }
        },
        _ => a == b,
    }
}

/// Whether a token of source code is that of the rest, and ends with the same
/// character.
spec fn same_in_rest(at: int, of_source: (TokenView, int), of_rest: (TokenView, int)) -> bool {
    same_token(of_source.0, of_rest.0) && of_source.1 == at + of_rest.1
}

proof fn lemma_comments_in_rest(s: Seq<char>, at: int, start: int)
    requires
        0 <= at,
        0 <= start,
        at + start <= s.len(),
    ensures
        same_in_rest(
            at,
            grammar::line_comment(s, at + start),
            grammar::line_comment(s.skip(at), start),
        ),
        same_in_rest(
            at,
            grammar::block_comment(s, at + start),
            grammar::block_comment(s.skip(at), start),
        ),
{
    let rest = s.skip(at);
    lemma_end_in_rest(Until::LineEnd, s, at, start);
    lemma_part_of_rest(s, at, start, Until::LineEnd.end(rest, start));
    lemma_end_in_rest(Until::CommentEnd, s, at, start);
    let slash = Until::CommentEnd.end(rest, start);
    if slash < rest.len() {
        until::lemma_first_stop(Until::CommentEnd, rest, start, start);
        until::lemma_comment_closer(rest, start, slash);
        lemma_part_of_rest(s, at, start, slash - 1);
    } else {
        assert(rest.skip(start) =~= s.skip(at + start));
    }
}

proof fn lemma_space_in_rest(s: Seq<char>, at: int, k: int)
    requires
        0 <= at,
        0 <= k,
        at + k < s.len(),
    ensures
        same_in_rest(at, grammar::space(s, at + k), grammar::space(s.skip(at), k)),
{
    let rest = s.skip(at);
    lemma_end_in_rest(Until::SpaceEnd, s, at, k + 1);
    law_positions_in_rest(s, at, k);
    law_positions_in_rest(s, at, Until::SpaceEnd.end(rest, k + 1));
}

proof fn lemma_values_in_rest(s: Seq<char>, at: int, start: int)
    requires
        0 <= at,
        0 <= start,
        at + start <= s.len(),
    ensures
        same_in_rest(at, grammar::hex(s, at + start), grammar::hex(s.skip(at), start)),
        same_in_rest(at, grammar::string(s, at + start), grammar::string(s.skip(at), start)),
{
    let rest = s.skip(at);
    lemma_end_in_rest(Until::AlphanumericEnd, s, at, start);
    lemma_part_of_rest(s, at, start, Until::AlphanumericEnd.end(rest, start));
    lemma_end_in_rest(Until::Unescaped('"'), s, at, start);
    lemma_part_of_rest(s, at, start, Until::Unescaped('"').end(rest, start));
}

proof fn lemma_raw_in_rest(s: Seq<char>, at: int, k: int)
    requires
        0 <= at,
        0 <= k,
        at + k < s.len(),
    ensures
        same_in_rest(at, grammar::raw(s, at + k), grammar::raw(s.skip(at), k)),
{
    let rest = s.skip(at);
    lemma_backticks_in_rest(s, at, k);
    grammar::lemma_backticks_end(rest, k);
    let tag = grammar::backticks_end(rest, k);
    let n = tag - k;
    lemma_end_in_rest(Until::TagEnd, s, at, tag);
    let start = if n > 1 {
        Until::TagEnd.end(rest, tag)
    } else {
        tag
    };
    lemma_part_of_rest(s, at, tag, start);
    lemma_raw_end_in_rest(s, at, start, n, start);
    grammar::lemma_raw_end(rest, start, n, start);
    match grammar::raw_end(rest, start, n, start) {
        Some(end) => {
            lemma_part_of_rest(s, at, start, end - n);
        },
        None => {
            assert(rest.skip(start) =~= s.skip(at + start));
        },
    }
}

proof fn lemma_escape_in_rest(s: Seq<char>, at: int, start: int)
    requires
        0 <= at,
        0 <= start,
        at + start <= s.len(),
    ensures
        same_in_rest(at, grammar::escape(s, at + start), grammar::escape(s.skip(at), start)),
{
    let rest = s.skip(at);
    if at + start + 1 < s.len() {
        lemma_end_in_rest(Until::HexDigitsEnd, s, at, start + 2);
        lemma_part_of_rest(s, at, start + 2, Until::HexDigitsEnd.end(rest, start + 2));
    }
}

proof fn lemma_word_in_rest(s: Seq<char>, at: int, k: int, mode: TokenMode)
    requires
        0 <= at,
        0 <= k,
        at + k < s.len(),
    ensures
        same_in_rest(at, grammar::word(s, at + k, mode), grammar::word(s.skip(at), k, mode)),
{
    let rest = s.skip(at);
    lemma_end_in_rest(Until::WordEnd(mode), s, at, k + 1);
    lemma_part_of_rest(s, at, k, Until::WordEnd(mode).end(rest, k + 1));
}

/// A token depends on nothing but the mode and the source code from its first
/// character on: without what stands before, it is the same token and ends with
/// the same character. Only where its language tag stands, if it has one, depends
/// on more, as [`law_positions_in_rest`] says.
pub proof fn law_token_in_rest(s: Seq<char>, at: int, k: int, mode: TokenMode)
    requires
        0 <= at,
        0 <= k,
        at + k < s.len(),
    ensures
        ({
            let (token, end) = grammar::token_at(s, at + k, mode);
            let (expected, rest_end) = grammar::token_at(s.skip(at), k, mode);
            same_token(token, expected) && end == at + rest_end
        }),
{
    let rest = s.skip(at);
    let next = k + 1;
    assert(rest[k] == s[at + k]);
    if at + next < s.len() {
        assert(rest[next] == s[at + next]);
        lemma_comments_in_rest(s, at, next + 1);
    }
    lemma_space_in_rest(s, at, k);
    lemma_values_in_rest(s, at, next);
    lemma_raw_in_rest(s, at, k);
    lemma_escape_in_rest(s, at, next);
    lemma_word_in_rest(s, at, k, mode);
}

/// The tokens from some character on depend on nothing but the mode and the
/// source code from there on: the rest alone has as many and the same ones.
pub proof fn law_tokens_in_rest(s: Seq<char>, at: int, k: int, mode: TokenMode)
    requires
        0 <= at,
        0 <= k,
        at + k <= s.len(),
    ensures
        ({
            let tokens = grammar::tokens_from(s, at + k, mode);
            let expected = grammar::tokens_from(s.skip(at), k, mode);
            &&& tokens.len() == expected.len()
            &&& forall|i: int|
                0 <= i < tokens.len() ==> same_token((#[trigger] tokens[i]).v, expected[i].v)
        }),
    decreases s.len() - k,
{
    if at + k < s.len() {
        let rest = s.skip(at);
        law_token_in_rest(s, at, k, mode);
        let end = grammar::token_at(rest, k, mode).1;
        grammar::lemma_token_end(rest, k, mode);
        law_tokens_in_rest(s, at, end, mode);
        let tokens = grammar::tokens_from(s, at + k, mode);
        let expected = grammar::tokens_from(rest, k, mode);
        let later = grammar::tokens_from(s, at + end, mode);
        let expected_later = grammar::tokens_from(rest, end, mode);
        assert forall|i: int| 0 <= i < tokens.len() implies same_token(
            (#[trigger] tokens[i]).v,
            expected[i].v,
        ) by {
            if i > 0 {
                assert(tokens[i] == later[i - 1]);
                assert(expected[i] == expected_later[i - 1]);
            }
        }
    }
}

} // verus!

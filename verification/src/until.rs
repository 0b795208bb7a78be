//! How far the tokens reach that have no fixed length.

use vstd::prelude::*;

use crate::chars;
use crate::tokens::TokenMode;

verus! {

/// What a stretch of source code is read up to.
#[derive(Debug, Copy, Clone, PartialEq, Eq, Hash)]
pub enum Until {
    /// The end of the line.
    LineEnd,
    /// The slash that closes a block comment.
    CommentEnd,
    /// The first character that is no white space.
    SpaceEnd,
    /// The end of the language tag of a raw block.
    TagEnd,
    /// The first of these characters that no backslash escapes.
    Unescaped(char),
    /// The first character that is no hexadecimal digit.
    HexDigitsEnd,
    /// The first character that is no letter or digit of ASCII.
    AlphanumericEnd,
    /// The end of a word: of text in a body, of an expression in a header.
    WordEnd(TokenMode),
}

/// Whether the character number `i` is escaped, in a text that starts at
/// `start`: whether the one before it is a backslash that is not itself escaped.
pub open spec fn escaped(s: Seq<char>, start: int, i: int) -> bool
    decreases i - start,
{
    i > start && s[i - 1] == '\\' && !escaped(s, start, i - 1)
}

/// Whether a word that is read from `start` on ends before the character number
/// `i`. In a header, signs end a word unless they can belong to an exponent.
pub open spec fn ends_word(mode: TokenMode, s: Seq<char>, start: int, i: int) -> bool {
    let c = s[i];
    ||| chars::white_space(c)
    ||| c == '[' || c == ']' || c == '{' || c == '}' || c == '/' || c == '*'
    ||| match mode {
        TokenMode::Body => c == '\\' || c == '_' || c == '`' || c == '#' || c == '~',
        TokenMode::Header => {
            ||| c == ':' || c == '=' || c == ',' || c == '"' || c == '(' || c == ')'
            ||| (c == '+' || c == '-') && !(i > start && chars::exponent_char(s[i - 1]))
        },
    }
}

/// Whether a nested comment opens with the character number `j` of a comment
/// whose text starts at `start`: whether it is a star behind a slash that is not
/// itself a part of a closing delimiter.
pub open spec fn opens_comment(s: Seq<char>, start: int, j: int) -> bool
    decreases j - start,
{
    &&& start < j
    &&& s[j] == '*'
    &&& s[j - 1] == '/'
    &&& !closes_comment(s, start, j - 1)
}

/// Whether a comment whose text starts at `start`, or one that is nested in it,
/// closes with the character number `j`: whether it is a slash behind a star
/// that is not itself a part of an opening delimiter.
pub open spec fn closes_comment(s: Seq<char>, start: int, j: int) -> bool
    decreases j - start,
{
    &&& start < j
    &&& s[j] == '/'
    &&& s[j - 1] == '*'
    &&& !opens_comment(s, start, j - 1)
}

/// How many nested comments are open before the character number `i` of a
/// comment whose text starts at `start`.
pub open spec fn open_comments(s: Seq<char>, start: int, i: int) -> int
    decreases i - start,
{
    if i <= start {
        0
    } else if opens_comment(s, start, i - 1) {
        open_comments(s, start, i - 1) + 1
    } else if closes_comment(s, start, i - 1) {
        open_comments(s, start, i - 1) - 1
    } else {
        open_comments(s, start, i - 1)
    }
}

impl Until {
    /// Whether reading from `start` on stops at the character number `i`, if it
    /// has not stopped before.
    pub open spec fn stops(self, s: Seq<char>, start: int, i: int) -> bool {
        match self {
            Until::LineEnd => chars::newline_char(s[i]),
            Until::CommentEnd => {
                // What closes does not correspond to what opened inside.
                closes_comment(s, start, i) && open_comments(s, start, i) == 0
            },
            Until::SpaceEnd => !chars::white_space(s[i]),
            Until::TagEnd => {
                s[i] == '`' || chars::white_space(s[i]) || chars::newline_char(s[i])
            },
            Until::Unescaped(end) => s[i] == end && !escaped(s, start, i),
            Until::HexDigitsEnd => !chars::hex_digit(s[i]),
            Until::AlphanumericEnd => !chars::ascii_letter(s[i]) && !chars::digit(s[i]),
            Until::WordEnd(mode) => ends_word(mode, s, start, i),
        }
    }

    /// The first character from number `i` on at which reading stops, or the end
    /// of the source code.
    pub open spec fn first_stop(self, s: Seq<char>, start: int, i: int) -> int
        decreases s.len() - i,
    {
        if i >= s.len() {
            s.len() as int
        } else if self.stops(s, start, i) {
            i
        } else {
            self.first_stop(s, start, i + 1)
        }
    }

    /// Where reading from `start` on stops.
    pub open spec fn end(self, s: Seq<char>, start: int) -> int {
        self.first_stop(s, start, start)
    }

    /// The first character that is left unread after reading from `start` on, when
    /// the one at which reading stops is consumed or not.
    pub open spec fn read_to(self, s: Seq<char>, start: int, eat_match: bool) -> int {
        let stop = self.end(s, start);
        if eat_match && stop < s.len() {
            stop + 1
        } else {
            stop
        }
    }
}

/// Reading stops at the first character at which it can, and at no other.
pub proof fn lemma_first_stop(until: Until, s: Seq<char>, start: int, i: int)
    requires
        0 <= i <= s.len(),
    ensures
        i <= until.first_stop(s, start, i) <= s.len(),
        until.first_stop(s, start, i) < s.len() ==> until.stops(
            s,
            start,
            until.first_stop(s, start, i),
        ),
        forall|j: int|
            i <= j < until.first_stop(s, start, i) ==> !#[trigger] until.stops(s, start, j),
    decreases s.len() - i,
{
    if i < s.len() && !until.stops(s, start, i) {
        lemma_first_stop(until, s, start, i + 1);
    }
}

/// The slash that closes a comment has a star before it, inside of the comment.
pub proof fn lemma_comment_closer(s: Seq<char>, start: int, i: int)
    requires
        start <= i,
        Until::CommentEnd.stops(s, start, i),
    ensures
        start < i,
        s[i - 1] == '*',
        s[i] == '/',
{
}

/// What the next character of a comment may complete to a delimiter.
#[derive(Debug, Copy, Clone, PartialEq, Eq, Hash)]
enum Last {
    /// A slash, with which a nested comment may open.
    Slash,
    /// A star, with which a comment may close.
    Star,
    /// Neither.
    Other,
}

/// What the character number `i` of a comment may complete to a delimiter.
spec fn last_before(s: Seq<char>, start: int, i: int) -> Last {
    if i <= start {
        Last::Other
    } else if s[i - 1] == '/' && !closes_comment(s, start, i - 1) {
        Last::Slash
    } else if s[i - 1] == '*' && !opens_comment(s, start, i - 1) {
        Last::Star
    } else {
        Last::Other
    }
}

/// Watches the characters that are read and tells when to stop.
pub(crate) struct Watch {
    until: Until,
    escaped: bool,
    after_exponent_char: bool,
    depth: usize,
    last: Last,
}

impl Watch {
    pub closed spec fn until(self) -> Until {
        self.until
    }

    /// Whether everything is noted that matters of the characters from `start`
    /// up to the number `i`.
    pub closed spec fn up_to(self, s: Seq<char>, start: int, i: int) -> bool {
        match self.until {
            Until::Unescaped(_) => self.escaped == escaped(s, start, i),
            Until::WordEnd(_) => {
                self.after_exponent_char == (i > start && chars::exponent_char(s[i - 1]))
            },
            Until::CommentEnd => {
                &&& self.depth == open_comments(s, start, i)
                &&& self.depth <= i - start
                &&& self.last == last_before(s, start, i)
            },
            _ => true,
        }
    }

    /// Watch from `start` on.
    pub(crate) fn new(until: Until, Ghost(s): Ghost<Seq<char>>, Ghost(start): Ghost<int>) -> (watch:
        Self)
        ensures
            watch.until() == until,
            watch.up_to(s, start, start),
    {
        Watch { until, escaped: false, after_exponent_char: false, depth: 0, last: Last::Other }
    }

    /// Take note of the next character and tell whether to stop at it.
    pub(crate) fn stops(
        &mut self,
        c: char,
        Ghost(s): Ghost<Seq<char>>,
        Ghost(start): Ghost<int>,
        Ghost(i): Ghost<int>,
    ) -> (stop: bool)
        requires
            0 <= start <= i < s.len() <= usize::MAX,
            s[i] == c,
            old(self).up_to(s, start, i),
        ensures
            final(self).until() == old(self).until(),
            stop == old(self).until().stops(s, start, i),
            !stop ==> final(self).up_to(s, start, i + 1),
    {
        match self.until {
            Until::LineEnd => chars::is_newline_char(c),
            Until::CommentEnd => self.closes_comment(c, Ghost(s), Ghost(start), Ghost(i)),
            Until::SpaceEnd => !chars::is_white_space(c),
            Until::TagEnd => c == '`' || chars::is_white_space(c) || chars::is_newline_char(c),
            Until::Unescaped(end) => {
                if c == end && !self.escaped {
                    return true;
                }
                self.escaped = c == '\\' && !self.escaped;
                false
            },
            Until::HexDigitsEnd => !chars::is_hex_digit(c),
            Until::AlphanumericEnd => !chars::is_alphanumeric(c),
            Until::WordEnd(mode) => {
                let body = match mode {
                    TokenMode::Body => true,
                    TokenMode::Header => false,
                };
                let stop = match c {
                    '[' | ']' | '{' | '}' | '/' | '*' => true,
                    '\\' | '_' | '`' | '#' | '~' => body,
                    ':' | '=' | ',' | '"' | '(' | ')' => !body,
                    '+' | '-' => !body && !self.after_exponent_char,
                    _ => chars::is_white_space(c),
                };
                self.after_exponent_char = chars::is_exponent_char(c);
                stop
            },
        }
    }

    /// Take note of the next character of a block comment and tell whether it
    /// closes the comment.
    fn closes_comment(
        &mut self,
        c: char,
        Ghost(s): Ghost<Seq<char>>,
        Ghost(start): Ghost<int>,
        Ghost(i): Ghost<int>,
    ) -> (stop: bool)
        requires
            0 <= start <= i < s.len() <= usize::MAX,
            s[i] == c,
            old(self).until() == Until::CommentEnd,
            old(self).up_to(s, start, i),
        ensures
            final(self).until() == Until::CommentEnd,
            stop == Until::CommentEnd.stops(s, start, i),
            !stop ==> final(self).up_to(s, start, i + 1),
    {
        match c {
            '/' => match self.last {
                Last::Star => {
                    if self.depth == 0 {
                        return true;
                    }
                    self.depth -= 1;
                    self.last = Last::Other;
                },
                _ => self.last = Last::Slash,
            },
            '*' => match self.last {
                Last::Slash => {
                    self.depth += 1;
                    self.last = Last::Other;
                },
                _ => self.last = Last::Star,
            },
            _ => self.last = Last::Other,
        }
        false
    }
}

} // verus!

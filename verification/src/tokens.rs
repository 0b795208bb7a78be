//! Tokenization.

use vstd::prelude::*;

use crate::chars::{is_escapable, is_white_space};
use crate::expr::read_expr;
use crate::grammar;
use crate::lines;
use crate::syntax::{Pos, Span, Spanned, Token, TokenView};
use crate::text;
use crate::until::{self, Until, Watch};

pub use crate::chars::is_newline_char;
pub use crate::expr::is_ident;

verus! {

/// Whether to tokenize in header mode which yields expression, comma and
/// similar tokens or in body mode which yields text and star, underscore,
/// backtick tokens.
#[derive(Debug, Copy, Clone, PartialEq, Eq, Hash, Structural)]
pub enum TokenMode {
    Header,
    Body,
}

/// An iterator over the tokens of a string of source code.
#[derive(Debug)]
pub struct Tokens<'s> {
    src: &'s str,
    rest: &'s str,
    mode: TokenMode,
    stack: Vec<TokenMode>,
    pos: Pos,
    index: usize,
}

/// What a token iterator is about.
#[verifier::ext_equal]
pub struct TokensView {
    /// The source code.
    pub src: Seq<char>,
    /// The number of the character at which the next token will start.
    pub at: int,
    /// The mode in which the next token will be read.
    pub mode: TokenMode,
    /// The modes that were pushed away, the latest one last.
    pub stack: Seq<TokenMode>,
}

impl TokensView {
    /// The first character that is not read yet, if there is one.
    pub open spec fn next_char(self) -> Option<char> {
        if self.at < self.src.len() {
            Some(self.src[self.at])
        } else {
            None
        }
    }

    /// The same with the next token at another character.
    pub open spec fn moved(self, at: int) -> TokensView {
        TokensView { at, ..self }
    }

    /// The same in another mode, with the present one on the stack.
    pub open spec fn pushed(self, mode: TokenMode) -> TokensView {
        TokensView { mode, stack: self.stack.push(self.mode), ..self }
    }

    /// The same in the mode on top of the stack, without that on the stack.
    pub open spec fn popped(self) -> TokensView {
        TokensView { mode: self.stack.last(), stack: self.stack.drop_last(), ..self }
    }
}

impl<'s> View for Tokens<'s> {
    type V = TokensView;

    closed spec fn view(&self) -> TokensView {
        TokensView {
            src: self.src@,
            at: self.src@.len() - self.rest@.len(),
            mode: self.mode,
            stack: self.stack@,
        }
    }
}

impl<'s> Tokens<'s> {
    /// What is left to read is the rest of the source code, and the index and
    /// the position are those of its first character.
    pub closed spec fn wf(&self) -> bool {
        let s = self@.src;
        let at = self@.at;
        &&& 0 <= at <= s.len()
        &&& s.len() <= usize::MAX
        &&& text::byte_len(s) <= usize::MAX
        &&& self.rest@ == s.skip(at)
        &&& self.index == text::byte_len(s.take(at))
        &&& self.pos == lines::pos_of(s, at)
    }

    /// The next token starts inside of the source code or at its end, and no
    /// character has a number, nor a byte an index, beyond the largest `usize`.
    pub proof fn lemma_wf(&self)
        requires
            self.wf(),
        ensures
            0 <= self@.at <= self@.src.len() <= usize::MAX,
            text::byte_len(self@.src) <= usize::MAX,
    {
    }

    /// Create a new token iterator with the given mode.
    pub fn new(src: &'s str, mode: TokenMode) -> (tokens: Self)
        ensures
            tokens.wf(),
            tokens@ == (TokensView { src: src@, at: 0, mode, stack: seq![] }),
    {
        // No index and no position can exceed the length.
        let _ = text::str_len(src);
        assert(src@.skip(0) =~= src@);
        assert(src@.take(0) =~= seq![]);
        Self {
            src,
            rest: src,
            mode,
            stack: vec![],
            pos: Pos { line: 0, column: 0 },
            index: 0,
        }
    }

    /// Change the token mode and push the old one on a stack.
    pub fn push_mode(&mut self, mode: TokenMode)
        requires
            old(self).wf(),
        ensures
            final(self).wf(),
            final(self)@ == old(self)@.pushed(mode),
    {
        self.stack.push(self.mode);
        self.mode = mode;
    }

    /// Pop the old token mode from the stack. There must be a mode on the stack.
    pub fn pop_mode(&mut self)
        requires
            old(self).wf(),
            old(self)@.stack.len() > 0,
        ensures
            final(self).wf(),
            final(self)@ == old(self)@.popped(),
    {
        if let Some(mode) = self.stack.pop() {
            self.mode = mode;
        }
    }

    /// The index in the string at which the last token ends and next token will
    /// start.
    pub fn index(&self) -> (index: usize)
        requires
            self.wf(),
        ensures
            index == text::byte_len(self@.src.take(self@.at)),
    {
        self.index
    }

    /// The line-column position in the source at which the last token ends and
    /// next token will start.
    pub fn pos(&self) -> (pos: Pos)
        requires
            self.wf(),
        ensures
            pos == lines::pos_of(self@.src, self@.at),
            pos.line == lines::line_of(self@.src, self@.at),
            pos.column == lines::column_of(self@.src, self@.at),
    {
        proof {
            lines::lemma_pos_bound(self@.src, self@.at);
        }
        self.pos
    }

    /// The next character, which is left unread.
    fn peek(&self) -> (c: Option<char>)
        requires
            self.wf(),
        ensures
            c == self@.next_char(),
    {
        text::first_char(self.rest)
    }

    /// Whether the next character is this one.
    fn next_is(&self, c: char) -> (yes: bool)
        requires
            self.wf(),
        ensures
            yes == grammar::char_at(self@.src, self@.at, c),
    {
        match self.peek() {
            Some(d) => c == d,
            None => false,
        }
    }

    /// Read the next character.
    fn eat(&mut self) -> (c: Option<char>)
        requires
            old(self).wf(),
        ensures
            final(self).wf(),
            c == old(self)@.next_char(),
            final(self)@ == old(self)@.moved(
                if c is Some {
                    old(self)@.at + 1
                } else {
                    old(self)@.at
                },
            ),
    {
        let c = match self.peek() {
            Some(c) => c,
            None => return None,
        };
        let len = text::char_len(c);
        let ghost s = self@.src;
        let ghost at = self@.at;
        proof {
            assert(self.rest@.take(1) =~= seq![c]);
            assert(s.take(at + 1) =~= s.take(at) + seq![c]);
            text::lemma_encode_concat(s.take(at), seq![c]);
            text::lemma_byte_len_take(s, at + 1);
            lines::lemma_pos_bound(s, at);
        }
        self.rest = text::split(self.rest, len, Ghost(1)).1;
        self.index += len;
        assert(self.rest@ =~= s.skip(at + 1));
        let follows = match text::first_char(self.rest) {
            Some(d) => d == '\n',
            None => false,
        };
        if is_newline_char(c) && !(c == '\r' && follows) {
            self.pos.line += 1;
            self.pos.column = 0;
        } else {
            self.pos.column += 1;
        }
        Some(c)
    }

    /// Will read the source code until reading stops by `until`. When
    /// `eat_match` is true, the character at which it stops is consumed. Returns
    /// the string from the index where this was called offset by `offset_start`
    /// to the end offset by `offset_end`, and whether reading stopped before the
    /// end of the source code; if it did not, the end is not offset. The end is
    /// before or after the match depending on `eat_match`.
    ///
    /// The string starts with the character number `from` and ends before the
    /// number `to`.
    fn read_string_until(
        &mut self,
        eat_match: bool,
        offset_start: isize,
        offset_end: isize,
        until: Until,
        Ghost(from): Ghost<int>,
        Ghost(to): Ghost<int>,
    ) -> (res: (&'s str, bool))
        requires
            old(self).wf(),
            0 <= from <= to <= old(self)@.src.len(),
            ({
                let s = old(self)@.src;
                let at = old(self)@.at;
                let end = until.read_to(s, at, eat_match);
                let matched = until.end(s, at) < s.len();
                &&& text::byte_len(s.take(from)) == text::byte_len(s.take(at)) + offset_start
                &&& text::byte_len(s.take(to)) == text::byte_len(s.take(end)) + if matched {
                    offset_end as int
                } else {
                    0
                }
            }),
        ensures
            final(self).wf(),
            final(self)@ == old(self)@.moved(
                until.read_to(old(self)@.src, old(self)@.at, eat_match),
            ),
            res.0@ == old(self)@.src.subrange(from, to),
            res.1 == (until.end(old(self)@.src, old(self)@.at) < old(self)@.src.len()),
    {
        let ghost s = self@.src;
        let ghost at = self@.at;
        proof {
            text::lemma_byte_len_take(s, from);
            text::lemma_byte_len_take(s, to);
        }
        let start = self.index.wrapping_add_signed(offset_start);
        let mut watch = Watch::new(until, Ghost(s), Ghost(at));
        let mut matched = false;
        loop
            invariant_except_break
                !matched,
                watch.up_to(s, at, self@.at),
            invariant
                self.wf(),
                s == old(self)@.src,
                at == old(self)@.at,
                0 <= at <= self@.at,
                self@ == old(self)@.moved(self@.at),
                watch.until() == until,
                until.first_stop(s, at, self@.at) == until.end(s, at),
            ensures
                self@.at == until.end(s, at),
                matched == (until.end(s, at) < s.len()),
            decreases s.len() - self@.at,
        {
            match self.peek() {
                Some(c) => {
                    if watch.stops(c, Ghost(s), Ghost(at), Ghost(self@.at)) {
                        matched = true;
                        break;
                    }
                    self.eat();
                },
                None => break,
            }
        }
        if matched && eat_match {
            self.eat();
        }
        let mut end = self.index;
        if matched {
            end = end.wrapping_add_signed(offset_end);
        }
        (text::slice(self.src, start, end, Ghost(from), Ghost(to)), matched)
    }

    /// Read a line comment from its second slash on.
    fn read_line_comment(&mut self) -> (token: Token<'s>)
        requires
            old(self).wf(),
            grammar::char_at(old(self)@.src, old(self)@.at, '/'),
        ensures
            final(self).wf(),
            final(self)@ == old(self)@.moved(final(self)@.at),
            (token@, final(self)@.at) == grammar::line_comment(old(self)@.src, old(self)@.at + 1),
    {
        self.eat();
        let ghost s = self@.src;
        let ghost from = self@.at;
        proof {
            until::lemma_first_stop(Until::LineEnd, s, from, from);
        }
        Token::LineComment(
            self.read_string_until(
                false,
                0,
                0,
                Until::LineEnd,
                Ghost(from),
                Ghost(Until::LineEnd.end(s, from)),
            ).0,
        )
    }

    /// Read a block comment from its star on.
    fn read_block_comment(&mut self) -> (token: Token<'s>)
        requires
            old(self).wf(),
            grammar::char_at(old(self)@.src, old(self)@.at, '*'),
        ensures
            final(self).wf(),
            final(self)@ == old(self)@.moved(final(self)@.at),
            (token@, final(self)@.at) == grammar::block_comment(old(self)@.src, old(self)@.at + 1),
    {
        // Find the first `*/` that does not correspond to a nested `/*`.
        // Remove the last two bytes to obtain the raw inner text without `*/`.
        self.eat();
        let ghost s = self@.src;
        let ghost from = self@.at;
        let ghost slash = Until::CommentEnd.end(s, from);
        proof {
            until::lemma_first_stop(Until::CommentEnd, s, from, from);
            if slash < s.len() {
                until::lemma_comment_closer(s, from, slash);
                lemma_trim(s, slash + 1, 2);
            }
        }
        let content = self.read_string_until(
            true,
            0,
            -2,
            Until::CommentEnd,
            Ghost(from),
            Ghost(
                if slash < s.len() {
                    slash - 1
                } else {
                    slash
                },
            ),
        ).0;
        assert(s.subrange(from, s.len() as int) =~= s.skip(from));
        Token::BlockComment(content)
    }

    /// Read a chain operator from its second chevron on.
    fn read_chain(&mut self) -> (token: Token<'s>)
        requires
            old(self).wf(),
            grammar::char_at(old(self)@.src, old(self)@.at, '>'),
        ensures
            final(self).wf(),
            final(self)@ == old(self)@.moved(old(self)@.at + 1),
            token@ == TokenView::Chain,
    {
        self.eat();
        Token::Chain
    }

    /// Read white space whose first character was at `start`.
    fn read_whitespace(&mut self, start: Pos) -> (token: Token<'s>)
        requires
            old(self).wf(),
            old(self)@.at > 0,
            start == lines::pos_of(old(self)@.src, old(self)@.at - 1),
        ensures
            final(self).wf(),
            final(self)@ == old(self)@.moved(final(self)@.at),
            (token@, final(self)@.at) == grammar::space(old(self)@.src, old(self)@.at - 1),
    {
        let ghost s = self@.src;
        let ghost from = self@.at;
        proof {
            until::lemma_first_stop(Until::SpaceEnd, s, from, from);
        }
        self.read_string_until(
            false,
            0,
            0,
            Until::SpaceEnd,
            Ghost(from),
            Ghost(Until::SpaceEnd.end(s, from)),
        );
        let end = self.pos();
        proof {
            lines::lemma_line_monotone(s, from - 1, self@.at);
            lines::lemma_pos_bound(s, from - 1);
            lines::lemma_pos_bound(s, self@.at);
        }
        Token::Space(end.line - start.line)
    }

    /// Read a string from behind its opening quote on.
    fn read_string(&mut self) -> (token: Token<'s>)
        requires
            old(self).wf(),
        ensures
            final(self).wf(),
            final(self)@ == old(self)@.moved(final(self)@.at),
            (token@, final(self)@.at) == grammar::string(old(self)@.src, old(self)@.at),
    {
        let (string, terminated) = self.read_until_unescaped('"');
        Token::Str { string, terminated }
    }

    /// Read up to and over the first of these characters that no backslash
    /// escapes.
    fn read_until_unescaped(&mut self, end: char) -> (res: (&'s str, bool))
        requires
            old(self).wf(),
            end <= '\x7f' || Until::Unescaped(end).end(old(self)@.src, old(self)@.at)
                == old(self)@.src.len(),
        ensures
            final(self).wf(),
            ({
                let s = old(self)@.src;
                let stop = Until::Unescaped(end).end(s, old(self)@.at);
                &&& res.0@ == s.subrange(old(self)@.at, stop)
                &&& res.1 == (stop < s.len())
                &&& final(self)@ == old(self)@.moved(
                    if stop < s.len() {
                        stop + 1
                    } else {
                        stop
                    },
                )
            }),
    {
        let ghost s = self@.src;
        let ghost from = self@.at;
        let ghost stop = Until::Unescaped(end).end(s, from);
        proof {
            until::lemma_first_stop(Until::Unescaped(end), s, from, from);
            if stop < s.len() {
                lemma_trim(s, stop + 1, 1);
            }
        }
        self.read_string_until(true, 0, -1, Until::Unescaped(end), Ghost(from), Ghost(stop))
    }

    /// Read a raw block from behind its first backtick on.
    fn read_raw(&mut self) -> (token: Token<'s>)
        requires
            old(self).wf(),
            old(self)@.at > 0,
            old(self)@.src[old(self)@.at - 1] == '`',
        ensures
            final(self).wf(),
            final(self)@ == old(self)@.moved(final(self)@.at),
            (token@, final(self)@.at) == grammar::raw(old(self)@.src, old(self)@.at - 1),
    {
        let ghost s = self@.src;
        let ghost at = self@.at - 1;
        let ghost tag_at = grammar::backticks_end(s, at);
        let mut backticks: usize = 1;
        while self.next_is('`')
            invariant
                self.wf(),
                s == old(self)@.src,
                self@ == old(self)@.moved(self@.at),
                backticks == self@.at - at,
                0 <= at < self@.at <= s.len() <= usize::MAX,
                grammar::backticks_end(s, self@.at) == tag_at,
            decreases s.len() - self@.at,
        {
            self.eat();
            backticks += 1;
        }
        proof {
            until::lemma_first_stop(Until::TagEnd, s, tag_at, tag_at);
        }
        let mut lang = None;
        if backticks > 1 {
            // Read the lang tag (until newline or whitespace).
            let start = self.pos();
            let tag = self.read_string_until(
                false,
                0,
                0,
                Until::TagEnd,
                Ghost(tag_at),
                Ghost(Until::TagEnd.end(s, tag_at)),
            ).0;
            let end = self.pos();
            if !tag.is_empty() {
                lang = Some(Spanned { v: tag, span: Span { start, end } });
            }
        }
        let start = self.index;
        let ghost from = self@.at;
        let mut found: usize = 0;
        while found < backticks
            invariant_except_break
                grammar::raw_end(s, from, backticks as int, self@.at) == grammar::raw_end(
                    s,
                    from,
                    backticks as int,
                    from,
                ),
            invariant
                self.wf(),
                s == old(self)@.src,
                self@ == old(self)@.moved(self@.at),
                0 <= from <= self@.at <= s.len() <= usize::MAX,
                found <= self@.at - from,
                found <= backticks,
                found_before(s, from, self@.at, found as int),
            ensures
                match grammar::raw_end(s, from, backticks as int, from) {
                    Some(end) => found == backticks && self@.at == end,
                    None => found < backticks && self@.at == s.len(),
                },
            decreases s.len() - self@.at,
        {
            proof {
                let i = self@.at;
                if grammar::closes_raw(s, from, backticks as int, i) {
                    assert(s[i - found - 1] == '`');
                }
                assert(grammar::raw_end(s, from, backticks as int, s.len() as int + 1) is None);
            }
            match self.eat() {
                Some('`') => found += 1,
                Some(_) => found = 0,
                None => break,
            }
        }
        let terminated = found == backticks;
        let mut end = self.index;
        let ghost mut last = self@.at;
        if terminated {
            proof {
                lemma_trim(s, last, found as int);
                last = last - found;
            }
            end -= found;
        }
        assert(s.subrange(from, s.len() as int) =~= s.skip(from));
        let raw = text::slice(self.src, start, end, Ghost(from), Ghost(last));
        Token::Raw { backticks, lang, raw, terminated }
    }

    /// Read what a backslash starts, from behind the backslash on.
    fn read_escaped(&mut self) -> (token: Token<'s>)
        requires
            old(self).wf(),
        ensures
            final(self).wf(),
            final(self)@ == old(self)@.moved(final(self)@.at),
            (token@, final(self)@.at) == grammar::escape(old(self)@.src, old(self)@.at),
    {
        let ghost s = self@.src;
        let ghost at = self@.at;
        match self.peek() {
            Some('u') => {
                self.eat();
                if self.next_is('{') {
                    self.eat();
                    proof {
                        until::lemma_first_stop(Until::HexDigitsEnd, s, at + 2, at + 2);
                    }
                    let sequence = self.read_string_until(
                        false,
                        0,
                        0,
                        Until::HexDigitsEnd,
                        Ghost(at + 2),
                        Ghost(Until::HexDigitsEnd.end(s, at + 2)),
                    ).0;
                    let terminated = self.next_is('}');
                    if terminated {
                        self.eat();
                    }
                    Token::UnicodeEscape { sequence, terminated }
                } else {
                    proof {
                        reveal_strlit("\\u");
                        assert("\\u"@ =~= seq!['\\', 'u']);
                    }
                    Token::Text("\\u")
                }
            },
            Some(c) => {
                if is_escapable(c) {
                    let index = self.index;
                    self.eat();
                    let end = self.index;
                    assert(s.subrange(at, at + 1) =~= seq![c]);
                    Token::Text(text::slice(self.src, index, end, Ghost(at), Ghost(at + 1)))
                } else if is_white_space(c) {
                    Token::Backslash
                } else {
                    proof {
                        reveal_strlit("\\");
                        assert("\\"@ =~= seq!['\\']);
                    }
                    Token::Text("\\")
                }
            },
            None => Token::Backslash,
        }
    }

    /// Read a hex value from behind the hashtag on.
    fn read_hex(&mut self) -> (token: Token<'s>)
        requires
            old(self).wf(),
        ensures
            final(self).wf(),
            final(self)@ == old(self)@.moved(final(self)@.at),
            (token@, final(self)@.at) == grammar::hex(old(self)@.src, old(self)@.at),
    {
        // This will parse more than the permissable 0-9, a-f, A-F character
        // ranges to provide nicer error messages later.
        let ghost s = self@.src;
        let ghost from = self@.at;
        proof {
            until::lemma_first_stop(Until::AlphanumericEnd, s, from, from);
        }
        Token::Hex(
            self.read_string_until(
                false,
                0,
                0,
                Until::AlphanumericEnd,
                Ghost(from),
                Ghost(Until::AlphanumericEnd.end(s, from)),
            ).0,
        )
    }

    /// Read a word from behind its first character `c` on.
    fn read_word(&mut self, c: char) -> (token: Token<'s>)
        requires
            old(self).wf(),
            old(self)@.at > 0,
            old(self)@.src[old(self)@.at - 1] == c,
        ensures
            final(self).wf(),
            final(self)@ == old(self)@.moved(final(self)@.at),
            (token@, final(self)@.at) == grammar::word(
                old(self)@.src,
                old(self)@.at - 1,
                old(self)@.mode,
            ),
    {
        let mode = self.mode;
        let ghost s = self@.src;
        let ghost at = self@.at;
        proof {
            until::lemma_first_stop(Until::WordEnd(mode), s, at, at);
            assert(s.take(at) =~= s.take(at - 1) + seq![c]);
            text::lemma_encode_concat(s.take(at - 1), seq![c]);
        }
        let offset_start = -(text::char_len(c) as isize);
        let word = self.read_string_until(
            false,
            offset_start,
            0,
            Until::WordEnd(mode),
            Ghost(at - 1),
            Ghost(Until::WordEnd(mode).end(s, at)),
        ).0;
        match mode {
            TokenMode::Body => Token::Text(word),
            TokenMode::Header => read_expr(word),
        }
    }

    /// Parse the next token in the source code.
    pub fn next(&mut self) -> (token: Option<Spanned<Token<'s>>>)
        requires
            old(self).wf(),
        ensures
            final(self).wf(),
            match token {
                Some(token) => {
                    let s = old(self)@.src;
                    let at = old(self)@.at;
                    let (expected, end) = grammar::token_at(s, at, old(self)@.mode);
                    &&& 0 <= at < end <= s.len() <= usize::MAX
                    &&& token@ == (Spanned { v: expected, span: lines::span_of(s, at, end) })
                    &&& final(self)@ == old(self)@.moved(end)
                },
                None => old(self)@.at == old(self)@.src.len() && final(self)@ == old(self)@,
            },
    {
        let ghost s = self@.src;
        let ghost at = self@.at;
        let start = self.pos();
        let header = self.mode == TokenMode::Header;
        let first = match self.eat() {
            Some(first) => first,
            None => return None,
        };
        let token = match first {
            // Comments.
            '/' if self.next_is('/') => self.read_line_comment(),
            '/' if self.next_is('*') => self.read_block_comment(),
            '*' if self.next_is('/') => {
                self.eat();
                proof {
                    reveal_strlit("*/");
                    assert("*/"@ =~= seq!['*', '/']);
                }
                Token::Invalid("*/")
            },
            // Whitespace.
            c if is_white_space(c) => self.read_whitespace(start),
            // Functions and blocks.
            '[' => Token::LeftBracket,
            ']' => Token::RightBracket,
            '{' => Token::LeftBrace,
            '}' => Token::RightBrace,
            // Syntactic elements in function headers.
            '(' if header => Token::LeftParen,
            ')' if header => Token::RightParen,
            ':' if header => Token::Colon,
            ',' if header => Token::Comma,
            '=' if header => Token::Equals,
            '>' if header && self.next_is('>') => self.read_chain(),
            // Expression operators.
            '+' if header => Token::Plus,
            '-' if header => Token::Hyphen,
            '/' if header => Token::Slash,
            // Star serves a double purpose as a style modifier
            // and a expression operator in the header.
            '*' => Token::Star,
            // A hex expression.
            '#' if header => self.read_hex(),
            // String values.
            '"' if header => self.read_string(),
            // Style toggles.
            '_' if !header => Token::Underscore,
            '`' if !header => self.read_raw(),
            // Sections.
            '#' if !header => Token::Hashtag,
            // Non-breaking spaces.
            '~' if !header => {
                proof {
                    reveal_strlit("\u{00A0}");
                    assert("\u{00A0}"@ =~= seq!['\u{00A0}']);
                }
                Token::Text("\u{00A0}")
            },
            // An escaped thing.
            '\\' if !header => self.read_escaped(),
            // Expressions or just strings.
            c => self.read_word(c),
        };
        proof {
            grammar::lemma_token_end(s, at, self.mode);
        }
        let end = self.pos();
        let span = Span { start, end };
        Some(Spanned { v: token, span })
    }

    /// The tokens that are left, in their order.
    pub fn collect(self) -> (tokens: Vec<Spanned<Token<'s>>>)
        requires
            self.wf(),
        ensures
            views(tokens@) == grammar::tokens_from(self@.src, self@.at, self@.mode),
    {
        let mut iter = self;
        let mut tokens: Vec<Spanned<Token<'s>>> = Vec::new();
        let ghost s = iter@.src;
        let ghost mode = iter@.mode;
        let ghost all = grammar::tokens_from(s, iter@.at, mode);
        loop
            invariant
                iter.wf(),
                iter@.src == s,
                iter@.mode == mode,
                views(tokens@) + grammar::tokens_from(s, iter@.at, mode) =~= all,
            ensures
                iter@.at == s.len(),
            decreases s.len() - iter@.at,
        {
            let ghost before = tokens@;
            match iter.next() {
                Some(token) => {
                    tokens.push(token);
                    assert(views(tokens@) =~= views(before).push(token@));
                },
                None => break,
            }
        }
        assert(grammar::tokens_from(s, iter@.at, mode) =~= seq![]);
        tokens
    }
}

/// Tokens, with text as sequences of characters.
pub open spec fn views(tokens: Seq<Spanned<Token>>) -> Seq<Spanned<TokenView>> {
    Seq::new(tokens.len(), |i: int| tokens[i]@)
}

/// Whether the last `found` characters before number `i`, and no more of those
/// from number `start` on, are backticks.
spec fn found_before(s: Seq<char>, start: int, i: int, found: int) -> bool {
    &&& start <= i - found
    &&& forall|j: int| i - found <= j < i ==> s[j] == '`'
    &&& i - found > start ==> s[i - found - 1] != '`'
}

/// No character comes before the least one.
proof fn lemma_char_least(c: char)
    ensures
        '\0' <= c,
{
}

/// Characters of one byte each can be cut off by counting bytes.
proof fn lemma_trim(s: Seq<char>, end: int, trim: int)
    requires
        0 <= trim <= end <= s.len(),
        forall|j: int| end - trim <= j < end ==> s[j] <= '\x7f',
    ensures
        text::byte_len(s.take(end)) == text::byte_len(s.take(end - trim)) + trim,
{
    let tail = s.subrange(end - trim, end);
    assert(s.take(end) =~= s.take(end - trim) + tail);
    text::lemma_encode_concat(s.take(end - trim), tail);
    assert forall|i: int| 0 <= i < tail.len() implies '\0' <= #[trigger] tail[i] <= '\u{7f}' by {
        let c = s[end - trim + i];
        assert(tail[i] == c);
        lemma_char_least(c);
    }
    vstd::utf8::is_ascii_chars_encode_utf8(tail);
}

} // verus!

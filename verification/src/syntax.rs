//! Tokens and their positions in source code.

use vstd::prelude::*;

verus! {

/// A line-column position in source code. Both count from zero.
#[derive(Debug, Copy, Clone, PartialEq, Eq, Hash)]
pub struct Pos {
    /// The line.
    pub line: usize,
    /// The column, in characters.
    pub column: usize,
}

/// The part of source code between two positions.
#[derive(Debug, Copy, Clone, PartialEq, Eq, Hash)]
pub struct Span {
    /// Where the part starts.
    pub start: Pos,
    /// Where the part ends, not included.
    pub end: Pos,
}

/// A value together with the part of source code that it corresponds to.
#[derive(Debug, Copy, Clone, PartialEq, Eq, Hash)]
pub struct Spanned<T> {
    /// The value.
    pub v: T,
    /// Where it stands.
    pub span: Span,
}

impl<T: View> View for Spanned<T> {
    type V = Spanned<T::V>;

    open spec fn view(&self) -> Spanned<T::V> {
        Spanned { v: self.v@, span: self.span }
    }
}

/// Units of length.
#[derive(Debug, Copy, Clone, PartialEq, Eq, Hash)]
pub enum Unit {
    /// Points.
    Pt,
    /// Millimeters.
    Mm,
    /// Centimeters.
    Cm,
    /// Inches.
    In,
}

/// A minimal semantic entity of source code.
#[derive(Debug, Copy, Clone, PartialEq, Eq, Hash)]
pub enum Token<'s> {
    /// One or more whitespace characters. Holds the number of newlines among
    /// them.
    Space(usize),
    /// A line comment, with what follows the two slashes on the line.
    LineComment(&'s str),
    /// A block comment, with what stands between its delimiters. It can contain
    /// nested block comments.
    BlockComment(&'s str),
    /// A left bracket: `[`.
    LeftBracket,
    /// A right bracket: `]`.
    RightBracket,
    /// A left brace: `{`.
    LeftBrace,
    /// A right brace: `}`.
    RightBrace,
    /// A left parenthesis in a header: `(`.
    LeftParen,
    /// A right parenthesis in a header: `)`.
    RightParen,
    /// A colon in a header: `:`.
    Colon,
    /// A comma in a header: `,`.
    Comma,
    /// An equals sign in a header: `=`.
    Equals,
    /// A double forward chevron in a header: `>>`.
    Chain,
    /// A plus in a header: `+`.
    Plus,
    /// A hyphen in a header: `-`.
    Hyphen,
    /// A slash in a header: `/`.
    Slash,
    /// A star: `*`.
    Star,
    /// An underscore in a body: `_`.
    Underscore,
    /// A hashtag in a body: `#`.
    Hashtag,
    /// A backslash in a body that escapes nothing, followed by whitespace or by
    /// the end of the source code.
    Backslash,
    /// An identifier in a header: `center`.
    Ident(&'s str),
    /// A boolean in a header: `true`, `false`.
    Bool(bool),
    /// A number in a header, `3.14`, or a percentage, `25%`.
    Number {
        /// The number as it is written, without a percent sign.
        digits: &'s str,
        /// Whether a percent sign follows.
        percent: bool,
    },
    /// A length in a header: `12pt`.
    Length {
        /// The number as it is written, without the unit.
        digits: &'s str,
        /// The unit.
        unit: Unit,
    },
    /// A hex value in a header, with what follows the hashtag: `#20d82a`.
    Hex(&'s str),
    /// A quoted string in a header: `"..."`.
    Str {
        /// What stands between the quotes, with escape sequences as they are
        /// written.
        string: &'s str,
        /// Whether the closing quote was present.
        terminated: bool,
    },
    /// A unicode escape sequence in a body: `\u{1F5FA}`.
    UnicodeEscape {
        /// The hexadecimal digits.
        sequence: &'s str,
        /// Whether the closing brace was present.
        terminated: bool,
    },
    /// A raw block in a body, between equally many backticks on both sides.
    Raw {
        /// The number of opening backticks.
        backticks: usize,
        /// The language tag, if there were two or more backticks and a tag.
        lang: Option<Spanned<&'s str>>,
        /// The raw text.
        raw: &'s str,
        /// Whether the closing backticks were present.
        terminated: bool,
    },
    /// Any other consecutive text in a body.
    Text(&'s str),
    /// Things that are not valid where they stand.
    Invalid(&'s str),
}

/// What a token is, with text as a sequence of characters.
#[verifier::ext_equal]
pub enum TokenView {
    Space(nat),
    LineComment(Seq<char>),
    BlockComment(Seq<char>),
    LeftBracket,
    RightBracket,
    LeftBrace,
    RightBrace,
    LeftParen,
    RightParen,
    Colon,
    Comma,
    Equals,
    Chain,
    Plus,
    Hyphen,
    Slash,
    Star,
    Underscore,
    Hashtag,
    Backslash,
    Ident(Seq<char>),
    Bool(bool),
    Number { digits: Seq<char>, percent: bool },
    Length { digits: Seq<char>, unit: Unit },
    Hex(Seq<char>),
    Str { string: Seq<char>, terminated: bool },
    UnicodeEscape { sequence: Seq<char>, terminated: bool },
    Raw { backticks: nat, lang: Option<Spanned<Seq<char>>>, raw: Seq<char>, terminated: bool },
    Text(Seq<char>),
    Invalid(Seq<char>),
}

impl<'s> View for Token<'s> {
    type V = TokenView;

    open spec fn view(&self) -> TokenView {
        match *self {
            Token::Space(newlines) => TokenView::Space(newlines as nat),
            Token::LineComment(text) => TokenView::LineComment(text@),
            Token::BlockComment(text) => TokenView::BlockComment(text@),
            Token::LeftBracket => TokenView::LeftBracket,
            Token::RightBracket => TokenView::RightBracket,
            Token::LeftBrace => TokenView::LeftBrace,
            Token::RightBrace => TokenView::RightBrace,
            Token::LeftParen => TokenView::LeftParen,
            Token::RightParen => TokenView::RightParen,
            Token::Colon => TokenView::Colon,
            Token::Comma => TokenView::Comma,
            Token::Equals => TokenView::Equals,
            Token::Chain => TokenView::Chain,
            Token::Plus => TokenView::Plus,
            Token::Hyphen => TokenView::Hyphen,
            Token::Slash => TokenView::Slash,
            Token::Star => TokenView::Star,
            Token::Underscore => TokenView::Underscore,
            Token::Hashtag => TokenView::Hashtag,
            Token::Backslash => TokenView::Backslash,
            Token::Ident(text) => TokenView::Ident(text@),
            Token::Bool(b) => TokenView::Bool(b),
            Token::Number { digits, percent } => TokenView::Number { digits: digits@, percent },
            Token::Length { digits, unit } => TokenView::Length { digits: digits@, unit },
            Token::Hex(text) => TokenView::Hex(text@),
            Token::Str { string, terminated } => TokenView::Str { string: string@, terminated },
            Token::UnicodeEscape { sequence, terminated } => TokenView::UnicodeEscape {
                sequence: sequence@,
                terminated,
            },
            Token::Raw { backticks, lang, raw, terminated } => TokenView::Raw {
                backticks: backticks as nat,
                lang: match lang {
                    Some(tag) => Some(Spanned { v: tag.v@, span: tag.span }),
                    None => None,
                },
                raw: raw@,
                terminated,
            },
            Token::Text(text) => TokenView::Text(text@),
            Token::Invalid(text) => TokenView::Invalid(text@),
        }
    }
}

} // verus!

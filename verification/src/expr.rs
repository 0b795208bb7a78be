//! The words of a function header: booleans, numbers, lengths, identifiers.

use vstd::prelude::*;

use crate::chars;
use crate::syntax::{Token, TokenView, Unit};
use crate::text;

verus! {

/// What `is_xid_start` of the crate `unicode_xid` returns for a character.
pub uninterp spec fn xid_start(c: char) -> bool;

/// What `is_xid_continue` of the crate `unicode_xid` returns for a character.
pub uninterp spec fn xid_continue(c: char) -> bool;

/// Calls `UnicodeXID::is_xid_start` of the crate `unicode_xid`: whether a
/// character has the Unicode property `XID_Start`. Of the characters of ASCII
/// exactly the letters have it; for the others the crate looks the character up
/// in a table, which only the name [`xid_start`] stands for here. Whatever has
/// the property also has `XID_Continue`, as the two tables of the crate show.
#[verifier::external_body]
fn is_xid_start(c: char) -> (yes: bool)
    ensures
        yes == xid_start(c),
        c <= '\x7f' ==> yes == chars::ascii_letter(c),
        yes ==> xid_continue(c),
{
    unicode_xid::UnicodeXID::is_xid_start(c)
}

/// Calls `UnicodeXID::is_xid_continue` of the crate `unicode_xid`: whether a
/// character has the Unicode property `XID_Continue`. Of the characters of ASCII
/// exactly the letters, the digits and the underscore have it; for the others
/// the crate looks the character up in a table, which only the name
/// [`xid_continue`] stands for here.
#[verifier::external_body]
fn is_xid_continue(c: char) -> (yes: bool)
    ensures
        yes == xid_continue(c),
        c <= '\x7f' ==> yes == (chars::ascii_letter(c) || chars::digit(c) || c == '_'),
{
    unicode_xid::UnicodeXID::is_xid_continue(c)
}

/// Whether a character is allowed everywhere in an identifier, besides those
/// that Unicode recommends.
pub open spec fn also_allowed(c: char) -> bool {
    c == '.' || c == '-' || c == '_'
}

/// Whether an identifier can start with a character.
pub open spec fn ident_start(c: char) -> bool {
    also_allowed(c) || if c <= '\x7f' {
        chars::ascii_letter(c)
    } else {
        xid_start(c)
    }
}

/// Whether an identifier can go on with a character.
pub open spec fn ident_continue(c: char) -> bool {
    also_allowed(c) || if c <= '\x7f' {
        chars::ascii_letter(c) || chars::digit(c)
    } else {
        xid_continue(c)
    }
}

/// Whether a word is a valid identifier: it starts with a character with which one
/// can start, and has none with which one cannot go on. The first character is no
/// exception, since an identifier can go on with whatever it can start with.
pub open spec fn ident(s: Seq<char>) -> bool {
    &&& s.len() > 0
    &&& ident_start(s[0])
    &&& forall|i: int| 0 <= i < s.len() ==> ident_continue(#[trigger] s[i])
}

fn is_also_allowed(c: char) -> (yes: bool)
    ensures
        yes == also_allowed(c),
{
    c == '.' || c == '-' || c == '_'
}

/// Whether this word is a valid identifier.
pub fn is_ident(string: &str) -> (yes: bool)
    ensures
        yes == ident(string@),
{
    let chars = text::chars_of(string);
    if chars.len() == 0 {
        return false;
    }
    if !is_xid_start(chars[0]) && !is_also_allowed(chars[0]) {
        return false;
    }
    for i in 1..chars.len()
        invariant
            chars@ == string@,
            forall|j: int| 0 <= j < i ==> ident_continue(#[trigger] string@[j]),
    {
        let c = chars[i];
        if !is_xid_continue(c) && !is_also_allowed(c) {
            assert(!ident_continue(string@[i as int]));
            return false;
        }
    }
    true
}

/// Whether some characters are all digits.
pub open spec fn all_digits(s: Seq<char>) -> bool {
    forall|i: int| 0 <= i < s.len() ==> chars::digit(#[trigger] s[i])
}

/// Whether a character is a sign.
pub open spec fn sign(c: char) -> bool {
    c == '+' || c == '-'
}

/// What follows the sign, if there is one.
pub open spec fn unsigned(s: Seq<char>) -> Seq<char> {
    if s.len() > 0 && sign(s[0]) {
        s.skip(1)
    } else {
        s
    }
}

/// Digits, with or without a point before, between or behind them.
pub open spec fn mantissa(s: Seq<char>) -> bool {
    ||| s.len() > 0 && all_digits(s)
    ||| exists|p: int|
        0 <= p < s.len() && s.len() >= 2 && #[trigger] s[p] == '.' && all_digits(s.take(p))
            && all_digits(s.skip(p + 1))
}

/// An exponent with its digits, or nothing.
pub open spec fn exponent(s: Seq<char>) -> bool {
    s.len() > 0 ==> {
        &&& chars::exponent_char(s[0])
        &&& unsigned(s.skip(1)).len() > 0
        &&& all_digits(unsigned(s.skip(1)))
    }
}

/// Whether the characters `s[..k]` are a mantissa and the others its exponent.
pub open spec fn decimal_at(s: Seq<char>, k: int) -> bool {
    0 <= k <= s.len() && mantissa(s.take(k)) && exponent(s.skip(k))
}

/// A mantissa, with or without an exponent.
pub open spec fn decimal(s: Seq<char>) -> bool {
    exists|k: int| decimal_at(s, k)
}

/// Whether some letters spell a word, in upper or lower case.
pub open spec fn spells(s: Seq<char>, word: Seq<char>) -> bool {
    &&& s.len() == word.len()
    &&& forall|i: int|
        0 <= i < s.len() ==> (#[trigger] s[i] == word[i] || 'A' <= s[i] <= 'Z' && s[i] as u32 + 32
            == word[i] as u32)
}

/// Whether a word is written as a floating-point number is.
pub open spec fn number(s: Seq<char>) -> bool {
    let value = unsigned(s);
    ||| decimal(value)
    ||| spells(value, "inf"@)
    ||| spells(value, "infinity"@)
    ||| spells(value, "nan"@)
}

/// The unit that a word ends with.
pub open spec fn unit_of(s: Seq<char>) -> Option<Unit> {
    if s.len() < 2 {
        None
    } else {
        match (s[s.len() - 2], s[s.len() - 1]) {
            ('p', 't') => Some(Unit::Pt),
            ('m', 'm') => Some(Unit::Mm),
            ('c', 'm') => Some(Unit::Cm),
            ('i', 'n') => Some(Unit::In),
            _ => None,
        }
    }
}

/// Whether a word is a percentage: a number followed by a percent sign.
pub open spec fn percentage(s: Seq<char>) -> bool {
    s.len() > 0 && s.last() == '%' && number(s.drop_last())
}

/// Whether a word is a length: a number followed by a unit.
pub open spec fn length(s: Seq<char>) -> bool {
    unit_of(s) is Some && number(s.take(s.len() - 2))
}

/// The token that a word in a header is.
pub open spec fn expr_token(s: Seq<char>) -> TokenView {
    if s == "true"@ {
        TokenView::Bool(true)
    } else if s == "false"@ {
        TokenView::Bool(false)
    } else if number(s) {
        TokenView::Number { digits: s, percent: false }
    } else if percentage(s) {
        TokenView::Number { digits: s.drop_last(), percent: true }
    } else if length(s) {
        TokenView::Length { digits: s.take(s.len() - 2), unit: unit_of(s)->0 }
    } else if ident(s) {
        TokenView::Ident(s)
    } else {
        TokenView::Invalid(s)
    }
}

/// Whether two strings are equal.
fn equal(a: &str, b: &str) -> (yes: bool)
    ensures
        yes == (a@ == b@),
{
    let x = text::chars_of(a);
    let y = text::chars_of(b);
    if x.len() != y.len() {
        return false;
    }
    for i in 0..x.len()
        invariant
            x@ == a@,
            y@ == b@,
            x@.len() == y@.len(),
            forall|j: int| 0 <= j < i ==> x@[j] == y@[j],
    {
        if x[i] != y[i] {
            return false;
        }
    }
    assert(a@ =~= b@);
    true
}

/// Whether the letters from number `from` on spell a word, in upper or lower
/// case.
fn letters_spell(letters: &Vec<char>, from: usize, word: &str) -> (yes: bool)
    requires
        from <= letters@.len(),
    ensures
        yes == spells(letters@.skip(from as int), word@),
{
    let word_letters = text::chars_of(word);
    if letters.len() - from != word_letters.len() {
        return false;
    }
    let ghost s = letters@.skip(from as int);
    for i in 0..word_letters.len()
        invariant
            s == letters@.skip(from as int),
            word_letters@ == word@,
            s.len() == word@.len(),
            s.len() == letters.len() - from,
            forall|j: int|
                0 <= j < i ==> (#[trigger] s[j] == word@[j] || 'A' <= s[j] <= 'Z' && s[j] as u32
                    + 32 == word@[j] as u32),
    {
        let c = letters[from + i];
        let w = word_letters[i];
        assert(c == s[i as int]);
        if c != w && !('A' <= c && c <= 'Z' && c as u32 + 32 == w as u32) {
            return false;
        }
    }
    true
}

/// The first character from number `from` on that is no digit.
fn digits_end(letters: &Vec<char>, from: usize) -> (end: usize)
    requires
        from <= letters@.len(),
    ensures
        from <= end <= letters@.len(),
        all_digits(letters@.subrange(from as int, end as int)),
        end < letters@.len() ==> !chars::digit(letters@[end as int]),
{
    let mut end: usize = from;
    while end < letters.len() && chars::is_digit(letters[end])
        invariant
            from <= end <= letters@.len(),
            forall|j: int| from <= j < end ==> chars::digit(#[trigger] letters@[j]),
        decreases letters@.len() - end,
    {
        end += 1;
    }
    end
}

/// Where the mantissa of a decimal number ends, if it has one.
proof fn lemma_mantissa_end(s: Seq<char>, k: int, d1: int, d2: int)
    requires
        decimal_at(s, k),
        0 <= d1 <= s.len(),
        all_digits(s.take(d1)),
        d1 < s.len() ==> !chars::digit(s[d1]),
        d1 < s.len() && s[d1] == '.' ==> d1 + 1 <= d2 <= s.len() && all_digits(
            s.subrange(d1 + 1, d2),
        ) && (d2 < s.len() ==> !chars::digit(s[d2])),
        !(d1 < s.len() && s[d1] == '.') ==> d2 == d1,
    ensures
        k == d2,
{
    let m = s.take(k);
    if k < s.len() {
        assert(s.skip(k)[0] == s[k]);
    }
    if all_digits(m) {
        if k < d1 {
            assert(s.take(d1)[k] == s[k]);
        } else if d1 < k {
            assert(m[d1] == s[d1]);
        }
    } else {
        let p = choose|p: int|
            0 <= p < m.len() && m.len() >= 2 && #[trigger] m[p] == '.' && all_digits(m.take(p))
                && all_digits(m.skip(p + 1));
        assert(s[p] == '.');
        if p < d1 {
            assert(s.take(d1)[p] == s[p]);
        } else if d1 < p {
            assert(m.take(p)[d1] == s[d1]);
        }
        if k < d2 {
            assert(s.subrange(d1 + 1, d2)[k - d1 - 1] == s[k]);
        } else if d2 < k {
            assert(m.skip(p + 1)[d2 - p - 1] == s[d2]);
        }
    }
}

/// Whether the letters from number `from` on are a decimal number.
fn is_decimal(letters: &Vec<char>, from: usize) -> (yes: bool)
    requires
        from <= letters@.len(),
    ensures
        yes == decimal(letters@.skip(from as int)),
{
    let len = letters.len();
    let ghost s = letters@.skip(from as int);
    let whole = digits_end(letters, from);
    let point = whole < len && letters[whole] == '.';
    let end = if point {
        digits_end(letters, whole + 1)
    } else {
        whole
    };
    let ghost d1 = whole - from;
    let ghost d2 = end - from;
    proof {
        assert(s.take(d1) =~= letters@.subrange(from as int, whole as int));
        if point {
            assert(s.subrange(d1 + 1, d2) =~= letters@.subrange(whole + 1, end as int));
        }
        assert forall|k: int| #[trigger] decimal_at(s, k) implies k == d2 by {
            lemma_mantissa_end(s, k, d1, d2);
        }
    }
    let digits = whole > from || (point && end > whole + 1);
    let ghost m = s.take(d2);
    proof {
        if point {
            assert(m[d1] == '.');
            assert(m.take(d1) =~= s.take(d1));
            assert(m.skip(d1 + 1) =~= s.subrange(d1 + 1, d2));
            assert(!all_digits(m));
        }
        if mantissa(m) && !all_digits(m) {
            assert(m.len() >= 2);
        }
        assert(digits == mantissa(m));
    }
    if !digits {
        return false;
    }
    if end == len {
        assert(decimal_at(s, d2));
        return true;
    }
    let ghost e = s.skip(d2);
    assert(e[0] == letters@[end as int]);
    if !chars::is_exponent_char(letters[end]) {
        return false;
    }
    let signed = end + 1 < len && (letters[end + 1] == '+' || letters[end + 1] == '-');
    let first = if signed {
        end + 2
    } else {
        end + 1
    };
    assert(unsigned(e.skip(1)) =~= letters@.skip(first as int));
    let last = digits_end(letters, first);
    proof {
        if last == len {
            assert(letters@.subrange(first as int, last as int) =~= letters@.skip(first as int));
        } else {
            assert(letters@.skip(first as int)[last - first] == letters@[last as int]);
        }
        assert(exponent(e) == (last == len && last > first));
        assert((last == len && last > first) == decimal_at(s, d2));
    }
    last == len && last > first
}

/// Whether this word is written as a floating-point number is.
pub fn is_number(word: &str) -> (yes: bool)
    ensures
        yes == number(word@),
{
    let letters = text::chars_of(word);
    let signed = letters.len() > 0 && (letters[0] == '+' || letters[0] == '-');
    let from: usize = if signed {
        1
    } else {
        0
    };
    assert(unsigned(word@) =~= letters@.skip(from as int));
    is_decimal(&letters, from) || letters_spell(&letters, from, "inf") || letters_spell(
        &letters,
        from,
        "infinity",
    ) || letters_spell(&letters, from, "nan")
}

/// The number of a percentage, if this word is one.
fn parse_percentage<'s>(word: &'s str) -> (digits: Option<&'s str>)
    ensures
        digits is Some == percentage(word@),
        digits matches Some(digits) ==> digits@ == word@.drop_last(),
{
    let len = word.unicode_len();
    if len > 0 && word.get_char(len - 1) == '%' {
        let digits = word.substring_char(0, len - 1);
        assert(digits@ =~= word@.drop_last());
        if is_number(digits) {
            return Some(digits);
        }
    }
    None
}

/// The number and the unit of a length, if this word is one.
fn parse_length<'s>(word: &'s str) -> (parts: Option<(&'s str, Unit)>)
    ensures
        parts is Some == length(word@),
        parts matches Some((digits, unit)) ==> digits@ == word@.take(word@.len() - 2) && Some(unit)
            == unit_of(word@),
{
    let len = word.unicode_len();
    if len < 2 {
        return None;
    }
    let unit = match (word.get_char(len - 2), word.get_char(len - 1)) {
        ('p', 't') => Unit::Pt,
        ('m', 'm') => Unit::Mm,
        ('c', 'm') => Unit::Cm,
        ('i', 'n') => Unit::In,
        _ => return None,
    };
    let digits = word.substring_char(0, len - 2);
    assert(digits@ =~= word@.take(len - 2));
    if is_number(digits) {
        Some((digits, unit))
    } else {
        None
    }
}

/// The token that this word in a header is.
pub fn read_expr<'s>(word: &'s str) -> (token: Token<'s>)
    ensures
        token@ == expr_token(word@),
{
    if equal(word, "true") {
        Token::Bool(true)
    } else if equal(word, "false") {
        Token::Bool(false)
    } else if is_number(word) {
        Token::Number { digits: word, percent: false }
    } else if let Some(digits) = parse_percentage(word) {
        Token::Number { digits, percent: true }
    } else if let Some((digits, unit)) = parse_length(word) {
        Token::Length { digits, unit }
    } else if is_ident(word) {
        Token::Ident(word)
    } else {
        Token::Invalid(word)
    }
}

} // verus!

//! How the words of a header are written, character by character.

use vstd::prelude::*;

use crate::expr;
use crate::syntax::{TokenView, Unit};

verus! {

/// A word is a number if it consists of these parts: a sign or nothing up to the
/// character number `a`; digits up to `p`; a point and more digits up to `b`, or
/// nothing; and the letter `e` in upper or lower case with a sign or nothing up to
/// `c` and digits behind it, or nothing. Before or behind the point there is a digit.
pub proof fn law_decimal(s: Seq<char>, a: int, p: int, b: int, c: int)
    requires
        0 <= a <= 1,
        a <= p <= b <= s.len(),
        a == 1 ==> s[0] == '+' || s[0] == '-',
        forall|i: int| a <= i < p ==> '0' <= #[trigger] s[i] <= '9',
        p < b ==> s[p] == '.',
        forall|i: int| p < i < b ==> '0' <= #[trigger] s[i] <= '9',
        a < p || p + 1 < b,
        b < s.len() ==> {
            &&& s[b] == 'e' || s[b] == 'E'
            &&& c == b + 1 || c == b + 2 && (s[b + 1] == '+' || s[b + 1] == '-')
            &&& c < s.len()
            &&& forall|i: int| c <= i < s.len() ==> '0' <= #[trigger] s[i] <= '9'
        },
    ensures
        expr::number(s),
{
    let value = s.skip(a);
    assert(expr::unsigned(s) =~= value) by {
        assert(a < p ==> '0' <= s[a] <= '9');
        assert(s[a] != '+' && s[a] != '-');
    }
    let m = value.take(b - a);
    assert(expr::mantissa(m)) by {
        assert forall|i: int| 0 <= i < m.len() && i != p - a implies '0' <= #[trigger] m[i]
            <= '9' by {
            assert(m[i] == s[a + i]);
        }
        assert(p < b ==> m[p - a] == s[p]);
        lemma_mantissa(m, p - a);
    }
    let e = value.skip(b - a);
    assert(expr::exponent(e)) by {
        if b < s.len() {
            assert forall|i: int| c - b <= i < e.len() implies '0' <= #[trigger] e[i] <= '9' by {
                assert(e[i] == s[b + i]);
            }
            assert(e[0] == s[b]);
            assert(e[1] == s[b + 1]);
            lemma_exponent(e, c - b);
        }
    }
    assert(expr::decimal_at(value, b - a));
}

proof fn lemma_mantissa(m: Seq<char>, p: int)
    requires
        0 <= p <= m.len(),
        forall|i: int| 0 <= i < m.len() && i != p ==> '0' <= #[trigger] m[i] <= '9',
        p < m.len() ==> m[p] == '.',
        0 < p || 1 < m.len(),
    ensures
        expr::mantissa(m),
{
    if p < m.len() {
        assert forall|i: int| 0 <= i < p implies '0' <= #[trigger] m.take(p)[i] <= '9' by {
            assert(m.take(p)[i] == m[i]);
        }
        let rest = m.skip(p + 1);
        assert forall|i: int| 0 <= i < rest.len() implies '0' <= #[trigger] rest[i] <= '9' by {
            assert(rest[i] == m[p + 1 + i]);
        }
        assert(m[p] == '.' && expr::all_digits(m.take(p)) && expr::all_digits(rest));
    }
}

proof fn lemma_exponent(e: Seq<char>, c: int)
    requires
        1 <= c < e.len(),
        e[0] == 'e' || e[0] == 'E',
        c == 1 || c == 2 && (e[1] == '+' || e[1] == '-'),
        forall|i: int| c <= i < e.len() ==> '0' <= #[trigger] e[i] <= '9',
    ensures
        expr::exponent(e),
{
    let rest = e.skip(1);
    assert(rest[0] == e[1]);
    assert('0' <= e[c] <= '9');
    assert(expr::unsigned(rest) =~= e.skip(c));
    assert forall|i: int| 0 <= i < e.len() - c implies '0' <= #[trigger] e.skip(c)[i] <= '9' by {
        assert(e.skip(c)[i] == e[c + i]);
    }
}

proof fn lemma_case(c: char, lower: char, upper: char)
    requires
        'A' <= upper <= 'Z',
        upper as u32 + 32 == lower as u32,
    ensures
        'A' <= c <= 'Z' && c as u32 + 32 == lower as u32 <==> c == upper,
{
}

/// Whether the characters from number `a` on spell `inf`, `nan` or `infinity`, each
/// letter in upper or lower case.
proof fn lemma_spells(s: Seq<char>, a: int)
    requires
        0 <= a <= s.len(),
    ensures
        expr::spells(s.skip(a), "inf"@) <==> {
            &&& s.len() == a + 3
            &&& s[a] == 'i' || s[a] == 'I'
            &&& s[a + 1] == 'n' || s[a + 1] == 'N'
            &&& s[a + 2] == 'f' || s[a + 2] == 'F'
        },
        expr::spells(s.skip(a), "nan"@) <==> {
            &&& s.len() == a + 3
            &&& s[a] == 'n' || s[a] == 'N'
            &&& s[a + 1] == 'a' || s[a + 1] == 'A'
            &&& s[a + 2] == 'n' || s[a + 2] == 'N'
        },
        expr::spells(s.skip(a), "infinity"@) <==> {
            &&& s.len() == a + 8
            &&& s[a] == 'i' || s[a] == 'I'
            &&& s[a + 1] == 'n' || s[a + 1] == 'N'
            &&& s[a + 2] == 'f' || s[a + 2] == 'F'
            &&& s[a + 3] == 'i' || s[a + 3] == 'I'
            &&& s[a + 4] == 'n' || s[a + 4] == 'N'
            &&& s[a + 5] == 'i' || s[a + 5] == 'I'
            &&& s[a + 6] == 't' || s[a + 6] == 'T'
            &&& s[a + 7] == 'y' || s[a + 7] == 'Y'
        },
{
    reveal_strlit("inf");
    reveal_strlit("nan");
    reveal_strlit("infinity");
    let v = s.skip(a);
    assert forall|i: int| 0 <= i < v.len() implies #[trigger] v[i] == s[a + i] by {}
    assert forall|c: char| 'A' <= c <= 'Z' implies {
        &&& #[trigger] (c as u32) + 32 == 'i' as u32 <==> c == 'I'
        &&& c as u32 + 32 == 'n' as u32 <==> c == 'N'
        &&& c as u32 + 32 == 'f' as u32 <==> c == 'F'
        &&& c as u32 + 32 == 't' as u32 <==> c == 'T'
        &&& c as u32 + 32 == 'y' as u32 <==> c == 'Y'
        &&& c as u32 + 32 == 'a' as u32 <==> c == 'A'
    } by {
        lemma_case(c, 'i', 'I');
        lemma_case(c, 'n', 'N');
        lemma_case(c, 'f', 'F');
        lemma_case(c, 't', 'T');
        lemma_case(c, 'y', 'Y');
        lemma_case(c, 'a', 'A');
    }
    if v.len() == 3 || v.len() == 8 {
        assert(v[0] == s[a]);
        assert(v[1] == s[a + 1]);
        assert(v[2] == s[a + 2]);
    }
    if v.len() == 8 {
        assert(v[3] == s[a + 3]);
        assert(v[4] == s[a + 4]);
        assert(v[5] == s[a + 5]);
        assert(v[6] == s[a + 6]);
        assert(v[7] == s[a + 7]);
    }
}

/// The words `inf`, `nan` and `infinity` are numbers too, each letter in upper or
/// lower case, with a sign before them or without.
pub proof fn law_number_names(s: Seq<char>, a: int)
    requires
        0 <= a <= 1,
        a < s.len(),
        a == 1 ==> s[0] == '+' || s[0] == '-',
        ({
            ||| s.len() == a + 3 && (s[a] == 'i' || s[a] == 'I') && (s[a + 1] == 'n' || s[a + 1]
                == 'N') && (s[a + 2] == 'f' || s[a + 2] == 'F')
            ||| s.len() == a + 3 && (s[a] == 'n' || s[a] == 'N') && (s[a + 1] == 'a' || s[a + 1]
                == 'A') && (s[a + 2] == 'n' || s[a + 2] == 'N')
            ||| s.len() == a + 8 && (s[a] == 'i' || s[a] == 'I') && (s[a + 1] == 'n' || s[a + 1]
                == 'N') && (s[a + 2] == 'f' || s[a + 2] == 'F') && (s[a + 3] == 'i' || s[a + 3]
                == 'I') && (s[a + 4] == 'n' || s[a + 4] == 'N') && (s[a + 5] == 'i' || s[a + 5]
                == 'I') && (s[a + 6] == 't' || s[a + 6] == 'T') && (s[a + 7] == 'y' || s[a + 7]
                == 'Y')
        }),
    ensures
        expr::number(s),
{
    lemma_spells(s, a);
    assert(expr::unsigned(s) =~= s.skip(a));
}

proof fn lemma_decimal_parts(s: Seq<char>, a: int) -> (parts: (int, int, int))
    requires
        0 <= a <= s.len(),
        expr::decimal(s.skip(a)),
    ensures
        ({
            let (p, b, c) = parts;
            &&& a <= p <= b <= s.len()
            &&& forall|i: int| a <= i < p ==> '0' <= #[trigger] s[i] <= '9'
            &&& p < b ==> s[p] == '.'
            &&& forall|i: int| p < i < b ==> '0' <= #[trigger] s[i] <= '9'
            &&& a < p || p + 1 < b
            &&& b < s.len() ==> {
                &&& s[b] == 'e' || s[b] == 'E'
                &&& c == b + 1 || c == b + 2 && (s[b + 1] == '+' || s[b + 1] == '-')
                &&& c < s.len()
                &&& forall|i: int| c <= i < s.len() ==> '0' <= #[trigger] s[i] <= '9'
            }
        }),
{
    let value = s.skip(a);
    let k = choose|k: int| expr::decimal_at(value, k);
    let m = value.take(k);
    let e = value.skip(k);
    let b = a + k;
    let p = if expr::all_digits(m) {
        b
    } else {
        let p = choose|p: int|
            0 <= p < m.len() && m.len() >= 2 && #[trigger] m[p] == '.' && expr::all_digits(m.take(p))
                && expr::all_digits(m.skip(p + 1));
        assert(s[a + p] == m[p]);
        a + p
    };
    assert forall|i: int| a <= i < p implies '0' <= #[trigger] s[i] <= '9' by {
        assert(s[i] == m[i - a]);
        assert(s[i] == m.take(p - a)[i - a]);
    }
    assert forall|i: int| p < i < b implies '0' <= #[trigger] s[i] <= '9' by {
        assert(s[i] == m.skip(p - a + 1)[i - p - 1]);
    }
    let c = if b + 1 < s.len() && (s[b + 1] == '+' || s[b + 1] == '-') {
        b + 2
    } else {
        b + 1
    };
    if b < s.len() {
        assert(e[0] == s[b]);
        let rest = e.skip(1);
        if b + 1 < s.len() {
            assert(rest[0] == s[b + 1]);
        }
        assert(expr::unsigned(rest) =~= s.skip(c));
        assert forall|i: int| c <= i < s.len() implies '0' <= #[trigger] s[i] <= '9' by {
            assert(s[i] == s.skip(c)[i - c]);
        }
    }
    (p, b, c)
}

/// Every number is written as [`law_decimal`] or [`law_number_names`] say. These are
/// the characters before which its parts end.
pub proof fn law_number_parts(s: Seq<char>) -> (parts: (int, int, int, int))
    requires
        expr::number(s),
    ensures
        ({
            let (a, p, b, c) = parts;
            &&& 0 <= a <= 1
            &&& a < s.len()
            &&& a == 1 ==> s[0] == '+' || s[0] == '-'
            &&& {
                ||| {
                    &&& a <= p <= b <= s.len()
                    &&& forall|i: int| a <= i < p ==> '0' <= #[trigger] s[i] <= '9'
                    &&& p < b ==> s[p] == '.'
                    &&& forall|i: int| p < i < b ==> '0' <= #[trigger] s[i] <= '9'
                    &&& a < p || p + 1 < b
                    &&& b < s.len() ==> {
                        &&& s[b] == 'e' || s[b] == 'E'
                        &&& c == b + 1 || c == b + 2 && (s[b + 1] == '+' || s[b + 1] == '-')
                        &&& c < s.len()
                        &&& forall|i: int| c <= i < s.len() ==> '0' <= #[trigger] s[i] <= '9'
                    }
                }
                ||| s.len() == a + 3 && (s[a] == 'i' || s[a] == 'I') && (s[a + 1] == 'n' || s[a + 1]
                    == 'N') && (s[a + 2] == 'f' || s[a + 2] == 'F')
                ||| s.len() == a + 3 && (s[a] == 'n' || s[a] == 'N') && (s[a + 1] == 'a' || s[a + 1]
                    == 'A') && (s[a + 2] == 'n' || s[a + 2] == 'N')
                ||| s.len() == a + 8 && (s[a] == 'i' || s[a] == 'I') && (s[a + 1] == 'n' || s[a + 1]
                    == 'N') && (s[a + 2] == 'f' || s[a + 2] == 'F') && (s[a + 3] == 'i' || s[a + 3]
                    == 'I') && (s[a + 4] == 'n' || s[a + 4] == 'N') && (s[a + 5] == 'i' || s[a + 5]
                    == 'I') && (s[a + 6] == 't' || s[a + 6] == 'T') && (s[a + 7] == 'y' || s[a + 7]
                    == 'Y')
            }
        }),
{
    let a: int = if s.len() > 0 && (s[0] == '+' || s[0] == '-') {
        1
    } else {
        0
    };
    assert(expr::unsigned(s) =~= s.skip(a));
    lemma_spells(s, a);
    if expr::decimal(s.skip(a)) {
        let (p, b, c) = lemma_decimal_parts(s, a);
        (a, p, b, c)
    } else {
        (a, 0, 0, 0)
    }
}

/// A number ends with a digit, with a point, or as its name does.
proof fn lemma_number_end(s: Seq<char>)
    requires
        expr::number(s),
    ensures
        s.len() > 0,
        ({
            let c = s.last();
            ||| '0' <= c <= '9' || c == '.' || c == 'f' || c == 'F' || c == 'y' || c == 'Y'
            ||| (c == 'n' || c == 'N') && s.len() >= 3 && (s[s.len() - 2] == 'a' || s[s.len() - 2]
                == 'A')
        }),
{
    let (a, p, b, c) = law_number_parts(s);
    let last = s.len() - 1;
    assert(s.last() == s[last]);
}

/// Exactly the words `true` and `false`, in lower case, are booleans.
pub proof fn law_bool(s: Seq<char>)
    ensures
        expr::expr_token(s) == TokenView::Bool(true) <==> s == seq!['t', 'r', 'u', 'e'],
        expr::expr_token(s) == TokenView::Bool(false) <==> s == seq!['f', 'a', 'l', 's', 'e'],
{
    reveal_strlit("true");
    reveal_strlit("false");
    assert("true"@ =~= seq!['t', 'r', 'u', 'e']);
    assert("false"@ =~= seq!['f', 'a', 'l', 's', 'e']);
}

/// A number is yielded as it is written.
pub proof fn law_number_word(s: Seq<char>)
    requires
        expr::number(s),
    ensures
        expr::expr_token(s) == (TokenView::Number { digits: s, percent: false }),
{
    lemma_number_end(s);
    reveal_strlit("true");
    reveal_strlit("false");
}

/// A number and a percent sign are that number as a percentage.
pub proof fn law_percentage_word(digits: Seq<char>)
    requires
        expr::number(digits),
    ensures
        expr::expr_token(digits.push('%')) == (TokenView::Number { digits, percent: true }),
{
    let s = digits.push('%');
    reveal_strlit("true");
    reveal_strlit("false");
    assert(s.last() == '%');
    assert(s.drop_last() =~= digits);
    if expr::number(s) {
        lemma_number_end(s);
    }
}

proof fn lemma_length_word(digits: Seq<char>, x: char, y: char, unit: Unit)
    requires
        expr::number(digits),
        match unit {
            Unit::Pt => x == 'p' && y == 't',
            Unit::Mm => x == 'm' && y == 'm',
            Unit::Cm => x == 'c' && y == 'm',
            Unit::In => x == 'i' && y == 'n',
        },
    ensures
        expr::expr_token(digits + seq![x, y]) == (TokenView::Length { digits, unit }),
{
    let s = digits + seq![x, y];
    reveal_strlit("true");
    reveal_strlit("false");
    assert(s[s.len() - 2] == x);
    assert(s.last() == y);
    assert(s.take(s.len() - 2) =~= digits);
    if expr::number(s) {
        lemma_number_end(s);
    }
}

/// A number and one of four units, in lower case, are a length of that number and
/// unit.
pub proof fn law_length_word(digits: Seq<char>)
    requires
        expr::number(digits),
    ensures
        expr::expr_token(digits + seq!['p', 't']) == (TokenView::Length { digits, unit: Unit::Pt }),
        expr::expr_token(digits + seq!['m', 'm']) == (TokenView::Length { digits, unit: Unit::Mm }),
        expr::expr_token(digits + seq!['c', 'm']) == (TokenView::Length { digits, unit: Unit::Cm }),
        expr::expr_token(digits + seq!['i', 'n']) == (TokenView::Length { digits, unit: Unit::In }),
{
    lemma_length_word(digits, 'p', 't', Unit::Pt);
    lemma_length_word(digits, 'm', 'm', Unit::Mm);
    lemma_length_word(digits, 'c', 'm', Unit::Cm);
    lemma_length_word(digits, 'i', 'n', Unit::In);
}

/// A word that is no boolean, no number, no percentage and no length is an
/// identifier if it is valid as one, and otherwise invalid.
pub proof fn law_other_word(s: Seq<char>)
    requires
        s != seq!['t', 'r', 'u', 'e'],
        s != seq!['f', 'a', 'l', 's', 'e'],
        !expr::number(s),
        s.len() > 0 && s.last() == '%' ==> !expr::number(s.drop_last()),
        s.len() >= 2 && ({
            let x = s[s.len() - 2];
            let y = s.last();
            x == 'p' && y == 't' || x == 'm' && y == 'm' || x == 'c' && y == 'm' || x == 'i' && y
                == 'n'
        }) ==> !expr::number(s.take(s.len() - 2)),
    ensures
        expr::expr_token(s) == if expr::ident(s) {
            TokenView::Ident(s)
        } else {
            TokenView::Invalid(s)
        },
{
    law_bool(s);
}

/// Of ASCII, an identifier starts with a letter, a point, a hyphen or an underscore,
/// and goes on with these and with digits. Beyond ASCII the tables of Unicode say
/// with what one starts and goes on.
pub proof fn law_ident_chars(s: Seq<char>)
    ensures
        expr::ident(s) <==> {
            &&& s.len() > 0
            &&& !('0' <= s[0] <= '9')
            &&& s[0] > '\x7f' ==> expr::xid_start(s[0])
            &&& forall|i: int|
                0 <= i < s.len() ==> {
                    ||| 'a' <= #[trigger] s[i] <= 'z' || 'A' <= s[i] <= 'Z' || '0' <= s[i] <= '9'
                    ||| s[i] == '.' || s[i] == '-' || s[i] == '_'
                    ||| s[i] > '\x7f' && expr::xid_continue(s[i])
                }
        },
{
    if expr::ident(s) {
        assert(expr::ident_continue(s[0]));
        assert forall|i: int| 0 <= i < s.len() implies {
            ||| 'a' <= #[trigger] s[i] <= 'z' || 'A' <= s[i] <= 'Z' || '0' <= s[i] <= '9'
            ||| s[i] == '.' || s[i] == '-' || s[i] == '_'
            ||| s[i] > '\x7f' && expr::xid_continue(s[i])
        } by {
            assert(expr::ident_continue(s[i]));
        }
    }
}

/// An identifier stays one with another character behind it exactly if it can go on
/// with that character.
pub proof fn law_ident_grows(s: Seq<char>, c: char)
    requires
        expr::ident(s),
    ensures
        expr::ident(s.push(c)) <==> {
            ||| 'a' <= c <= 'z' || 'A' <= c <= 'Z' || '0' <= c <= '9'
            ||| c == '.' || c == '-' || c == '_'
            ||| c > '\x7f' && expr::xid_continue(c)
        },
{
    let t = s.push(c);
    assert(t[s.len() as int] == c);
    assert(t[0] == s[0]);
    assert forall|i: int| 0 <= i < s.len() implies expr::ident_continue(#[trigger] t[i]) by {
        assert(t[i] == s[i]);
    }
}

} // verus!

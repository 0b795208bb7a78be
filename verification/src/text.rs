//! Strings as sequences of characters, and the bytes that encode them.

use vstd::prelude::*;
use vstd::utf8::*;

verus! {

/// The number of bytes that encode some characters in UTF-8.
pub open spec fn byte_len(chars: Seq<char>) -> nat {
    encode_utf8(chars).len()
}

/// The number of bytes that encode a character in UTF-8.
pub(crate) fn char_len(c: char) -> (len: usize)
    ensures
        len == byte_len(seq![c]),
        1 <= len <= 4,
{
    proof {
        lemma_byte_len_one(c);
    }
    let code: u32 = c as u32;
    if code < 0x80 {
        1
    } else if code < 0x800 {
        2
    } else if code < 0x10000 {
        3
    } else {
        4
    }
}

/// The number of bytes of a string. It bounds the number of characters.
pub(crate) fn str_len(text: &str) -> (len: usize)
    ensures
        len == byte_len(text@),
        text@.len() <= len,
{
    proof {
        lemma_byte_len_ge(text@);
    }
    text.as_bytes().len()
}

/// The first character of a string, if there is one.
pub(crate) fn first_char(text: &str) -> (first: Option<char>)
    ensures
        first == if text@.len() > 0 { Some(text@[0]) } else { None::<char> },
{
    let mut chars = text.chars();
    chars.next()
}

/// The characters of a string.
pub(crate) fn chars_of(text: &str) -> (chars: Vec<char>)
    ensures
        chars@ == text@,
{
    let mut chars: Vec<char> = Vec::new();
    let mut rest = text;
    loop
        invariant
            chars@ + rest@ =~= text@,
        ensures
            rest@.len() == 0,
        decreases rest@.len(),
    {
        match first_char(rest) {
            Some(c) => {
                chars.push(c);
                assert(rest@.take(1) =~= seq![c]);
                rest = split(rest, char_len(c), Ghost(1)).1;
            },
            None => break,
        }
    }
    assert(chars@ + rest@ =~= chars@);
    chars
}

/// Split a string behind its first `mid` bytes, which encode `k` characters.
pub(crate) fn split<'s>(text: &'s str, mid: usize, Ghost(k): Ghost<int>) -> (parts: (&'s str, &'s str))
    requires
        0 <= k <= text@.len(),
        mid == byte_len(text@.take(k)),
    ensures
        parts.0@ == text@.take(k),
        parts.1@ == text@.skip(k),
{
    proof {
        lemma_boundary(text@, k);
    }
    let parts = text.split_at(mid);
    proof {
        let (a, b) = (text@.take(k), text@.skip(k));
        lemma_encode_concat(a, b);
        assert(a + b =~= text@);
        assert(encode_utf8(text@).subrange(0, mid as int) =~= encode_utf8(a));
        assert(encode_utf8(text@).subrange(mid as int, encode_utf8(text@).len() as int)
            =~= encode_utf8(b));
        lemma_encode_injective(parts.0@, a);
        lemma_encode_injective(parts.1@, b);
    }
    parts
}

/// The part of a string between two byte indices, at which the characters
/// number `a` and `b` start.
pub(crate) fn slice<'s>(
    text: &'s str,
    start: usize,
    end: usize,
    Ghost(a): Ghost<int>,
    Ghost(b): Ghost<int>,
) -> (part: &'s str)
    requires
        0 <= a <= b <= text@.len(),
        start == byte_len(text@.take(a)),
        end == byte_len(text@.take(b)),
    ensures
        part@ == text@.subrange(a, b),
{
    let head = split(text, end, Ghost(b)).0;
    assert(head@.take(a) =~= text@.take(a));
    let part = split(head, start, Ghost(a)).1;
    assert(part@ =~= text@.subrange(a, b));
    part
}

/// The encoding of a single character has one to four bytes, by its code.
pub proof fn lemma_byte_len_one(c: char)
    ensures
        byte_len(seq![c]) == encode_scalar(c as u32).len(),
        byte_len(seq![c]) == if (c as u32) < 0x80 {
            1
        } else if (c as u32) < 0x800 {
            2
        } else if (c as u32) < 0x10000 {
            3
        } else {
            4int
        },
{
    reveal_with_fuel(encode_utf8, 2);
    assert(seq![c].drop_first() =~= Seq::<char>::empty());
}

/// Joined characters are encoded by the joined encodings.
pub proof fn lemma_encode_concat(a: Seq<char>, b: Seq<char>)
    ensures
        encode_utf8(a + b) == encode_utf8(a) + encode_utf8(b),
    decreases a.len(),
{
    if a.len() == 0 {
        assert(a + b =~= b);
        assert(encode_utf8(a) + encode_utf8(b) =~= encode_utf8(b));
    } else {
        lemma_encode_concat(a.drop_first(), b);
        assert((a + b).drop_first() =~= a.drop_first() + b);
        assert(encode_utf8(a + b) =~= encode_utf8(a) + encode_utf8(b));
    }
}

/// Equal encodings encode equal characters.
pub proof fn lemma_encode_injective(a: Seq<char>, b: Seq<char>)
    requires
        encode_utf8(a) == encode_utf8(b),
    ensures
        a == b,
{
    vstd::utf8::encode_utf8_decode_utf8(a);
    vstd::utf8::encode_utf8_decode_utf8(b);
}

/// Where the first `k` characters end is a boundary between characters.
pub proof fn lemma_boundary(chars: Seq<char>, k: int)
    requires
        0 <= k <= chars.len(),
    ensures
        is_char_boundary(encode_utf8(chars), byte_len(chars.take(k)) as int),
    decreases k,
{
    let bytes = encode_utf8(chars);
    vstd::utf8::encode_utf8_valid_utf8(chars);
    if k > 0 {
        let rest = chars.drop_first();
        let head = chars.take(k);
        lemma_boundary(rest, k - 1);
        vstd::utf8::encode_utf8_first_scalar(chars);
        assert(head.drop_first() =~= rest.take(k - 1));
        assert(head[0] == chars[0]);
        assert(vstd::utf8::pop_first_scalar(bytes) =~= encode_utf8(rest));
        lemma_byte_len_take(chars, k);
    }
}

/// The first characters have no more bytes than all of them.
pub proof fn lemma_byte_len_take(chars: Seq<char>, k: int)
    requires
        0 <= k <= chars.len(),
    ensures
        byte_len(chars.take(k)) + byte_len(chars.skip(k)) == byte_len(chars),
{
    lemma_encode_concat(chars.take(k), chars.skip(k));
    assert(chars.take(k) + chars.skip(k) =~= chars);
}

/// There are no fewer bytes than characters.
pub proof fn lemma_byte_len_ge(chars: Seq<char>)
    ensures
        chars.len() <= byte_len(chars),
    decreases chars.len(),
{
    if chars.len() > 0 {
        lemma_byte_len_ge(chars.drop_first());
    }
}

} // verus!

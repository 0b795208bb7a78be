//! Lines and columns of source code.

use vstd::prelude::*;

use crate::chars;
use crate::syntax::{Pos, Span};

verus! {

/// Whether a line of the source code ends with the character number `i`. A
/// Carriage Return directly before a Line Feed leaves that to the Line Feed.
pub open spec fn ends_line(s: Seq<char>, i: int) -> bool {
    chars::newline_char(s[i]) && !(s[i] == '\r' && i + 1 < s.len() && s[i + 1] == '\n')
}

/// The line on which the character number `k` stands: how many lines end before
/// it.
pub open spec fn line_of(s: Seq<char>, k: int) -> nat
    decreases k,
{
    if k <= 0 {
        0
    } else if ends_line(s, k - 1) {
        line_of(s, k - 1) + 1
    } else {
        line_of(s, k - 1)
    }
}

/// The column in which the character number `k` stands: how many characters
/// stand before it on its line.
pub open spec fn column_of(s: Seq<char>, k: int) -> nat
    decreases k,
{
    if k <= 0 || ends_line(s, k - 1) {
        0
    } else {
        column_of(s, k - 1) + 1
    }
}

/// The position of the character number `k`.
pub open spec fn pos_of(s: Seq<char>, k: int) -> Pos {
    Pos { line: line_of(s, k) as usize, column: column_of(s, k) as usize }
}

/// The part of the source code from the character number `a` up to `b`.
pub open spec fn span_of(s: Seq<char>, a: int, b: int) -> Span {
    Span { start: pos_of(s, a), end: pos_of(s, b) }
}

/// Neither the line nor the column exceeds the number of the character.
pub proof fn lemma_pos_bound(s: Seq<char>, k: int)
    requires
        0 <= k,
    ensures
        line_of(s, k) <= k,
        column_of(s, k) <= k,
    decreases k,
{
    if k > 0 {
        lemma_pos_bound(s, k - 1);
    }
}

/// Lines do not decrease.
pub proof fn lemma_line_monotone(s: Seq<char>, a: int, b: int)
    requires
        a <= b,
    ensures
        line_of(s, a) <= line_of(s, b),
    decreases b - a,
{
    if a < b {
        lemma_line_monotone(s, a, b - 1);
    }
}

} // verus!

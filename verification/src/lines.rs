//! The mathematical model of a newline-delimited source: its lines, where
//! each line starts, and what the first `n` lines spell.
//!
//! A line is a maximal run of bytes up to and including a newline byte
//! (value 10); a final run without a terminator still counts as a line.

use vstd::prelude::*;

verus! {

/// Number of bytes in the first line of `s`: through the first newline
/// byte, or all of `s` when no newline occurs.
pub open spec fn first_line_len(s: Seq<u8>) -> nat
    decreases s.len(),
{
    if s.len() == 0 {
        0
    } else if s[0] == 10 {
        1
    } else {
        1 + first_line_len(s.skip(1))
    }
}

/// The first line of a non-empty `s` holds between one byte and all of `s`.
pub proof fn lemma_first_line_len_bounds(s: Seq<u8>)
    ensures
        s.len() == 0 ==> first_line_len(s) == 0,
        s.len() > 0 ==> 1 <= first_line_len(s) <= s.len(),
    decreases s.len(),
{
    if s.len() > 0 && s[0] != 10 {
        lemma_first_line_len_bounds(s.skip(1));
    }
}

/// The lines of `s`, in order, each with its terminator where it has one.
pub open spec fn lines_of(s: Seq<u8>) -> Seq<Seq<u8>>
    decreases s.len(),
    via lines_of_decreases
{
    if s.len() == 0 {
        Seq::empty()
    } else {
        seq![s.take(first_line_len(s) as int)] + lines_of(s.skip(first_line_len(s) as int))
    }
}

#[via_fn]
proof fn lines_of_decreases(s: Seq<u8>) {
    lemma_first_line_len_bounds(s);
}

/// Byte offset at which line `k` of `s` begins; at or past the last line it
/// saturates at the length of `s`.
pub open spec fn line_start(s: Seq<u8>, k: int) -> int
    decreases k,
{
    if k <= 0 || s.len() == 0 {
        0
    } else {
        first_line_len(s) + line_start(s.skip(first_line_len(s) as int), k - 1)
    }
}

/// The concatenated bytes of the first `n` lines of `s` (all of `s` when it
/// has at most `n` lines).
pub open spec fn take_lines(s: Seq<u8>, n: int) -> Seq<u8>
    decreases n,
{
    if n <= 0 || s.len() == 0 {
        Seq::empty()
    } else {
        s.take(first_line_len(s) as int) + take_lines(s.skip(first_line_len(s) as int), n - 1)
    }
}

/// A scan that saw no newline before position `m`, and one at `m` or the end
/// of `s` there, has found the first line: it runs through exactly that
/// position.
pub proof fn lemma_first_line_scan(s: Seq<u8>, m: int)
    requires
        0 <= m <= s.len(),
        forall|k: int| 0 <= k < m ==> s[k] != 10,
        m < s.len() ==> s[m] == 10,
    ensures
        first_line_len(s) == if m < s.len() {
            m + 1
        } else {
            s.len() as int
        },
    decreases m,
{
    if s.len() > 0 && m > 0 {
        assert forall|k: int| 0 <= k < m - 1 implies s.skip(1)[k] != 10 by {
            assert(s.skip(1)[k] == s[k + 1]);
        }
        if m - 1 < s.len() - 1 {
            assert(s.skip(1)[m - 1] == s[m]);
        }
        lemma_first_line_scan(s.skip(1), m - 1);
    }
}

/// Line starts lie within `s`; while lines remain each start is strictly
/// before the next; and past the last line every start equals the length.
pub proof fn lemma_line_start_props(s: Seq<u8>, k: int)
    requires
        0 <= k,
    ensures
        0 <= line_start(s, k) <= s.len(),
        k >= lines_of(s).len() ==> line_start(s, k) == s.len(),
        k < lines_of(s).len() ==> line_start(s, k) < line_start(s, k + 1),
    decreases k,
{
    lemma_first_line_len_bounds(s);
    if s.len() > 0 {
        let l = first_line_len(s) as int;
        if k == 0 {
            assert(line_start(s.skip(l), 0) == 0);
            assert(line_start(s, 1) == l);
        } else {
            lemma_line_start_props(s.skip(l), k - 1);
        }
    }
}

/// Line starts never decrease as the line number grows.
pub proof fn lemma_line_start_mono(s: Seq<u8>, i: int, j: int)
    requires
        0 <= i <= j,
    ensures
        line_start(s, i) <= line_start(s, j),
    decreases j - i,
{
    if i < j {
        lemma_line_start_mono(s, i, j - 1);
        lemma_line_start_props(s, j - 1);
        lemma_line_start_props(s, j);
    }
}

/// The lines from line `k` on are the lines of the suffix of `s` that begins
/// at line `k`'s start.
pub proof fn lemma_lines_of_skip(s: Seq<u8>, k: int)
    requires
        0 <= k <= lines_of(s).len(),
    ensures
        lines_of(s.skip(line_start(s, k))) == lines_of(s).skip(k),
    decreases k,
{
    lemma_line_start_props(s, k);
    if k == 0 {
        assert(s.skip(0) =~= s);
        assert(lines_of(s).skip(0) =~= lines_of(s));
    } else {
        let l = first_line_len(s) as int;
        lemma_first_line_len_bounds(s);
        lemma_line_start_props(s.skip(l), k - 1);
        lemma_lines_of_skip(s.skip(l), k - 1);
        assert(s.skip(line_start(s, k)) =~= s.skip(l).skip(line_start(s.skip(l), k - 1)));
        assert(lines_of(s).skip(k) =~= lines_of(s.skip(l)).skip(k - 1));
    }
}

/// With `n` at least the number of lines of `s`, the first `n` lines of `s`
/// are all of `s`.
pub proof fn lemma_take_all_lines(s: Seq<u8>, n: int)
    requires
        n >= lines_of(s).len(),
    ensures
        take_lines(s, n) == s,
    decreases n,
{
    if n <= 0 || s.len() == 0 {
        assert(take_lines(s, n) =~= s);
    } else {
        let l = first_line_len(s) as int;
        lemma_first_line_len_bounds(s);
        lemma_take_all_lines(s.skip(l), n - 1);
        assert(s.take(l) + s.skip(l) =~= s);
    }
}

} // verus!

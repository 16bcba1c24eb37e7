//! Fetching lines through an index: the seek arithmetic that turns a start
//! line into a byte offset, and the bounded read of `take` lines from there.
//!
//! The index records the offset just *past* each line, so the record at
//! position `start` is the end of line `start`, not its beginning; seeking
//! to that record's value would hand back lines from `start + 1` on.  This
//! retriever corrects that off-by-one: it still demands that the index hold
//! a record for line `start` itself — so a start past the indexed lines,
//! and any fetch against an empty index, fails with `IndexReadError` — but
//! it seeks to the *beginning* of line `start`: offset zero for the first
//! line, otherwise the value of the record at `start - 1`.

use vstd::prelude::*;
use crate::args::ToolError;
use crate::indexer::{index_of, lemma_index_size, lemma_record_value, record_at};
use crate::lines::{
    first_line_len, lemma_first_line_len_bounds, lemma_first_line_scan, lemma_line_start_props,
    lemma_lines_of_skip, lemma_take_all_lines, line_start, lines_of, take_lines,
};
use crate::records::{be_u64_of, decode_record};

verus! {

/// Offset in the source at which a fetch starting at line `start` begins to
/// read: zero for the first line, else the decoded record at `start - 1`.
pub open spec fn start_offset_of(idx: Seq<u8>, start: int) -> int {
    if start == 0 {
        0
    } else {
        record_at(idx, start - 1) as int
    }
}

/// What a successful fetch returns: the first `take` lines of the source
/// suffix that begins at the start offset — the whole remainder when fewer
/// lines are left, nothing when the offset lies at or past the end.
pub open spec fn fetched_bytes(source: Seq<u8>, idx: Seq<u8>, start: int, take: int) -> Seq<u8> {
    let off = start_offset_of(idx, start);
    if off <= source.len() {
        take_lines(source.skip(off), take)
    } else {
        Seq::empty()
    }
}

/// Decode record `rec` of an in-memory index.
pub fn read_record(index: &Vec<u8>, rec: usize) -> (r: u64)
    requires
        8 * (rec as int) + 8 <= index@.len(),
    ensures
        r == record_at(index@, rec as int),
{
    let n = index.len();
    let base = 8 * rec;
    let mut buf: Vec<u8> = Vec::new();
    proof {
        assert(buf@ =~= index@.subrange(base as int, base as int));
    }
    let mut m: usize = 0;
    while m < 8
        invariant
            m <= 8,
            base == 8 * (rec as int),
            base + 8 <= index@.len(),
            buf@ == index@.subrange(base as int, base + m),
        decreases 8 - m,
    {
        buf.push(index[base + m]);
        proof {
            assert(buf@ =~= index@.subrange(base as int, base + m + 1));
        }
        m = m + 1;
    }
    decode_record(&buf)
}

/// Fetch `take` lines starting at line `start` from an in-memory source,
/// through its in-memory index.  Fails with `IndexReadError` exactly when
/// the index holds no record for line `start`; a remainder shorter than
/// `take` is not an error, and `take == 0` fetches nothing.
pub fn fetch_range(source: &Vec<u8>, index: &Vec<u8>, start: u32, take: u32) -> (r: Result<
    Vec<u8>,
    ToolError,
>)
    ensures
        8 * (start as int) + 8 > index@.len() ==> r == Err::<Vec<u8>, ToolError>(
            ToolError::IndexReadError,
        ),
        8 * (start as int) + 8 <= index@.len() ==> (r matches Ok(v) && v@ == fetched_bytes(
            source@,
            index@,
            start as int,
            take as int,
        )),
{
    let idx_len = index.len();
    if (idx_len as u64) < 8 * (start as u64) + 8 {
        return Err(ToolError::IndexReadError);
    }
    let off_u64: u64 = if start == 0 {
        0
    } else {
        read_record(index, (start - 1) as usize)
    };
    let n = source.len();
    let off: usize = if off_u64 > n as u64 {
        n
    } else {
        off_u64 as usize
    };
    let mut out: Vec<u8> = Vec::new();
    let mut cursor: usize = off;
    let mut t: u32 = 0;
    proof {
        assert(off_u64 == start_offset_of(index@, start as int));
        if off_u64 > n as u64 {
            assert(source@.skip(off as int) =~= Seq::empty());
        }
        assert(fetched_bytes(source@, index@, start as int, take as int) =~= out@ + take_lines(
            source@.skip(cursor as int),
            take as int,
        ));
    }
    while t < take && cursor < n
        invariant
            cursor <= n,
            n == source@.len(),
            t <= take,
            fetched_bytes(source@, index@, start as int, take as int) == out@ + take_lines(
                source@.skip(cursor as int),
                take as int - t as int,
            ),
        decreases take - t,
    {
        let ghost tl = source@.skip(cursor as int);
        let mut j = cursor;
        while j < n && source[j] != 10
            invariant
                cursor <= j <= n,
                n == source@.len(),
                forall|q: int| cursor <= q < j ==> source@[q] != 10,
            decreases n - j,
        {
            j = j + 1;
        }
        let line_end = if j < n {
            j + 1
        } else {
            n
        };
        proof {
            assert forall|q: int| 0 <= q < j - cursor implies tl[q] != 10 by {
                assert(tl[q] == source@[q + cursor]);
            }
            if j < n {
                assert(tl[j - cursor] == source@[j as int]);
            }
            lemma_first_line_scan(tl, j - cursor);
            lemma_first_line_len_bounds(tl);
            assert(first_line_len(tl) == line_end - cursor);
        }
        let ghost out_before = out@;
        let mut m = cursor;
        while m < line_end
            invariant
                cursor <= m <= line_end,
                line_end <= n,
                n == source@.len(),
                out@ == out_before + source@.subrange(cursor as int, m as int),
            decreases line_end - m,
        {
            out.push(source[m]);
            proof {
                assert(out@ =~= out_before + source@.subrange(cursor as int, m + 1));
            }
            m = m + 1;
        }
        proof {
            assert(tl.take(first_line_len(tl) as int) =~= source@.subrange(
                cursor as int,
                line_end as int,
            ));
            assert(tl.skip(first_line_len(tl) as int) =~= source@.skip(line_end as int));
            assert(fetched_bytes(source@, index@, start as int, take as int) =~= out@
                + take_lines(source@.skip(line_end as int), take as int - (t as int + 1)));
        }
        cursor = line_end;
        t = t + 1;
    }
    proof {
        if t == take {
            assert(take_lines(source@.skip(cursor as int), 0) =~= Seq::empty());
        } else {
            assert(source@.skip(cursor as int) =~= Seq::empty());
        }
        assert(fetched_bytes(source@, index@, start as int, take as int) =~= out@);
    }
    Ok(out)
}

/// Where in the index the retriever reads for a fetch at line `start`, and
/// how many bytes it needs there: the first line needs only the record that
/// proves line 0 is indexed; a later line also needs the record before its
/// own, whose value is its start offset.  The window is `(seek, length)`.
pub fn index_window(start: u32) -> (r: (u64, usize))
    ensures
        r.0 == (if start == 0 {
            0int
        } else {
            8 * (start as int - 1)
        }),
        r.1 == (if start == 0 {
            8int
        } else {
            16int
        }),
{
    if start == 0 {
        (0, 8)
    } else {
        (8 * (start as u64 - 1), 16)
    }
}

/// Interpret the bytes found at the index window for line `start` (fewer
/// than asked when the index ends early).  Fails with `IndexReadError`
/// exactly when the window is too short to hold the records line `start`
/// needs; else hands back the byte offset at which that line begins in the
/// source.
pub fn start_offset_from(start: u32, window: &Vec<u8>) -> (r: Result<u64, ToolError>)
    ensures
        window@.len() < (if start == 0 {
            8int
        } else {
            16int
        }) ==> r == Err::<u64, ToolError>(ToolError::IndexReadError),
        window@.len() >= (if start == 0 {
            8int
        } else {
            16int
        }) ==> r == Ok::<u64, ToolError>(
            if start == 0 {
                0u64
            } else {
                be_u64_of(window@.subrange(0, 8))
            },
        ),
{
    let need: usize = if start == 0 {
        8
    } else {
        16
    };
    if window.len() < need {
        Err(ToolError::IndexReadError)
    } else if start == 0 {
        Ok(0)
    } else {
        Ok(read_record(window, 0))
    }
}

/// Round trip: build the index of `s`, fetch one line starting at line `k`,
/// and exactly line `k` of `s` comes back.
pub proof fn lemma_fetch_round_trip(s: Seq<u8>, k: int)
    requires
        s.len() <= u64::MAX,
        0 <= k < lines_of(s).len(),
    ensures
        8 * k + 8 <= index_of(s).len(),
        fetched_bytes(s, index_of(s), k, 1) == lines_of(s)[k],
{
    lemma_index_size(s);
    lemma_line_start_props(s, k);
    if k > 0 {
        lemma_record_value(s, k - 1);
    }
    let off = line_start(s, k);
    let t = s.skip(off);
    lemma_lines_of_skip(s, k);
    assert(t.len() > 0);
    lemma_first_line_len_bounds(t);
    assert(take_lines(t.skip(first_line_len(t) as int), 0) =~= Seq::empty());
    assert(take_lines(t, 1) =~= t.take(first_line_len(t) as int));
    assert(lines_of(s)[k] == lines_of(t)[0]);
}

/// A short take: with `take` at least the number of lines remaining from
/// line `k`, the fetch returns exactly the whole remainder of the source —
/// every byte from line `k`'s start on — and no error.
pub proof fn lemma_short_take(s: Seq<u8>, k: int, take: int)
    requires
        s.len() <= u64::MAX,
        0 <= k < lines_of(s).len(),
        take >= lines_of(s).len() - k,
    ensures
        fetched_bytes(s, index_of(s), k, take) == s.skip(line_start(s, k)),
{
    lemma_line_start_props(s, k);
    if k > 0 {
        lemma_record_value(s, k - 1);
    }
    let t = s.skip(line_start(s, k));
    lemma_lines_of_skip(s, k);
    lemma_take_all_lines(t, take);
}

} // verus!

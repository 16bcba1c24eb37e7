//! Building an index: the forward scan that records, after every line of the
//! source, the cumulative byte count through that line, as one fixed-width
//! big-endian record per line.

use vstd::prelude::*;
use crate::lines::{
    first_line_len, lemma_first_line_len_bounds, lemma_first_line_scan, lemma_line_start_mono,
    lemma_line_start_props, line_start, lines_of,
};
use crate::records::{be_bytes_of, be_u64_of, encode_record, lemma_be_round_trip};

verus! {

/// The index records for the lines of `s` when the scan reaches `s` with
/// `base` bytes already behind it: one eight-byte record per line, holding
/// the cumulative count through that line.
pub open spec fn index_bytes_from(s: Seq<u8>, base: int) -> Seq<u8>
    decreases s.len(),
    via index_bytes_from_decreases
{
    if s.len() == 0 {
        Seq::empty()
    } else {
        be_bytes_of((base + first_line_len(s)) as u64) + index_bytes_from(
            s.skip(first_line_len(s) as int),
            base + first_line_len(s),
        )
    }
}

#[via_fn]
proof fn index_bytes_from_decreases(s: Seq<u8>, base: int) {
    lemma_first_line_len_bounds(s);
}

/// The whole index of a source `s`: the record sequence of a scan of `s`
/// from its first byte.
pub open spec fn index_of(s: Seq<u8>) -> Seq<u8> {
    index_bytes_from(s, 0)
}

/// Record `k` of an index, decoded.
pub open spec fn record_at(idx: Seq<u8>, k: int) -> u64
    recommends
        0 <= k,
        8 * k + 8 <= idx.len(),
{
    be_u64_of(idx.subrange(8 * k, 8 * k + 8))
}

/// An index holds exactly eight bytes per line, whatever came before the
/// scanned suffix.
pub proof fn lemma_index_bytes_len(s: Seq<u8>, base: int)
    ensures
        index_bytes_from(s, base).len() == 8 * lines_of(s).len(),
    decreases s.len(),
{
    if s.len() > 0 {
        let l = first_line_len(s) as int;
        lemma_first_line_len_bounds(s);
        lemma_index_bytes_len(s.skip(l), base + l);
    }
}

/// The index of a source with `L` lines is exactly `8 * L` bytes long.
pub proof fn lemma_index_size(s: Seq<u8>)
    ensures
        index_of(s).len() == 8 * lines_of(s).len(),
{
    lemma_index_bytes_len(s, 0);
}

/// An empty source yields a zero-length index.
pub proof fn lemma_empty_index()
    ensures
        index_of(Seq::empty()) == Seq::<u8>::empty(),
{
}

proof fn lemma_index_record_from(s: Seq<u8>, base: int, k: int)
    requires
        0 <= base,
        base + s.len() <= u64::MAX,
        0 <= k < lines_of(s).len(),
    ensures
        record_at(index_bytes_from(s, base), k) == base + line_start(s, k + 1),
    decreases k,
{
    let l = first_line_len(s) as int;
    lemma_first_line_len_bounds(s);
    lemma_index_bytes_len(s.skip(l), base + l);
    let rec = be_bytes_of((base + l) as u64);
    let rest = index_bytes_from(s.skip(l), base + l);
    if k == 0 {
        assert(index_bytes_from(s, base).subrange(0, 8) =~= rec);
        lemma_be_round_trip((base + l) as u64);
        assert(line_start(s.skip(l), 0) == 0);
        assert(line_start(s, 1) == l);
    } else {
        lemma_index_record_from(s.skip(l), base + l, k - 1);
        assert(index_bytes_from(s, base).subrange(8 * k, 8 * k + 8) =~= rest.subrange(
            8 * (k - 1),
            8 * (k - 1) + 8,
        ));
    }
}

/// What a record means: record `k` of the index of `s` decodes to the byte
/// offset just past the end of line `k` — which is where line `k + 1`
/// begins.
pub proof fn lemma_record_value(s: Seq<u8>, k: int)
    requires
        s.len() <= u64::MAX,
        0 <= k < lines_of(s).len(),
    ensures
        record_at(index_of(s), k) == line_start(s, k + 1),
{
    lemma_index_record_from(s, 0, k);
}

/// Decoded in order, the records of an index never decrease; indeed a later
/// record is strictly larger, every line being at least one byte.
pub proof fn lemma_records_monotonic(s: Seq<u8>, i: int, j: int)
    requires
        s.len() <= u64::MAX,
        0 <= i <= j < lines_of(s).len(),
    ensures
        record_at(index_of(s), i) <= record_at(index_of(s), j),
        i < j ==> record_at(index_of(s), i) < record_at(index_of(s), j),
{
    lemma_record_value(s, i);
    lemma_record_value(s, j);
    lemma_line_start_mono(s, i + 1, j + 1);
    if i < j {
        lemma_line_start_props(s, j);
        lemma_line_start_mono(s, i + 1, j);
    }
}

/// Streaming construction state for an index: the running cumulative byte
/// count of the forward scan.  The caller feeds it each line's byte count as
/// it is read, in order, and appends the returned record to the index; the
/// whole source is never held in memory.
pub struct IndexBuilder {
    /// Cumulative byte count of the lines recorded so far.
    pub pos: u64,
}

impl IndexBuilder {
    /// A builder at the start of its source: nothing counted yet.
    pub fn new() -> (b: IndexBuilder)
        ensures
            b.pos == 0,
    {
        IndexBuilder { pos: 0 }
    }

    /// The cumulative byte count so far.
    pub fn position(&self) -> (r: u64)
        ensures
            r == self.pos,
    {
        self.pos
    }

    /// Count one line of `len` bytes and return the eight bytes of its index
    /// record, the new cumulative count.  A line that would push the count
    /// past `u64::MAX` is refused with `None` and changes nothing.
    pub fn push_line(&mut self, len: usize) -> (r: Option<Vec<u8>>)
        ensures
            old(self).pos + len <= u64::MAX ==> final(self).pos == old(self).pos + len,
            old(self).pos + len <= u64::MAX ==> (r matches Some(v) && v@ == be_bytes_of(
                final(self).pos,
            )),
            old(self).pos + len > u64::MAX ==> r is None && final(self).pos == old(self).pos,
    {
        if len as u64 <= u64::MAX - self.pos {
            self.pos = self.pos + len as u64;
            Some(encode_record(self.pos))
        } else {
            None
        }
    }
}

/// Build the whole index of an in-memory source: one forward scan, one
/// record per line, exactly as the streaming scan would write it.
pub fn index_for(source: &Vec<u8>) -> (idx: Vec<u8>)
    ensures
        idx@ == index_of(source@),
{
    let n = source.len();
    let mut out: Vec<u8> = Vec::new();
    let mut cursor: usize = 0;
    proof {
        assert(source@.skip(0) =~= source@);
        assert(index_of(source@) =~= out@ + index_bytes_from(source@.skip(0), 0));
    }
    while cursor < n
        invariant
            cursor <= n,
            n == source@.len(),
            index_of(source@) == out@ + index_bytes_from(source@.skip(cursor as int), cursor as int),
        decreases n - cursor,
    {
        let ghost t = source@.skip(cursor as int);
        let mut j = cursor;
        while j < n && source[j] != 10
            invariant
                cursor <= j <= n,
                n == source@.len(),
                forall|q: int| cursor <= q < j ==> source@[q] != 10,
            decreases n - j,
        {
            j = j + 1;
        }
        let line_end = if j < n {
            j + 1
        } else {
            n
        };
        proof {
            assert forall|q: int| 0 <= q < j - cursor implies t[q] != 10 by {
                assert(t[q] == source@[q + cursor]);
            }
            if j < n {
                assert(t[j - cursor] == source@[j as int]);
            }
            lemma_first_line_scan(t, j - cursor);
            lemma_first_line_len_bounds(t);
            assert(first_line_len(t) == line_end - cursor);
        }
        let rec = encode_record(line_end as u64);
        let ghost out_before = out@;
        let mut m: usize = 0;
        while m < 8
            invariant
                m <= 8,
                rec@.len() == 8,
                out@ == out_before + rec@.take(m as int),
            decreases 8 - m,
        {
            out.push(rec[m]);
            proof {
                assert(out@ =~= out_before + rec@.take(m + 1));
            }
            m = m + 1;
        }
        proof {
            assert(out@ =~= out_before + rec@);
            assert(t.skip(first_line_len(t) as int) =~= source@.skip(line_end as int));
            assert(index_bytes_from(t, cursor as int) == rec@ + index_bytes_from(
                source@.skip(line_end as int),
                line_end as int,
            ));
            assert(index_of(source@) =~= out@ + index_bytes_from(
                source@.skip(line_end as int),
                line_end as int,
            ));
        }
        cursor = line_end;
    }
    proof {
        assert(source@.skip(n as int) =~= Seq::empty());
        assert(index_of(source@) =~= out@);
    }
    out
}

} // verus!

use line_index::args::{select_mode, IndexArgs, Mode, ToolError};
use line_index::fetch::{fetch_range, index_window, read_record, start_offset_from};
use line_index::indexer::{index_for, IndexBuilder};

// Nine bytes, three terminated lines: "aaa\n" (4), "bb\n" (3), "c\n" (2).
fn sample_source() -> Vec<u8> {
    b"aaa\nbb\nc\n".to_vec()
}

fn record_bytes(v: u64) -> Vec<u8> {
    vec![0, 0, 0, 0, 0, 0, 0, v as u8]
}

#[test]
fn index_of_sample_is_4_7_9() {
    let idx = index_for(&sample_source());
    let mut expected = record_bytes(4);
    expected.extend(record_bytes(7));
    expected.extend(record_bytes(9));
    assert_eq!(idx, expected);
}

#[test]
fn index_size_is_eight_per_line() {
    assert_eq!(index_for(&sample_source()).len(), 24);
    assert_eq!(index_for(&b"a\nbb".to_vec()).len(), 16);
}

#[test]
fn unterminated_tail_still_gets_a_record() {
    let idx = index_for(&b"a\nbb".to_vec());
    let mut expected = record_bytes(2);
    expected.extend(record_bytes(4));
    assert_eq!(idx, expected);
}

#[test]
fn records_decode_and_never_decrease() {
    let source = b"x\nlonger line\n\ny\n".to_vec();
    let idx = index_for(&source);
    let count = idx.len() / 8;
    assert_eq!(count, 4);
    let mut prev: u64 = 0;
    for rec in 0..count {
        let v = read_record(&idx, rec);
        assert!(prev <= v);
        prev = v;
    }
    assert_eq!(prev, source.len() as u64);
}

#[test]
fn big_endian_byte_order_in_records() {
    // 258 lines of one byte each: record 257 holds 258 = 0x0102,
    // so its eight bytes must read [0, 0, 0, 0, 0, 0, 1, 2].
    let source = vec![10u8; 258];
    let idx = index_for(&source);
    assert_eq!(&idx[257 * 8..258 * 8], &[0, 0, 0, 0, 0, 0, 1, 2]);
    assert_eq!(read_record(&idx, 257), 258);
}

#[test]
fn fetch_start_1_take_1_returns_line_1() {
    // Corrected start-offset semantics: the seek goes to the beginning of
    // line 1 (offset 4, the record before it), so "bb\n" comes back.
    let source = sample_source();
    let idx = index_for(&source);
    assert_eq!(fetch_range(&source, &idx, 1, 1), Ok(b"bb\n".to_vec()));
}

#[test]
fn fetch_round_trips_every_line() {
    let source = sample_source();
    let idx = index_for(&source);
    assert_eq!(fetch_range(&source, &idx, 0, 1), Ok(b"aaa\n".to_vec()));
    assert_eq!(fetch_range(&source, &idx, 1, 1), Ok(b"bb\n".to_vec()));
    assert_eq!(fetch_range(&source, &idx, 2, 1), Ok(b"c\n".to_vec()));
}

#[test]
fn fetch_round_trips_unterminated_tail() {
    let source = b"a\nbb".to_vec();
    let idx = index_for(&source);
    assert_eq!(fetch_range(&source, &idx, 1, 1), Ok(b"bb".to_vec()));
}

#[test]
fn short_take_returns_remainder_without_error() {
    let source = sample_source();
    let idx = index_for(&source);
    assert_eq!(fetch_range(&source, &idx, 1, 10), Ok(b"bb\nc\n".to_vec()));
    assert_eq!(fetch_range(&source, &idx, 0, 100), Ok(source.clone()));
}

#[test]
fn take_zero_fetches_nothing() {
    let source = sample_source();
    let idx = index_for(&source);
    assert_eq!(fetch_range(&source, &idx, 0, 0), Ok(Vec::new()));
}

#[test]
fn empty_source_gives_empty_index_and_fetch_fails() {
    let source: Vec<u8> = Vec::new();
    let idx = index_for(&source);
    assert_eq!(idx.len(), 0);
    assert_eq!(
        fetch_range(&source, &idx, 0, 1),
        Err(ToolError::IndexReadError)
    );
    assert_eq!(
        fetch_range(&source, &idx, 5, 1),
        Err(ToolError::IndexReadError)
    );
}

#[test]
fn start_past_indexed_lines_fails() {
    let source = sample_source();
    let idx = index_for(&source);
    assert_eq!(fetch_range(&source, &idx, 3, 1), Err(ToolError::IndexReadError));
    assert_eq!(fetch_range(&source, &idx, 1000, 1), Err(ToolError::IndexReadError));
}

#[test]
fn builder_streams_the_same_index() {
    let source = sample_source();
    let mut builder = IndexBuilder::new();
    let mut streamed: Vec<u8> = Vec::new();
    for len in [4usize, 3, 2] {
        let rec = builder.push_line(len).expect("offset fits in u64");
        streamed.extend(rec);
    }
    assert_eq!(builder.position(), 9);
    assert_eq!(streamed, index_for(&source));
}

#[test]
fn window_arithmetic_for_start_lines() {
    assert_eq!(index_window(0), (0, 8));
    assert_eq!(index_window(1), (0, 16));
    assert_eq!(index_window(5), (32, 16));
}

#[test]
fn window_decoding_yields_start_offsets() {
    let idx = index_for(&sample_source());
    // start 0: the window is record 0 alone; the offset is the file start.
    assert_eq!(start_offset_from(0, &idx[0..8].to_vec()), Ok(0));
    // start 1: the window holds records 0 and 1; the offset is record 0.
    assert_eq!(start_offset_from(1, &idx[0..16].to_vec()), Ok(4));
    // start 2: records 1 and 2; the offset is record 1.
    assert_eq!(start_offset_from(2, &idx[8..24].to_vec()), Ok(7));
    // a window cut short by the end of the index refuses the fetch.
    assert_eq!(
        start_offset_from(2, &idx[16..24].to_vec()),
        Err(ToolError::IndexReadError)
    );
    assert_eq!(
        start_offset_from(0, &Vec::new()),
        Err(ToolError::IndexReadError)
    );
}

fn args_with(take: Option<u32>, start: Option<u32>) -> IndexArgs {
    IndexArgs {
        file: String::from("input.txt"),
        idx: String::from("input.idx"),
        encoding: None,
        take,
        start,
    }
}

#[test]
fn no_take_selects_build_mode() {
    assert_eq!(select_mode(&args_with(None, None)), Ok(Mode::Build));
    // a lone `start` is ignored, exactly as a build run ignores it.
    assert_eq!(select_mode(&args_with(None, Some(3))), Ok(Mode::Build));
}

#[test]
fn take_with_start_selects_fetch_mode() {
    assert_eq!(
        select_mode(&args_with(Some(2), Some(7))),
        Ok(Mode::Fetch { start: 7, take: 2 })
    );
}

#[test]
fn take_without_start_is_a_usage_error() {
    assert_eq!(
        select_mode(&args_with(Some(2), None)),
        Err(ToolError::UsageError)
    );
}

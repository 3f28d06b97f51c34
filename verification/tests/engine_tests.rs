use spk_tools::engine::Outcome;
use spk_tools::rewrite::{repair, shuffle_records};
use spk_tools::scan::{scan, SpanStatus};
use spk_tools::simple::SimpleCodec;

/// Encode one record in the simple codec's format.
fn game_bytes(tag: u8, k1: u8, k2: u8, moves: &[(u16, i16)]) -> Vec<u8> {
    let mut v = vec![tag, moves.len() as u8, k1, k2];
    for &(mv, sc) in moves {
        v.extend_from_slice(&mv.to_le_bytes());
        v.extend_from_slice(&sc.to_le_bytes());
    }
    v
}

fn record_summary(data: &[u8]) -> Vec<(Vec<(u16, i16)>, u8)> {
    let e = SimpleCodec;
    let led = scan(&e, &data.to_vec());
    let mut out = Vec::new();
    for sp in &led.spans {
        if let SpanStatus::Valid(g) = &sp.status {
            let tag = match g.outcome {
                Outcome::FirstPlayerWin => 0u8,
                Outcome::FirstPlayerLoss => 1u8,
                Outcome::Draw => 2u8,
            };
            out.push((g.moves.clone(), tag));
        }
    }
    out
}

#[test]
fn scan_clean_file() {
    let e = SimpleCodec;
    let g1 = game_bytes(0, 4, 76, &[(5, 100), (13, -200)]);
    let g2 = game_bytes(2, 40, 40, &[]);
    let mut data = g1.clone();
    data.extend_from_slice(&g2);
    let led = scan(&e, &data);
    assert_eq!(led.corrupt_count, 0);
    assert_eq!(led.spans.len(), 2);
    assert_eq!(led.spans[0].offset, 0);
    assert_eq!(led.spans[0].length, g1.len());
    assert_eq!(led.spans[1].offset, g1.len());
    assert_eq!(led.spans[1].length, g2.len());
    match &led.spans[0].status {
        SpanStatus::Valid(g) => {
            assert_eq!(g.moves, vec![(5, 100), (13, -200)]);
            assert_eq!(g.outcome, Outcome::FirstPlayerWin);
            assert_eq!(g.start.first_king, 4);
            assert_eq!(g.start.second_king, 76);
            assert!(g.start.first_to_move);
        }
        SpanStatus::Corrupt => panic!("first span should be valid"),
    }
}

#[test]
fn scan_empty_file() {
    let e = SimpleCodec;
    let data: Vec<u8> = Vec::new();
    let led = scan(&e, &data);
    assert_eq!(led.spans.len(), 0);
    assert_eq!(led.corrupt_count, 0);
}

#[test]
fn forward_progress_on_undecodable_tail() {
    // The last five bytes cannot start a record (tag 0xFF is refused with
    // nothing consumed), yet the scan terminates and reports exactly the
    // unconsumed tail as one corrupt span.
    let e = SimpleCodec;
    let g1 = game_bytes(1, 0, 80, &[(9, 7)]);
    let mut data = g1.clone();
    data.extend_from_slice(&[0xFF, 0xFF, 0xFF, 0xFF, 0xFF]);
    let led = scan(&e, &data);
    assert_eq!(led.corrupt_count, 1);
    assert_eq!(led.spans.len(), 2);
    assert_eq!(led.spans[1].offset, g1.len());
    assert_eq!(led.spans[1].length, 5);
    assert!(matches!(led.spans[1].status, SpanStatus::Corrupt));
}

#[test]
fn scan_truncated_record() {
    // A record whose header promises more moves than the file holds: the
    // failed attempt consumes the whole remainder.
    let e = SimpleCodec;
    let g1 = game_bytes(2, 10, 20, &[]);
    let mut data = g1.clone();
    data.extend_from_slice(&[0, 3, 10, 20, 1, 0]);  // claims 3 moves, holds 2 bytes
    let led = scan(&e, &data);
    assert_eq!(led.corrupt_count, 1);
    assert_eq!(led.spans.len(), 2);
    assert_eq!(led.spans[1].length, 6);
}

#[test]
fn repair_clean_file_is_untouched() {
    let e = SimpleCodec;
    let data = game_bytes(0, 1, 2, &[(3, 4)]);
    let (led, rep) = repair(&e, &data);
    assert_eq!(led.corrupt_count, 0);
    assert_eq!(rep.records, 1);
    assert_eq!(rep.corrupt_count, 0);
    assert_eq!(rep.trimmed_bytes, 0);
    assert!(rep.output.is_none());
}

#[test]
fn repair_drops_corrupt_span() {
    // A record with an impossible king square fails after its four header
    // bytes; the two whole records around it survive byte-exactly.
    let e = SimpleCodec;
    let g1 = game_bytes(0, 4, 76, &[(5, 100)]);
    let bad = vec![0, 0, 200, 7];
    let g2 = game_bytes(1, 8, 72, &[(6, -50), (7, 25)]);
    let mut data = g1.clone();
    data.extend_from_slice(&bad);
    data.extend_from_slice(&g2);
    let (_, rep) = repair(&e, &data);
    assert_eq!(rep.records, 2);
    assert_eq!(rep.corrupt_count, 1);
    assert_eq!(rep.trimmed_bytes, 4);
    let out = rep.output.expect("a corrupt file must be rebuilt");
    let mut expected = g1.clone();
    expected.extend_from_slice(&g2);
    assert_eq!(out, expected);
}

#[test]
fn repair_twice_trims_nothing() {
    let e = SimpleCodec;
    let g1 = game_bytes(0, 4, 76, &[(5, 100)]);
    let mut data = g1.clone();
    data.extend_from_slice(&[0xFF, 1, 2]);
    let (_, rep1) = repair(&e, &data);
    let cleaned = rep1.output.expect("first repair rewrites");
    let (_, rep2) = repair(&e, &cleaned);
    assert_eq!(rep2.corrupt_count, 0);
    assert_eq!(rep2.trimmed_bytes, 0);
    assert!(rep2.output.is_none());
}

#[test]
fn rescan_of_repaired_file_yields_same_records() {
    let e = SimpleCodec;
    let g1 = game_bytes(0, 4, 76, &[(5, 100), (6, 200)]);
    let bad = vec![1, 1, 90, 0];  // king square 90 is off the board
    let g2 = game_bytes(2, 40, 40, &[(7, -1)]);
    let mut data = g1.clone();
    data.extend_from_slice(&bad);
    data.extend_from_slice(&g2);
    let before = record_summary(&data);
    let (_, rep) = repair(&e, &data);
    let cleaned = rep.output.unwrap();
    let after = record_summary(&cleaned);
    assert_eq!(before, after);
}

#[test]
fn shuffle_refused_on_corrupt_file() {
    let e = SimpleCodec;
    let mut data = game_bytes(0, 1, 2, &[]);
    data.extend_from_slice(&[0xFF]);
    let (led, rep) = shuffle_records(&e, &data, 42);
    assert_eq!(led.corrupt_count, 1);
    assert_eq!(rep.corrupt_count, 1);
    assert_eq!(rep.records, 1);
    assert!(rep.output.is_none());
}

#[test]
fn shuffle_preserves_records_and_length() {
    let e = SimpleCodec;
    let mut data = Vec::new();
    let g1 = game_bytes(0, 1, 2, &[(3, 4)]);
    let g2 = game_bytes(1, 5, 6, &[(7, 8), (9, 10)]);
    let g3 = game_bytes(2, 11, 12, &[]);
    data.extend_from_slice(&g1);
    data.extend_from_slice(&g2);
    data.extend_from_slice(&g3);
    let (_, rep) = shuffle_records(&e, &data, 42);
    assert_eq!(rep.corrupt_count, 0);
    assert_eq!(rep.records, 3);
    let out = rep.output.expect("a clean file is shuffled");
    assert_eq!(out.len(), data.len());
    let mut before = record_summary(&data);
    let mut after = record_summary(&out);
    before.sort();
    after.sort();
    assert_eq!(before, after);
}

#[test]
fn shuffle_is_reproducible_for_one_seed() {
    let e = SimpleCodec;
    let mut data = Vec::new();
    for t in 0..3u8 {
        data.extend_from_slice(&game_bytes(t, t, 80 - t, &[(t as u16, t as i16)]));
    }
    let (_, rep1) = shuffle_records(&e, &data, 7);
    let (_, rep2) = shuffle_records(&e, &data, 7);
    assert_eq!(rep1.output.unwrap(), rep2.output.unwrap());
}

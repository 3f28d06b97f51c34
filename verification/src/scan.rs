//! The record scanner: walks a byte buffer with the decode capability and
//! classifies it into contiguous, non-overlapping spans.

use vstd::prelude::*;
use vstd::seq_lib::group_to_multiset_ensures;

use crate::engine::{Engine, GameModel, Probe, ProbeModel, GameRecord};

verus! {

/// Classification of one byte span.
pub enum SpanStatus<P> {
    Valid(GameRecord<P>),
    Corrupt,
}

/// One contiguous byte range of a file, byte-exact, with its classification.
pub struct RecordSpan<P> {
    pub offset: usize,
    pub length: usize,
    pub status: SpanStatus<P>,
}

/// The ordered spans of one file together with its corruption counter.
pub struct FileLedger<P> {
    pub spans: Vec<RecordSpan<P>>,
    pub corrupt_count: usize,
}

/// The spans tile `s` from its start to its end, and each one is justified
/// by the decoder: a valid span is exactly what one successful decode attempt
/// consumed, a corrupt span is what a failed attempt read — or, when a failed
/// attempt reads nothing, the whole remainder as one final span.
pub open spec fn spans_cover<E: Engine>(e: E, spans: Seq<RecordSpan<E::Position>>, s: Seq<u8>) -> bool
    decreases spans.len(),
{
    if spans.len() == 0 {
        s.len() == 0
    } else {
        let sp = spans[0];
        &&& sp.length <= s.len()
        &&& match sp.status {
            SpanStatus::Valid(r) => {
                &&& e.probe_spec(s) == (ProbeModel::Decoded { used: sp.length as int, record: r@ })
                &&& spans_cover(e, spans.skip(1), s.skip(sp.length as int))
            },
            SpanStatus::Corrupt => {
                &&& sp.length >= 1
                &&& match e.probe_spec(s) {
                    ProbeModel::Failed { used } => {
                        ||| (used == sp.length && spans_cover(e, spans.skip(1), s.skip(sp.length as int)))
                        ||| (used == 0 && sp.length == s.len() && spans.len() == 1)
                    },
                    ProbeModel::Decoded { .. } => false,
                }
            },
        }
    }
}

/// Each span starts where the previous one ended, the first at `base`.
pub open spec fn offsets_from<P>(spans: Seq<RecordSpan<P>>, base: int) -> bool
    decreases spans.len(),
{
    if spans.len() == 0 {
        true
    } else {
        spans[0].offset == base && offsets_from(spans.skip(1), base + spans[0].length)
    }
}

/// How many of the spans are corrupt.
pub open spec fn corrupt_count_of<P>(spans: Seq<RecordSpan<P>>) -> int
    decreases spans.len(),
{
    if spans.len() == 0 {
        0
    } else {
        (if spans[0].status is Corrupt { 1int } else { 0int }) + corrupt_count_of(spans.skip(1))
    }
}

/// The decoded records of the valid spans, in file order.
pub open spec fn valid_records<P>(spans: Seq<RecordSpan<P>>) -> Seq<GameModel<P>>
    decreases spans.len(),
{
    if spans.len() == 0 {
        Seq::empty()
    } else {
        match spans[0].status {
            SpanStatus::Valid(r) => seq![r@] + valid_records(spans.skip(1)),
            SpanStatus::Corrupt => valid_records(spans.skip(1)),
        }
    }
}

/// The raw bytes of the valid spans, one block per span, in file order.
/// `s` is read relative to the first span.
pub open spec fn valid_blocks<P>(spans: Seq<RecordSpan<P>>, s: Seq<u8>) -> Seq<Seq<u8>>
    decreases spans.len(),
{
    if spans.len() == 0 {
        Seq::empty()
    } else {
        let rest = valid_blocks(spans.skip(1), s.skip(spans[0].length as int));
        match spans[0].status {
            SpanStatus::Valid(_) => seq![s.take(spans[0].length as int)] + rest,
            SpanStatus::Corrupt => rest,
        }
    }
}

/// The concatenation of the valid spans' raw bytes, in file order.
pub open spec fn valid_bytes<P>(spans: Seq<RecordSpan<P>>, s: Seq<u8>) -> Seq<u8>
    decreases spans.len(),
{
    if spans.len() == 0 {
        Seq::empty()
    } else {
        let rest = valid_bytes(spans.skip(1), s.skip(spans[0].length as int));
        match spans[0].status {
            SpanStatus::Valid(_) => s.take(spans[0].length as int) + rest,
            SpanStatus::Corrupt => rest,
        }
    }
}

/// A well-formed ledger for the buffer `s`.
pub open spec fn ledger_wf<E: Engine>(e: E, led: FileLedger<E::Position>, s: Seq<u8>) -> bool {
    &&& spans_cover(e, led.spans@, s)
    &&& offsets_from(led.spans@, 0)
    &&& led.corrupt_count == corrupt_count_of(led.spans@)
}

/// Scan `data` from `offset` to its end.
///
/// Every decode attempt either consumes at least one byte or ends the scan
/// with the whole remainder as one corrupt span, so the scan always
/// terminates — the forward-progress guarantee, enforced here defensively
/// whatever the decoder reports.
fn scan_from<E: Engine>(e: &E, data: &Vec<u8>, offset: usize) -> (r: (Vec<RecordSpan<E::Position>>, usize))
    requires
        offset <= data@.len(),
    ensures
        spans_cover(*e, r.0@, data@.skip(offset as int)),
        offsets_from(r.0@, offset as int),
        r.1 == corrupt_count_of(r.0@),
        r.1 <= r.0@.len(),
        r.0@.len() <= data@.len() - offset,
    decreases data@.len() - offset,
{
    let ghost s = data@.skip(offset as int);
    if offset == data.len() {
        let spans: Vec<RecordSpan<E::Position>> = Vec::new();
        (spans, 0)
    } else {
        let p = e.probe(data, offset);
        proof {
            e.probe_laws(s);
        }
        match p {
            Probe::Decoded { used, record } => {
                let span = RecordSpan { offset, length: used, status: SpanStatus::Valid(record) };
                let (mut spans, cc) = scan_from(e, data, offset + used);
                proof {
                    assert(s.skip(used as int) =~= data@.skip(offset + used));
                }
                let ghost tail = spans@;
                spans.insert(0, span);
                proof {
                    assert(spans@.skip(1) =~= tail);
                    assert(spans@[0] == span);
                    assert(spans@.len() == tail.len() + 1);
                }
                (spans, cc)
            },
            Probe::Failed { used } => {
                if used == 0 {
                    // A failed attempt that read nothing: count the whole
                    // remainder as one corrupt span to guarantee progress.
                    let len = data.len() - offset;
                    let span = RecordSpan { offset, length: len, status: SpanStatus::Corrupt };
                    let mut spans: Vec<RecordSpan<E::Position>> = Vec::new();
                    spans.push(span);
                    proof {
                        assert(spans@.skip(1) =~= Seq::<RecordSpan<E::Position>>::empty());
                        assert(corrupt_count_of(Seq::<RecordSpan<E::Position>>::empty()) == 0);
                        assert(offsets_from(Seq::<RecordSpan<E::Position>>::empty(), offset + len as int));
                        assert(spans_cover(*e, Seq::<RecordSpan<E::Position>>::empty(), s.skip(len as int)));
                    }
                    (spans, 1)
                } else {
                    let span = RecordSpan { offset, length: used, status: SpanStatus::Corrupt };
                    let (mut spans, cc) = scan_from(e, data, offset + used);
                    proof {
                        assert(s.skip(used as int) =~= data@.skip(offset + used));
                    }
                    let ghost tail = spans@;
                    spans.insert(0, span);
                    proof {
                        assert(spans@.skip(1) =~= tail);
                        assert(spans@[0] == span);
                        assert(spans@.len() == tail.len() + 1);
                    }
                    (spans, cc + 1)
                }
            },
        }
    }
}

/// Scan a whole buffer into its ledger.
pub fn scan<E: Engine>(e: &E, data: &Vec<u8>) -> (led: FileLedger<E::Position>)
    ensures
        ledger_wf(*e, led, data@),
{
    let (spans, corrupt_count) = scan_from(e, data, 0);
    proof {
        assert(data@.skip(0) =~= data@);
    }
    FileLedger { spans, corrupt_count }
}

/// The valid blocks concatenate to the valid bytes.
pub proof fn lemma_flatten_valid_blocks<P>(spans: Seq<RecordSpan<P>>, s: Seq<u8>)
    ensures
        valid_blocks(spans, s).flatten() == valid_bytes(spans, s),
    decreases spans.len(),
{
    if spans.len() == 0 {
        assert(valid_blocks(spans, s).flatten() =~= valid_bytes(spans, s));
    } else {
        let sp = spans[0];
        let rest_b = valid_blocks(spans.skip(1), s.skip(sp.length as int));
        lemma_flatten_valid_blocks(spans.skip(1), s.skip(sp.length as int));
        match sp.status {
            SpanStatus::Valid(_) => {
                let b = s.take(sp.length as int);
                let bs = seq![b] + rest_b;
                assert(bs.first() == b);
                assert(bs.drop_first() =~= rest_b);
                assert(bs.flatten() == b + rest_b.flatten());
                assert(valid_blocks(spans, s) == bs);
            },
            SpanStatus::Corrupt => {},
        }
    }
}

/// Removing one block shortens the concatenation by that block's length.
pub proof fn lemma_flatten_len_remove(b: Seq<Seq<u8>>, k: int)
    requires
        0 <= k < b.len(),
    ensures
        b.flatten().len() == b.remove(k).flatten().len() + b[k].len(),
    decreases b.len(),
{
    if k == 0 {
        assert(b.remove(0) =~= b.drop_first());
        assert(b.flatten() == b.first() + b.drop_first().flatten());
    } else {
        assert(b.flatten() == b.first() + b.drop_first().flatten());
        lemma_flatten_len_remove(b.drop_first(), k - 1);
        assert(b.remove(k).drop_first() =~= b.drop_first().remove(k - 1));
        assert(b.remove(k).flatten() == b.remove(k).first() + b.remove(k).drop_first().flatten());
        assert(b.remove(k).first() == b.first());
    }
}

/// Rearranging blocks keeps the total length of their concatenation.
pub proof fn lemma_flatten_len_permutation(a: Seq<Seq<u8>>, b: Seq<Seq<u8>>)
    requires
        a.to_multiset() == b.to_multiset(),
    ensures
        a.flatten().len() == b.flatten().len(),
    decreases a.len(),
{
    broadcast use group_to_multiset_ensures;

    if a.len() == 0 {
        assert(a.to_multiset().len() == a.len());
        assert(b.to_multiset().len() == b.len());
        assert(a.flatten() =~= b.flatten());
    } else {
        let x = a[0];
        assert(a.contains(x));
        assert(b.to_multiset().contains(x));
        assert(b.contains(x));
        let k = choose|k: int| 0 <= k < b.len() && b[k] == x;
        assert(a.remove(0).to_multiset() == a.to_multiset().remove(x));
        assert(b.remove(k).to_multiset() == b.to_multiset().remove(x));
        lemma_flatten_len_permutation(a.remove(0), b.remove(k));
        lemma_flatten_len_remove(a, 0);
        lemma_flatten_len_remove(b, k);
    }
}

} // verus!

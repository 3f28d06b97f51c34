//! The engine's global guarantees: scanning the repaired stream finds no
//! corruption and the same records; repair is idempotent; shuffling keeps
//! the multiset of records and the file length.

use vstd::prelude::*;
use vstd::seq_lib::group_to_multiset_ensures;

use crate::engine::{Engine, GameModel, ProbeModel};
use crate::rewrite::{lemma_clean_covers_all, lemma_cover_tail};
use crate::scan::{
    corrupt_count_of, lemma_flatten_len_permutation, lemma_flatten_valid_blocks, spans_cover,
    valid_blocks, valid_bytes, valid_records, RecordSpan, SpanStatus,
};

verus! {

/// The block `b` decodes — whatever follows it — to exactly the record `r`,
/// consuming exactly its own bytes.
pub open spec fn block_decodes_to<E: Engine>(e: E, b: Seq<u8>, r: GameModel<E::Position>) -> bool {
    forall|t: Seq<u8>|
        e.probe_spec(#[trigger] (b + t)) == (ProbeModel::Decoded {
            used: b.len() as int,
            record: r,
        })
}

/// A block decodes to at most one record.
proof fn lemma_block_record_unique<E: Engine>(
    e: E,
    b: Seq<u8>,
    r1: GameModel<E::Position>,
    r2: GameModel<E::Position>,
)
    requires
        block_decodes_to(e, b, r1),
        block_decodes_to(e, b, r2),
    ensures
        r1 == r2,
{
    let t = Seq::<u8>::empty();
    assert(e.probe_spec(b + t) == (ProbeModel::Decoded { used: b.len() as int, record: r1 }));
    assert(e.probe_spec(b + t) == (ProbeModel::Decoded { used: b.len() as int, record: r2 }));
}

/// The record a decodable block carries.
pub open spec fn record_of<E: Engine>(e: E, b: Seq<u8>) -> GameModel<E::Position> {
    choose|r: GameModel<E::Position>| block_decodes_to(e, b, r)
}

/// In any covering, the i-th valid block decodes to the i-th valid record.
pub proof fn lemma_blocks_decode<E: Engine>(e: E, spans: Seq<RecordSpan<E::Position>>, s: Seq<u8>)
    requires
        spans_cover(e, spans, s),
    ensures
        valid_blocks(spans, s).len() == valid_records(spans).len(),
        forall|i: int| 0 <= i < valid_blocks(spans, s).len() ==> {
            &&& (#[trigger] valid_blocks(spans, s)[i]).len() >= 1
            &&& block_decodes_to(e, valid_blocks(spans, s)[i], valid_records(spans)[i])
        },
    decreases spans.len(),
{
    if spans.len() == 0 {
    } else {
        let sp = spans[0];
        lemma_cover_tail(e, spans, s);
        lemma_blocks_decode(e, spans.skip(1), s.skip(sp.length as int));
        let bs = valid_blocks(spans, s);
        let rs = valid_records(spans);
        let bst = valid_blocks(spans.skip(1), s.skip(sp.length as int));
        let rst = valid_records(spans.skip(1));
        match sp.status {
            SpanStatus::Valid(r) => {
                let b = s.take(sp.length as int);
                e.probe_laws(s);
                assert(e.probe_spec(s) == (ProbeModel::Decoded {
                    used: sp.length as int,
                    record: r@,
                }));
                assert forall|t: Seq<u8>|
                    e.probe_spec(#[trigger] (b + t)) == (ProbeModel::Decoded {
                        used: b.len() as int,
                        record: r@,
                    }) by {
                    assert(e.probe_spec(s.take(sp.length as int) + t) == e.probe_spec(s));
                }
                assert(bs =~= seq![b] + bst);
                assert(rs =~= seq![r@] + rst);
                assert forall|i: int| 0 <= i < bs.len() implies {
                    &&& (#[trigger] bs[i]).len() >= 1
                    &&& block_decodes_to(e, bs[i], rs[i])
                } by {
                    if i == 0 {
                        assert(bs[0] == b);
                        assert(rs[0] == r@);
                    } else {
                        assert(bs[i] == bst[i - 1]);
                        assert(rs[i] == rst[i - 1]);
                    }
                }
            },
            SpanStatus::Corrupt => {
                assert(bs =~= bst);
                assert(rs =~= rst);
            },
        }
    }
}

/// Scanning the concatenation of decodable blocks finds exactly those
/// blocks: one valid span each, no corruption, and the same records.
pub proof fn lemma_scan_of_blocks<E: Engine>(
    e: E,
    bs: Seq<Seq<u8>>,
    rs: Seq<GameModel<E::Position>>,
    spans2: Seq<RecordSpan<E::Position>>,
)
    requires
        bs.len() == rs.len(),
        forall|i: int| 0 <= i < bs.len() ==> {
            &&& (#[trigger] bs[i]).len() >= 1
            &&& block_decodes_to(e, bs[i], rs[i])
        },
        spans_cover(e, spans2, bs.flatten()),
    ensures
        spans2.len() == bs.len(),
        corrupt_count_of(spans2) == 0,
        valid_records(spans2) == rs,
        valid_bytes(spans2, bs.flatten()) == bs.flatten(),
    decreases bs.len(),
{
    let s = bs.flatten();
    if bs.len() == 0 {
        assert(s =~= Seq::<u8>::empty());
        if spans2.len() > 0 {
            e.probe_laws(s);
            assert(false);
        }
        assert(valid_records(spans2) =~= rs);
        assert(valid_bytes(spans2, s) =~= s);
    } else {
        let b0 = bs[0];
        let rest = bs.skip(1);
        assert(bs.first() == b0);
        assert(bs.drop_first() =~= rest);
        assert(s == b0 + rest.flatten());
        assert(e.probe_spec(s) == (ProbeModel::Decoded { used: b0.len() as int, record: rs[0] }))
            by {
            assert(e.probe_spec(b0 + rest.flatten()) == (ProbeModel::Decoded {
                used: b0.len() as int,
                record: rs[0],
            }));
        }
        assert(s.len() >= b0.len() >= 1);
        assert(spans2.len() > 0);
        let sp = spans2[0];
        match sp.status {
            SpanStatus::Valid(r) => {
                assert(sp.length == b0.len() && r@ == rs[0]);
                lemma_cover_tail(e, spans2, s);
                assert(s.skip(sp.length as int) =~= rest.flatten());
                assert forall|i: int| 0 <= i < rest.len() implies {
                    &&& (#[trigger] rest[i]).len() >= 1
                    &&& block_decodes_to(e, rest[i], rs.skip(1)[i])
                } by {
                    assert(rest[i] == bs[i + 1]);
                    assert(rs.skip(1)[i] == rs[i + 1]);
                }
                lemma_scan_of_blocks(e, rest, rs.skip(1), spans2.skip(1));
                assert(valid_records(spans2) =~= rs) by {
                    assert(valid_records(spans2) == seq![r@] + valid_records(spans2.skip(1)));
                }
                assert(valid_bytes(spans2, s) =~= s) by {
                    assert(s.take(sp.length as int) =~= b0);
                    assert(valid_bytes(spans2, s) == s.take(sp.length as int) + valid_bytes(
                        spans2.skip(1),
                        s.skip(sp.length as int),
                    ));
                }
            },
            SpanStatus::Corrupt => {
                assert(false);
            },
        }
    }
}

/// Round trip: rescanning the concatenation of all valid spans of any scan
/// yields zero corrupt spans and the same decoded record sequence.
pub proof fn lemma_round_trip<E: Engine>(
    e: E,
    spans1: Seq<RecordSpan<E::Position>>,
    s: Seq<u8>,
    spans2: Seq<RecordSpan<E::Position>>,
)
    requires
        spans_cover(e, spans1, s),
        spans_cover(e, spans2, valid_bytes(spans1, s)),
    ensures
        corrupt_count_of(spans2) == 0,
        valid_records(spans2) == valid_records(spans1),
        valid_bytes(spans2, valid_bytes(spans1, s)) == valid_bytes(spans1, s),
{
    lemma_blocks_decode(e, spans1, s);
    lemma_flatten_valid_blocks(spans1, s);
    lemma_scan_of_blocks(e, valid_blocks(spans1, s), valid_records(spans1), spans2);
}

/// Idempotence: repairing an already-repaired stream trims nothing — its
/// rescan is corruption-free and keeps every byte.
pub proof fn lemma_repair_idempotent<E: Engine>(
    e: E,
    spans1: Seq<RecordSpan<E::Position>>,
    s: Seq<u8>,
    spans2: Seq<RecordSpan<E::Position>>,
)
    requires
        spans_cover(e, spans1, s),
        spans_cover(e, spans2, valid_bytes(spans1, s)),
    ensures
        corrupt_count_of(spans2) == 0,
        valid_bytes(spans2, valid_bytes(spans1, s)) == valid_bytes(spans1, s),
{
    lemma_round_trip(e, spans1, s, spans2);
}

/// Mapping two sequences with equal multisets gives equal multisets.
proof fn lemma_map_values_multiset<A, B>(a: Seq<A>, b: Seq<A>, f: spec_fn(A) -> B)
    requires
        a.to_multiset() == b.to_multiset(),
    ensures
        a.map_values(f).to_multiset() == b.map_values(f).to_multiset(),
    decreases a.len(),
{
    broadcast use group_to_multiset_ensures;

    if a.len() == 0 {
        assert(a.to_multiset().len() == a.len());
        assert(b.to_multiset().len() == b.len());
        assert(a.map_values(f) =~= b.map_values(f));
    } else {
        let x = a[0];
        assert(a.contains(x));
        assert(b.to_multiset().contains(x));
        assert(b.contains(x));
        let k = choose|k: int| 0 <= k < b.len() && b[k] == x;
        assert(a.remove(0).to_multiset() == a.to_multiset().remove(x));
        assert(b.remove(k).to_multiset() == b.to_multiset().remove(x));
        lemma_map_values_multiset(a.remove(0), b.remove(k), f);
        let ma = a.map_values(f);
        let mb = b.map_values(f);
        assert(ma.remove(0) =~= a.remove(0).map_values(f));
        assert(mb.remove(k) =~= b.remove(k).map_values(f));
        assert(ma[0] == f(x));
        assert(mb[k] == f(x));
        assert(ma.remove(0).to_multiset() == ma.to_multiset().remove(f(x)));
        assert(mb.remove(k).to_multiset() == mb.to_multiset().remove(f(x)));
        assert(ma.to_multiset().contains(f(x)));
        assert(mb.to_multiset().contains(f(x)));
        assert(ma.to_multiset() =~= mb.to_multiset()) by {
            assert(ma.to_multiset().remove(f(x)) =~= mb.to_multiset().remove(f(x)));
            assert(forall|y: B|
                #[trigger] ma.to_multiset().count(y) == mb.to_multiset().count(y)) by {
                assert forall|y: B|
                    #[trigger] ma.to_multiset().count(y) == mb.to_multiset().count(y) by {
                    if y == f(x) {
                        assert(ma.to_multiset().count(y) == ma.to_multiset().remove(f(x)).count(y)
                            + 1);
                        assert(mb.to_multiset().count(y) == mb.to_multiset().remove(f(x)).count(y)
                            + 1);
                    } else {
                        assert(ma.to_multiset().count(y) == ma.to_multiset().remove(f(x)).count(
                            y,
                        ));
                        assert(mb.to_multiset().count(y) == mb.to_multiset().remove(f(x)).count(
                            y,
                        ));
                    }
                }
            }
        }
    }
}

/// Permutation preserves content: scanning the concatenation of any
/// rearrangement of a corruption-free file's record blocks yields the same
/// multiset of decoded records, and the same total length.
pub proof fn lemma_shuffle_preserves<E: Engine>(
    e: E,
    spans1: Seq<RecordSpan<E::Position>>,
    s: Seq<u8>,
    bs2: Seq<Seq<u8>>,
    spans2: Seq<RecordSpan<E::Position>>,
)
    requires
        spans_cover(e, spans1, s),
        corrupt_count_of(spans1) == 0,
        bs2.to_multiset() == valid_blocks(spans1, s).to_multiset(),
        spans_cover(e, spans2, bs2.flatten()),
    ensures
        corrupt_count_of(spans2) == 0,
        valid_records(spans2).to_multiset() == valid_records(spans1).to_multiset(),
        bs2.flatten().len() == s.len(),
{
    broadcast use group_to_multiset_ensures;

    let bs1 = valid_blocks(spans1, s);
    let rs1 = valid_records(spans1);
    let f = |b: Seq<u8>| record_of(e, b);
    lemma_blocks_decode(e, spans1, s);
    assert(rs1 =~= bs1.map_values(f)) by {
        assert forall|i: int| 0 <= i < rs1.len() implies rs1[i] == bs1.map_values(f)[i] by {
            assert(block_decodes_to(e, bs1[i], rs1[i]));
            assert(block_decodes_to(e, bs1[i], record_of(e, bs1[i])));
            lemma_block_record_unique(e, bs1[i], rs1[i], record_of(e, bs1[i]));
        }
    }
    assert forall|i: int| 0 <= i < bs2.len() implies {
        &&& (#[trigger] bs2[i]).len() >= 1
        &&& block_decodes_to(e, bs2[i], bs2.map_values(f)[i])
    } by {
        assert(bs2.contains(bs2[i]));
        assert(bs1.to_multiset().contains(bs2[i]));
        assert(bs1.contains(bs2[i]));
        let j = choose|j: int| 0 <= j < bs1.len() && bs1[j] == bs2[i];
        assert(block_decodes_to(e, bs1[j], rs1[j]));
        assert(block_decodes_to(e, bs2[i], record_of(e, bs2[i])));
        assert(bs2.map_values(f)[i] == record_of(e, bs2[i]));
    }
    lemma_scan_of_blocks(e, bs2, bs2.map_values(f), spans2);
    lemma_map_values_multiset(bs2, bs1, f);
    lemma_flatten_len_permutation(bs2, bs1);
    lemma_flatten_valid_blocks(spans1, s);
    lemma_clean_covers_all(e, spans1, s);
}

} // verus!

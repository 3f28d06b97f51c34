//! Repair and permutation: rebuilding a corruption-free byte stream from a
//! scan, and reordering whole records without altering any record's bytes.
//!
//! Neither operation re-encodes a record: only raw byte ranges are moved, so
//! the rebuilt stream is byte-exact with respect to the source file.

use vstd::prelude::*;

use rand::SeedableRng;
use rand::seq::SliceRandom;

use crate::engine::Engine;
use crate::scan::{
    corrupt_count_of, ledger_wf, scan, spans_cover, valid_blocks, valid_bytes,
    valid_records, FileLedger, RecordSpan, SpanStatus,
};

verus! {

/// After the first span of a covering, the remaining spans cover the rest.
pub proof fn lemma_cover_tail<E: Engine>(e: E, spans: Seq<RecordSpan<E::Position>>, s: Seq<u8>)
    requires
        spans_cover(e, spans, s),
        spans.len() > 0,
    ensures
        spans[0].length <= s.len(),
        spans_cover(e, spans.skip(1), s.skip(spans[0].length as int)),
{
    let sp = spans[0];
    if !spans_cover(e, spans.skip(1), s.skip(sp.length as int)) {
        // Only the hardened final corrupt span lacks the recursive clause,
        // and there the remainder is empty, which is trivially covered.
        assert(sp.length == s.len());
        assert(spans.skip(1).len() == 0);
        assert(s.skip(sp.length as int).len() == 0);
    }
}

/// Every span of a covering is at least one byte long, so there are no more
/// spans than bytes; and the corrupt counter counts a subset of the spans.
pub proof fn lemma_valid_records_len<P>(spans: Seq<RecordSpan<P>>)
    ensures
        valid_records(spans).len() == spans.len() - corrupt_count_of(spans),
        0 <= corrupt_count_of(spans) <= spans.len(),
    decreases spans.len(),
{
    if spans.len() == 0 {
    } else {
        lemma_valid_records_len(spans.skip(1));
    }
}

/// The valid bytes never outnumber the scanned bytes.
pub proof fn lemma_valid_bytes_le<E: Engine>(e: E, spans: Seq<RecordSpan<E::Position>>, s: Seq<u8>)
    requires
        spans_cover(e, spans, s),
    ensures
        valid_bytes(spans, s).len() <= s.len(),
    decreases spans.len(),
{
    if spans.len() == 0 {
    } else {
        lemma_cover_tail(e, spans, s);
        lemma_valid_bytes_le(e, spans.skip(1), s.skip(spans[0].length as int));
    }
}

/// A file with no corrupt span is exactly the concatenation of its records.
pub proof fn lemma_clean_covers_all<E: Engine>(e: E, spans: Seq<RecordSpan<E::Position>>, s: Seq<u8>)
    requires
        spans_cover(e, spans, s),
        corrupt_count_of(spans) == 0,
    ensures
        valid_bytes(spans, s) == s,
    decreases spans.len(),
{
    lemma_valid_records_len(spans);
    if spans.len() == 0 {
        assert(valid_bytes(spans, s) =~= s);
    } else {
        let sp = spans[0];
        lemma_cover_tail(e, spans, s);
        lemma_valid_records_len(spans.skip(1));
        lemma_clean_covers_all(e, spans.skip(1), s.skip(sp.length as int));
        assert(valid_bytes(spans, s) =~= s);
    }
}

/// Copy `data[start..end]` into a fresh vector.
fn copy_range(data: &Vec<u8>, start: usize, end: usize) -> (out: Vec<u8>)
    requires
        start <= end <= data@.len(),
    ensures
        out@ == data@.subrange(start as int, end as int),
{
    let mut out: Vec<u8> = Vec::new();
    let mut i: usize = start;
    while i < end
        invariant
            start <= i <= end <= data@.len(),
            out@ == data@.subrange(start as int, i as int),
        decreases end - i,
    {
        out.push(data[i]);
        i = i + 1;
        proof {
            assert(data@.subrange(start as int, i as int) =~= data@.subrange(
                start as int,
                i - 1,
            ).push(data@[i - 1]));
        }
    }
    out
}

/// The concatenation of all valid spans' raw bytes, in file order.
pub fn clean_bytes<E: Engine>(e: &E, data: &Vec<u8>, led: &FileLedger<E::Position>) -> (out: Vec<u8>)
    requires
        ledger_wf(*e, *led, data@),
    ensures
        out@ == valid_bytes(led.spans@, data@),
{
    let mut out: Vec<u8> = Vec::new();
    let mut i: usize = 0;
    let mut off: usize = 0;
    let n = led.spans.len();
    proof {
        assert(led.spans@.skip(0) =~= led.spans@);
        assert(data@.skip(0) =~= data@);
        assert(Seq::<u8>::empty() + valid_bytes(led.spans@, data@) =~= valid_bytes(
            led.spans@,
            data@,
        ));
    }
    while i < n
        invariant
            0 <= i <= n,
            n == led.spans@.len(),
            off <= data@.len(),
            data@.len() == data.len(),
            spans_cover(*e, led.spans@.skip(i as int), data@.skip(off as int)),
            valid_bytes(led.spans@, data@) == out@ + valid_bytes(
                led.spans@.skip(i as int),
                data@.skip(off as int),
            ),
        decreases n - i,
    {
        let ghost spansfx = led.spans@.skip(i as int);
        let ghost sfx = data@.skip(off as int);
        let sp = &led.spans[i];
        proof {
            assert(spansfx[0] == led.spans@[i as int]);
            lemma_cover_tail(*e, spansfx, sfx);
            assert(spansfx.skip(1) =~= led.spans@.skip(i + 1));
            assert(sfx.skip(sp.length as int) =~= data@.skip(off + sp.length));
        }
        let ghost out0 = out@;
        match &sp.status {
            SpanStatus::Valid(_) => {
                let mut block = copy_range(data, off, off + sp.length);
                out.append(&mut block);
                proof {
                    assert(sfx.take(sp.length as int) =~= data@.subrange(
                        off as int,
                        off + sp.length,
                    ));
                    assert(out@ + valid_bytes(led.spans@.skip(i + 1), data@.skip(off + sp.length))
                        =~= out0 + valid_bytes(spansfx, sfx));
                }
            },
            SpanStatus::Corrupt => {},
        }
        off = off + sp.length;
        i = i + 1;
    }
    proof {
        assert(valid_bytes(led.spans@.skip(n as int), data@.skip(off as int)) =~= Seq::<u8>::empty());
        assert(out@ + Seq::<u8>::empty() =~= out@);
    }
    out
}

/// The raw bytes of each valid span, one opaque block per record.
pub fn collect_blocks<E: Engine>(e: &E, data: &Vec<u8>, led: &FileLedger<E::Position>) -> (blocks: Vec<Vec<u8>>)
    requires
        ledger_wf(*e, *led, data@),
    ensures
        blocks.deep_view() == valid_blocks(led.spans@, data@),
{
    let mut blocks: Vec<Vec<u8>> = Vec::new();
    let mut i: usize = 0;
    let mut off: usize = 0;
    let n = led.spans.len();
    proof {
        assert(led.spans@.skip(0) =~= led.spans@);
        assert(data@.skip(0) =~= data@);
        assert(blocks.deep_view() =~= Seq::<Seq<u8>>::empty());
        assert(Seq::<Seq<u8>>::empty() + valid_blocks(led.spans@, data@) =~= valid_blocks(
            led.spans@,
            data@,
        ));
    }
    while i < n
        invariant
            0 <= i <= n,
            n == led.spans@.len(),
            off <= data@.len(),
            data@.len() == data.len(),
            spans_cover(*e, led.spans@.skip(i as int), data@.skip(off as int)),
            valid_blocks(led.spans@, data@) == blocks.deep_view() + valid_blocks(
                led.spans@.skip(i as int),
                data@.skip(off as int),
            ),
        decreases n - i,
    {
        let ghost spansfx = led.spans@.skip(i as int);
        let ghost sfx = data@.skip(off as int);
        let sp = &led.spans[i];
        proof {
            assert(spansfx[0] == led.spans@[i as int]);
            lemma_cover_tail(*e, spansfx, sfx);
            assert(spansfx.skip(1) =~= led.spans@.skip(i + 1));
            assert(sfx.skip(sp.length as int) =~= data@.skip(off + sp.length));
        }
        let ghost blocks0 = blocks.deep_view();
        match &sp.status {
            SpanStatus::Valid(_) => {
                let block = copy_range(data, off, off + sp.length);
                blocks.push(block);
                proof {
                    assert(blocks.deep_view() =~~= blocks0.push(sfx.take(sp.length as int)));
                    assert(blocks.deep_view() + valid_blocks(
                        led.spans@.skip(i + 1),
                        data@.skip(off + sp.length),
                    ) =~~= blocks0 + valid_blocks(spansfx, sfx));
                }
            },
            SpanStatus::Corrupt => {
                proof {
                    assert(blocks.deep_view() + valid_blocks(
                        led.spans@.skip(i + 1),
                        data@.skip(off + sp.length),
                    ) =~= blocks0 + valid_blocks(spansfx, sfx));
                }
            },
        }
        off = off + sp.length;
        i = i + 1;
    }
    proof {
        assert(valid_blocks(led.spans@.skip(n as int), data@.skip(off as int))
            =~= Seq::<Seq<u8>>::empty());
        assert(blocks.deep_view() + Seq::<Seq<u8>>::empty() =~= blocks.deep_view());
    }
    blocks
}

/// Concatenate blocks into one byte stream.
pub fn concat_blocks(blocks: &Vec<Vec<u8>>) -> (out: Vec<u8>)
    ensures
        out@ == blocks.deep_view().flatten(),
{
    let mut out: Vec<u8> = Vec::new();
    let mut i: usize = 0;
    let n = blocks.len();
    while i < n
        invariant
            0 <= i <= n,
            n == blocks@.len(),
            out@ == blocks.deep_view().take(i as int).flatten(),
        decreases n - i,
    {
        let mut block = copy_range(&blocks[i], 0, blocks[i].len());
        proof {
            assert(block@ =~= blocks.deep_view()[i as int]);
        }
        out.append(&mut block);
        i = i + 1;
        proof {
            let dv = blocks.deep_view();
            assert(dv.take(i as int) =~= dv.take(i - 1).push(dv[i - 1]));
            dv.take(i - 1).lemma_flatten_push(dv[i - 1]);
        }
    }
    proof {
        assert(blocks.deep_view().take(n as int) =~= blocks.deep_view());
    }
    out
}

/// What one repair pass reports: the record and corruption tallies, the bytes
/// trimmed, and — only when something had to change — the rebuilt contents.
pub struct RepairReport {
    pub records: usize,
    pub corrupt_count: usize,
    pub trimmed_bytes: usize,
    pub output: Option<Vec<u8>>,
}

/// Scan `data` and rebuild it without its corrupt spans.
///
/// A file with no corrupt span is left untouched (`output` is `None`);
/// otherwise `output` holds exactly the concatenation of all valid spans'
/// raw bytes, in their original order, and `trimmed_bytes` is how much
/// shorter than the source that is.
pub fn repair<E: Engine>(e: &E, data: &Vec<u8>) -> (r: (FileLedger<E::Position>, RepairReport))
    ensures
        ledger_wf(*e, r.0, data@),
        r.1.records == valid_records(r.0.spans@).len(),
        r.1.corrupt_count == r.0.corrupt_count,
        r.0.corrupt_count == 0 ==> r.1.output is None && r.1.trimmed_bytes == 0,
        r.0.corrupt_count > 0 ==> (r.1.output matches Some(out)
            && out@ == valid_bytes(r.0.spans@, data@)
            && r.1.trimmed_bytes == data@.len() - out@.len()),
{
    let led = scan(e, data);
    proof {
        lemma_valid_records_len(led.spans@);
    }
    let records = led.spans.len() - led.corrupt_count;
    if led.corrupt_count == 0 {
        let rep = RepairReport {
            records,
            corrupt_count: led.corrupt_count,
            trimmed_bytes: 0,
            output: None,
        };
        (led, rep)
    } else {
        proof {
            lemma_valid_bytes_le(*e, led.spans@, data@);
        }
        let out = clean_bytes(e, data, &led);
        let trimmed = data.len() - out.len();
        let rep = RepairReport {
            records,
            corrupt_count: led.corrupt_count,
            trimmed_bytes: trimmed,
            output: Some(out),
        };
        (led, rep)
    }
}

/// What one shuffle pass reports. `output` is `None` exactly when the file
/// was refused because it still holds corrupt spans.
pub struct ShuffleReport {
    pub records: usize,
    pub corrupt_count: usize,
    pub output: Option<Vec<u8>>,
}

/// Scan `data` and, if it is corruption-free, reorder its records with the
/// deterministic generator seeded by `seed`.
///
/// The output is a concatenation of some rearrangement of the valid spans'
/// raw byte blocks: no record's bytes are altered, only their order.  A file
/// with any corrupt span is refused: no output is produced for it.
pub fn shuffle_records<E: Engine>(e: &E, data: &Vec<u8>, seed: u64) -> (r: (
    FileLedger<E::Position>,
    ShuffleReport,
))
    ensures
        ledger_wf(*e, r.0, data@),
        r.1.records == valid_records(r.0.spans@).len(),
        r.1.corrupt_count == r.0.corrupt_count,
        r.0.corrupt_count > 0 ==> r.1.output is None,
        r.0.corrupt_count == 0 ==> (r.1.output matches Some(out) && out@.len() == data@.len()
            && exists|bs: Seq<Seq<u8>>|
            bs.to_multiset() == valid_blocks(r.0.spans@, data@).to_multiset()
                && out@ == bs.flatten()),
{
    let led = scan(e, data);
    proof {
        lemma_valid_records_len(led.spans@);
    }
    let records = led.spans.len() - led.corrupt_count;
    if led.corrupt_count > 0 {
        let rep = ShuffleReport { records, corrupt_count: led.corrupt_count, output: None };
        (led, rep)
    } else {
        let mut blocks = collect_blocks(e, data, &led);
        let mut rng = rng_from_seed(seed);
        shuffle_in_place(&mut blocks, &mut rng);
        let out = concat_blocks(&blocks);
        let ghost bs = blocks.deep_view();
        proof {
            crate::scan::lemma_flatten_len_permutation(bs, valid_blocks(led.spans@, data@));
            crate::scan::lemma_flatten_valid_blocks(led.spans@, data@);
            lemma_clean_covers_all(*e, led.spans@, data@);
        }
        let rep = ShuffleReport {
            records,
            corrupt_count: led.corrupt_count,
            output: Some(out),
        };
        (led, rep)
    }
}

/// Relies on rand's `SmallRng`, a deterministic pseudo-random generator,
/// declared here so a generator can pass through verified signatures.
#[verifier::external_type_specification]
#[verifier::external_body]
pub struct ExSmallRng(rand::rngs::SmallRng);

/// Relies on rand's `SeedableRng::seed_from_u64`: builds a generator whose
/// stream is a function of the seed.  Nothing is promised of that stream.
#[verifier::external_body]
fn rng_from_seed(seed: u64) -> rand::rngs::SmallRng {
    rand::rngs::SmallRng::seed_from_u64(seed)
}

/// Relies on rand's `SliceRandom::shuffle`: permutes the vector's elements
/// in place, so whatever the generator draws, the multiset of elements — and
/// hence the length — is unchanged.
#[verifier::external_body]
fn shuffle_in_place(v: &mut Vec<Vec<u8>>, rng: &mut rand::rngs::SmallRng)
    ensures
        final(v)@.len() == old(v)@.len(),
        final(v).deep_view().to_multiset() == old(v).deep_view().to_multiset(),
{
    v.shuffle(rng);
}

} // verus!

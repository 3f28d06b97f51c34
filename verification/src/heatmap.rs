//! The king-occupancy heatmap: 81 counters, one per canonical board square,
//! shared by every file of one invocation and only ever incremented.

use vstd::prelude::*;

verus! {

/// Sum of a sequence of counters.
pub open spec fn sum_bins(s: Seq<u64>) -> int
    decreases s.len(),
{
    if s.len() == 0 {
        0
    } else {
        sum_bins(s.drop_last()) + s.last()
    }
}

/// Counter sums are never negative.
pub proof fn lemma_sum_nonneg(s: Seq<u64>)
    ensures
        sum_bins(s) >= 0,
    decreases s.len(),
{
    if s.len() == 0 {
    } else {
        lemma_sum_nonneg(s.drop_last());
    }
}

/// One counter never exceeds the sum of all of them.
proof fn lemma_bin_le_sum(s: Seq<u64>, i: int)
    requires
        0 <= i < s.len(),
    ensures
        s[i] <= sum_bins(s),
    decreases s.len(),
{
    if i == s.len() - 1 {
        lemma_sum_nonneg(s.drop_last());
    } else {
        lemma_bin_le_sum(s.drop_last(), i);
        assert(s.drop_last()[i] == s[i]);
    }
}

/// Replacing one counter moves the sum by the difference.
proof fn lemma_sum_update(s: Seq<u64>, i: int, v: u64)
    requires
        0 <= i < s.len(),
    ensures
        sum_bins(s.update(i, v)) == sum_bins(s) - s[i] + v,
    decreases s.len(),
{
    let t = s.update(i, v);
    if i == s.len() - 1 {
        assert(t.drop_last() =~= s.drop_last());
        assert(t.last() == v);
    } else {
        assert(t.drop_last() =~= s.drop_last().update(i, v));
        lemma_sum_update(s.drop_last(), i, v);
        assert(t.last() == s.last());
    }
}

/// How many entries of `sqs` name the bin `b`.
pub open spec fn hits(sqs: Seq<u8>, b: int) -> int
    decreases sqs.len(),
{
    if sqs.len() == 0 {
        0
    } else {
        hits(sqs.drop_last(), b) + (if sqs.last() == b {
            1int
        } else {
            0int
        })
    }
}

/// The 81-bin occupancy map, with a running total of recorded observations.
pub struct Heatmap {
    pub bins: Vec<u64>,
    pub count: u64,
}

impl Heatmap {
    /// All 81 bins exist and the running total equals their sum.
    pub open spec fn wf(&self) -> bool {
        &&& self.bins@.len() == 81
        &&& self.count as int == sum_bins(self.bins@)
    }

    /// Total number of observations recorded so far.
    pub open spec fn total(&self) -> int {
        sum_bins(self.bins@)
    }

    /// A fresh, empty heatmap.
    pub fn new() -> (h: Heatmap)
        ensures
            h.wf(),
            h.total() == 0,
            forall|i: int| 0 <= i < 81 ==> h.bins@[i] == 0,
    {
        let mut bins: Vec<u64> = Vec::new();
        let mut i: usize = 0;
        while i < 81
            invariant
                i <= 81,
                bins@.len() == i,
                sum_bins(bins@) == 0,
                forall|j: int| 0 <= j < i ==> bins@[j] == 0,
            decreases 81 - i,
        {
            let ghost b0 = bins@;
            bins.push(0);
            i = i + 1;
            proof {
                assert(bins@.drop_last() =~= b0);
            }
        }
        Heatmap { bins, count: 0 }
    }

    /// Record one batch of canonical king squares, one bin hit each.
    ///
    /// The whole batch is recorded, except when it would overflow the running
    /// total, in which case nothing is recorded at all.
    pub fn record_squares(&mut self, sqs: &Vec<u8>) -> (recorded: usize)
        requires
            old(self).wf(),
            forall|i: int| 0 <= i < sqs@.len() ==> sqs@[i] < 81,
        ensures
            final(self).wf(),
            if old(self).count + sqs@.len() <= u64::MAX {
                &&& final(self).total() == old(self).total() + sqs@.len()
                &&& final(self).count == old(self).count + sqs@.len()
                &&& recorded == sqs@.len()
                &&& forall|b: int| 0 <= b < 81 ==> final(self).bins@[b] == old(self).bins@[b]
                    + hits(sqs@, b)
            } else {
                &&& *final(self) == *old(self)
                &&& recorded == 0
            },
    {
        let n = sqs.len();
        if n as u64 > u64::MAX - self.count {
            return 0;
        }
        let mut j: usize = 0;
        while j < n
            invariant
                j <= n,
                n == sqs@.len(),
                forall|i: int| 0 <= i < sqs@.len() ==> sqs@[i] < 81,
                self.bins@.len() == 81,
                self.count as int == sum_bins(self.bins@),
                self.count as int == old(self).count + j,
                old(self).count + n <= u64::MAX,
                forall|b: int| 0 <= b < 81 ==> self.bins@[b] == old(self).bins@[b] + hits(
                    sqs@.take(j as int),
                    b,
                ),
            decreases n - j,
        {
            let sq = sqs[j] as usize;
            let ghost b0 = self.bins@;
            proof {
                lemma_bin_le_sum(self.bins@, sq as int);
            }
            let c = self.bins[sq];
            self.bins[sq] = c + 1;
            self.count = self.count + 1;
            j = j + 1;
            proof {
                lemma_sum_update(b0, sq as int, (c + 1) as u64);
                assert(sqs@.take(j as int).drop_last() =~= sqs@.take(j - 1));
                assert(sqs@.take(j as int).last() == sqs@[j - 1]);
            }
        }
        proof {
            assert(sqs@.take(n as int) =~= sqs@);
        }
        n
    }
}

} // verus!

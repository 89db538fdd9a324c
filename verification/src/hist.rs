//! Bounded-range value histogram.
//!
//! Recorded values are clamped into `[low, high]` rather than rejected, so a
//! pathological sample can never fail to record. The histogram answers
//! percentile, mean and total queries; the total is the sum of the recorded
//! (clamped) values, which keeps it consistent with the clamped representation.

use vstd::prelude::*;

verus! {

/// Sum of a sequence of values.
pub open spec fn seq_sum(s: Seq<u64>) -> int
    decreases s.len(),
{
    if s.len() == 0 {
        0
    } else {
        s[0] + seq_sum(s.drop_first())
    }
}

/// Ascending order.
pub open spec fn sorted(s: Seq<u64>) -> bool {
    forall|i: int, j: int| 0 <= i < j < s.len() ==> s[i] <= s[j]
}

/// A value clamped into `[low, high]`.
pub open spec fn spec_clamp(v: u64, low: u64, high: u64) -> u64 {
    if v < low {
        low
    } else if v > high {
        high
    } else {
        v
    }
}

pub proof fn lemma_seq_sum_insert(s: Seq<u64>, i: int, v: u64)
    requires
        0 <= i <= s.len(),
    ensures
        seq_sum(s.insert(i, v)) == seq_sum(s) + v,
    decreases s.len(),
{
    let t = s.insert(i, v);
    if i == 0 {
        assert(t.drop_first() =~= s);
    } else {
        assert(t[0] == s[0]);
        assert(t.drop_first() =~= s.drop_first().insert(i - 1, v));
        lemma_seq_sum_insert(s.drop_first(), i - 1, v);
    }
}

pub proof fn lemma_seq_sum_bounds(s: Seq<u64>, low: u64, high: u64)
    requires
        forall|i: int| 0 <= i < s.len() ==> low <= #[trigger] s[i] <= high,
    ensures
        s.len() * low <= seq_sum(s) <= s.len() * high,
    decreases s.len(),
{
    if s.len() == 0 {
    } else {
        assert(forall|i: int|
            0 <= i < s.drop_first().len() ==> low <= #[trigger] s.drop_first()[i] <= high);
        lemma_seq_sum_bounds(s.drop_first(), low, high);
        let n = s.len() as int;
        assert(s.drop_first().len() == n - 1);
        assert(n * low == low + (n - 1) * low) by (nonlinear_arith);
        assert(n * high == high + (n - 1) * high) by (nonlinear_arith);
    }
}

/// Bounded-range histogram of recorded sample values.
pub struct ValueHistogram {
    /// Lowest recordable value; smaller samples are clamped up to it.
    pub low: u64,
    /// Highest recordable value; larger samples are clamped down to it.
    pub high: u64,
    /// The recorded values, kept in ascending order.
    pub values: Vec<u64>,
    /// Sum of the recorded values.
    pub sum: u128,
}

impl ValueHistogram {
    pub open spec fn wf(self) -> bool {
        &&& 1 <= self.low <= self.high
        &&& sorted(self.values@)
        &&& forall|i: int|
            0 <= i < self.values@.len() ==> self.low <= #[trigger] self.values@[i] <= self.high
        &&& self.sum == seq_sum(self.values@)
        &&& self.values@.len() <= usize::MAX
    }

    pub open spec fn spec_count(self) -> nat {
        self.values@.len()
    }

    /// 1-based rank of the sample that answers a percentile query:
    /// the smallest rank covering at least `p` per cent of `count` samples,
    /// never less than 1.
    pub open spec fn spec_rank(count: int, p: int) -> int {
        let r = (count * p + 99) / 100;
        if r < 1 {
            1
        } else {
            r
        }
    }

    /// The value below which `p` per cent of the recorded samples fall;
    /// the request is clamped to `[0, 100]`. Zero when nothing was recorded.
    pub open spec fn spec_percentile(self, p: u64) -> u64 {
        let pc: int = if p > 100 {
            100
        } else {
            p as int
        };
        if self.spec_count() == 0 {
            0
        } else {
            self.values@[Self::spec_rank(self.spec_count() as int, pc) - 1]
        }
    }

    /// Mean of the recorded values, rounded down. Zero when nothing was recorded.
    pub open spec fn spec_mean(self) -> u64 {
        if self.spec_count() == 0 {
            0u64
        } else {
            (seq_sum(self.values@) / self.spec_count() as int) as u64
        }
    }

    /// Sum of the recorded values, saturated to `u64`.
    pub open spec fn spec_total(self) -> u64 {
        if seq_sum(self.values@) > u64::MAX {
            u64::MAX
        } else {
            seq_sum(self.values@) as u64
        }
    }

    pub fn new(low: u64, high: u64) -> (r: ValueHistogram)
        requires
            1 <= low <= high,
        ensures
            r.wf(),
            r.low == low,
            r.high == high,
            r.spec_count() == 0,
    {
        ValueHistogram { low, high, values: Vec::new(), sum: 0 }
    }

    /// Records one sample, clamped into `[low, high]`.
    pub fn record(&mut self, v: u64)
        requires
            old(self).wf(),
            old(self).spec_count() < usize::MAX,
        ensures
            final(self).wf(),
            final(self).low == old(self).low,
            final(self).high == old(self).high,
            final(self).spec_count() == old(self).spec_count() + 1,
            final(self).sum == old(self).sum + spec_clamp(v, old(self).low, old(self).high),
            exists|i: int|
                0 <= i <= old(self).values@.len() && final(self).values@ == old(
                    self,
                ).values@.insert(i, spec_clamp(v, old(self).low, old(self).high)),
    {
        let c: u64 = if v < self.low {
            self.low
        } else if v > self.high {
            self.high
        } else {
            v
        };
        let mut i: usize = 0;
        let n = self.values.len();
        while i < n && self.values[i] <= c
            invariant
                i <= n,
                n == self.values@.len(),
                forall|j: int| 0 <= j < i ==> #[trigger] self.values@[j] <= c,
            decreases n - i,
        {
            i = i + 1;
        }
        proof {
            let ghost s = self.values@;
            assert(seq_sum(s) <= s.len() * u64::MAX && s.len() * 0 <= seq_sum(s)) by {
                lemma_seq_sum_bounds(s, 0, u64::MAX);
            }
            assert(s.len() * u64::MAX <= usize::MAX * u64::MAX) by (nonlinear_arith)
                requires
                    s.len() <= usize::MAX,
            ;
        }
        self.sum = self.sum + c as u128;
        self.values.insert(i, c);
        proof {
            let ghost s = old(self).values@;
            lemma_seq_sum_insert(s, i as int, c);
            assert(c == spec_clamp(v, old(self).low, old(self).high));
            assert(exists|j: int|
                0 <= j <= s.len() && self.values@ == s.insert(
                    j,
                    spec_clamp(v, old(self).low, old(self).high),
                )) by {
                assert(0 <= i as int <= s.len() && self.values@ == s.insert(i as int, c));
            }
            assert(forall|a: int, b: int|
                0 <= a < b < self.values@.len() ==> self.values@[a] <= self.values@[b]) by {
                assert(forall|j: int| 0 <= j < i ==> #[trigger] s[j] <= c);
                assert(forall|j: int| i <= j < s.len() ==> c <= #[trigger] s[j]);
            }
        }
    }

    pub fn count(&self) -> (r: usize)
        ensures
            r == self.spec_count(),
    {
        self.values.len()
    }

    /// Answers a percentile query; `p` is clamped to `[0, 100]`.
    pub fn value_at_percentile(&self, p: u64) -> (r: u64)
        requires
            self.wf(),
        ensures
            r == self.spec_percentile(p),
    {
        let pc: u64 = if p > 100 {
            100
        } else {
            p
        };
        let n = self.values.len();
        if n == 0 {
            return 0;
        }
        proof {
            assert(n as int * pc as int + 99 < u128::MAX) by (nonlinear_arith)
                requires
                    n <= usize::MAX,
                    pc <= 100,
            ;
        }
        let wide: u128 = (n as u128 * pc as u128 + 99) / 100;
        let rank: u128 = if wide < 1 {
            1
        } else {
            wide
        };
        proof {
            assert((n as int * pc as int + 99) / 100 <= n as int) by (nonlinear_arith)
                requires
                    pc <= 100,
                    n >= 1,
            ;
        }
        let idx: usize = (rank - 1) as usize;
        self.values[idx]
    }

    /// Mean of the recorded values, rounded down.
    pub fn mean(&self) -> (r: u64)
        requires
            self.wf(),
        ensures
            r == self.spec_mean(),
    {
        let n = self.values.len();
        if n == 0 {
            return 0;
        }
        proof {
            lemma_seq_sum_bounds(self.values@, self.low, self.high);
            assert(seq_sum(self.values@) / n as int <= self.high as int) by (nonlinear_arith)
                requires
                    n == self.values@.len(),
                    n >= 1,
                    seq_sum(self.values@) <= n as int * self.high as int,
                    seq_sum(self.values@) >= 0,
            ;
        }
        (self.sum / n as u128) as u64
    }

    /// Sum of the recorded values, saturated to `u64`.
    pub fn total(&self) -> (r: u64)
        requires
            self.wf(),
        ensures
            r == self.spec_total(),
    {
        if self.sum > u64::MAX as u128 {
            u64::MAX
        } else {
            self.sum as u64
        }
    }
}

proof fn lemma_adjacent_sorted_from(s: Seq<u64>, i: int, j: int)
    requires
        forall|k: int| 0 <= k < s.len() - 1 ==> #[trigger] s[k] <= s[k + 1],
        0 <= i <= j < s.len(),
    ensures
        s[i] <= s[j],
    decreases j - i,
{
    if i < j {
        assert(s[j - 1] <= s[j]);
        lemma_adjacent_sorted_from(s, i, j - 1);
    }
}

proof fn lemma_seq_sum_take_step(s: Seq<u64>, i: int)
    requires
        0 <= i < s.len(),
    ensures
        seq_sum(s.take(i + 1)) == seq_sum(s.take(i)) + s[i],
{
    assert(s.take(i + 1) =~= s.take(i).insert(i, s[i]));
    lemma_seq_sum_insert(s.take(i), i, s[i]);
}

impl ValueHistogram {
    /// Checks every histogram invariant of a value whose history is unknown,
    /// such as one handed across a channel.
    pub fn check_wf(&self) -> (r: bool)
        ensures
            r == self.wf(),
    {
        if !(1 <= self.low && self.low <= self.high) {
            return false;
        }
        let n = self.values.len();
        let mut i: usize = 0;
        let mut acc: u128 = 0;
        while i < n
            invariant
                i <= n,
                n == self.values@.len(),
                forall|k: int|
                    0 <= k < i ==> self.low <= #[trigger] self.values@[k] <= self.high,
                forall|k: int|
                    0 <= k < i && k + 1 < n ==> #[trigger] self.values@[k] <= self.values@[k + 1],
                acc == seq_sum(self.values@.take(i as int)),
                acc <= i as int * u64::MAX as int,
            decreases n - i,
        {
            let v = self.values[i];
            if v < self.low || v > self.high {
                return false;
            }
            if i + 1 < n && self.values[i + 1] < v {
                return false;
            }
            proof {
                lemma_seq_sum_take_step(self.values@, i as int);
                assert((i as int + 1) * u64::MAX as int == i as int * u64::MAX as int
                    + u64::MAX as int) by (nonlinear_arith);
                assert(i as int * u64::MAX as int <= usize::MAX as int * u64::MAX as int)
                    by (nonlinear_arith)
                    requires
                        0 <= i as int <= usize::MAX as int,
                ;
            }
            acc = acc + v as u128;
            i = i + 1;
        }
        proof {
            assert(self.values@.take(n as int) =~= self.values@);
            if acc == self.sum {
                assert(forall|k: int|
                    0 <= k < self.values@.len() - 1 ==> #[trigger] self.values@[k]
                        <= self.values@[k + 1]);
                assert forall|a: int, b: int|
                    0 <= a < b < self.values@.len() implies self.values@[a] <= self.values@[b] by {
                    lemma_adjacent_sorted_from(self.values@, a, b);
                }
            }
        }
        acc == self.sum
    }
}

/// Percentile monotonicity: with at least two recorded samples, a lower
/// percentile never answers with a larger value than a higher one.
pub proof fn lemma_percentile_monotonic(h: ValueHistogram, p1: u64, p2: u64)
    requires
        h.wf(),
        h.spec_count() >= 2,
        p1 < p2,
    ensures
        h.spec_percentile(p1) <= h.spec_percentile(p2),
{
    let n = h.spec_count() as int;
    let pc1: int = if p1 > 100 {
        100
    } else {
        p1 as int
    };
    let pc2: int = if p2 > 100 {
        100
    } else {
        p2 as int
    };
    assert(pc1 <= pc2);
    let r1 = ValueHistogram::spec_rank(n, pc1);
    let r2 = ValueHistogram::spec_rank(n, pc2);
    assert((n * pc1 + 99) / 100 <= (n * pc2 + 99) / 100) by (nonlinear_arith)
        requires
            0 <= pc1 <= pc2,
            n >= 0,
    ;
    assert(r1 <= r2);
    assert((n * pc1 + 99) / 100 <= n && (n * pc2 + 99) / 100 <= n) by (nonlinear_arith)
        requires
            0 <= pc1 <= 100,
            0 <= pc2 <= 100,
            n >= 1,
    ;
    if r1 < r2 {
        assert(h.values@[r1 - 1] <= h.values@[r2 - 1]);
    }
}

} // verus!

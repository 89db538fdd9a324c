//! Per-function aggregation of measurements.
//!
//! The aggregation worker owns one `StatsMap` and folds every received
//! `Measurement` into it. Aggregated data is append-only: a function's call
//! count rises by exactly one per measurement and its total never decreases.

use vstd::prelude::*;

use crate::hist::{spec_clamp, ValueHistogram};

verus! {

/// Lowest recordable sample value.
pub const HIST_LOW: u64 = 1;

/// Highest recordable duration, in nanoseconds.
pub const HIST_HIGH_NS: u64 = 1_000_000_000_000;

/// Highest recordable allocation value (bytes or allocation count).
pub const HIST_HIGH_ALLOC: u64 = 1_000_000_000;

/// One event emitted by a guard when an instrumented call finishes.
/// Consumed exactly once by the aggregation worker; never mutated.
pub enum Measurement {
    /// Elapsed wall-clock time of one call.
    Duration {
        /// Name of the instrumented call site.
        name: String,
        /// Elapsed time in nanoseconds.
        duration_ns: u64,
        /// Whether this is the top-level call bracketing the whole session.
        wrapper: bool,
    },
    /// Allocation activity of one call.
    Allocation {
        /// Name of the instrumented call site.
        name: String,
        /// Measured value: bytes or allocation count, depending on the mode.
        value: u64,
        /// The value could not be attributed and is meaningless.
        unsupported_async: bool,
        /// Whether this is the top-level call bracketing the whole session.
        wrapper: bool,
        /// The guard was dropped on a different thread than it was armed on.
        cross_thread: bool,
    },
}

impl Measurement {
    /// The instrumented call site the measurement belongs to.
    pub open spec fn spec_name(self) -> Seq<char> {
        match self {
            Measurement::Duration { name, .. } => name@,
            Measurement::Allocation { name, .. } => name@,
        }
    }
}

/// The last `limit` samples: a full ring drops its oldest sample for the new
/// one; with a limit of zero nothing is retained.
pub open spec fn spec_ring_push(samples: Seq<u64>, v: u64, limit: nat) -> Seq<u64> {
    if limit == 0 {
        samples
    } else if samples.len() >= limit {
        samples.skip(1).push(v)
    } else {
        samples.push(v)
    }
}

/// Aggregated, append-only statistics of one function name.
pub struct FunctionStats {
    /// Number of measurements received, including unsupported ones.
    pub count: u64,
    /// Histogram of the recorded sample values.
    pub hist: ValueHistogram,
    /// At least one measurement arrived.
    pub has_data: bool,
    /// The function is the session-bracketing wrapper call.
    pub wrapper: bool,
    /// At least one measurement could not be attributed.
    pub has_unsupported_async: bool,
    /// At least one guard was dropped on a different thread.
    pub cross_thread: bool,
    /// The most recent raw sample values, newest last.
    pub recent_samples: Vec<u64>,
    /// How many recent raw samples are retained.
    pub recent_limit: usize,
}

impl FunctionStats {
    pub open spec fn wf(self) -> bool {
        &&& self.hist.wf()
        &&& self.hist.spec_count() <= self.count
        &&& self.recent_limit > 0 ==> self.recent_samples@.len() <= self.recent_limit
        &&& self.recent_limit == 0 ==> self.recent_samples@.len() == 0
    }

    /// Sum of the recorded values; what the report calls the function's total.
    pub open spec fn spec_total(self) -> u64 {
        self.hist.spec_total()
    }

    /// Statistics holding no measurement yet, for a duration-profiled name.
    pub fn new_duration(wrapper: bool, recent_limit: usize) -> (r: FunctionStats)
        ensures
            r.wf(),
            r.count == 0,
            r.hist.spec_count() == 0,
            r.spec_total() == 0,
            r.wrapper == wrapper,
            r.has_data == false,
            r.has_unsupported_async == false,
            r.cross_thread == false,
            r.recent_limit == recent_limit,
            r.hist.low == HIST_LOW && r.hist.high == HIST_HIGH_NS,
            r.recent_samples@.len() == 0,
    {
        FunctionStats {
            count: 0,
            hist: ValueHistogram::new(HIST_LOW, HIST_HIGH_NS),
            has_data: false,
            wrapper,
            has_unsupported_async: false,
            cross_thread: false,
            recent_samples: Vec::new(),
            recent_limit,
        }
    }

    /// Statistics holding no measurement yet, for an allocation-profiled name.
    pub fn new_alloc(wrapper: bool, recent_limit: usize) -> (r: FunctionStats)
        ensures
            r.wf(),
            r.count == 0,
            r.hist.spec_count() == 0,
            r.spec_total() == 0,
            r.wrapper == wrapper,
            r.has_data == false,
            r.has_unsupported_async == false,
            r.cross_thread == false,
            r.recent_limit == recent_limit,
            r.hist.low == HIST_LOW && r.hist.high == HIST_HIGH_ALLOC,
            r.recent_samples@.len() == 0,
    {
        FunctionStats {
            count: 0,
            hist: ValueHistogram::new(HIST_LOW, HIST_HIGH_ALLOC),
            has_data: false,
            wrapper,
            has_unsupported_async: false,
            cross_thread: false,
            recent_samples: Vec::new(),
            recent_limit,
        }
    }

    fn remember_sample(&mut self, v: u64)
        requires
            old(self).wf(),
        ensures
            final(self).recent_samples@ == spec_ring_push(
                old(self).recent_samples@,
                v,
                old(self).recent_limit as nat,
            ),
            final(self).recent_limit == old(self).recent_limit,
            final(self).count == old(self).count,
            final(self).hist == old(self).hist,
            final(self).has_data == old(self).has_data,
            final(self).wrapper == old(self).wrapper,
            final(self).has_unsupported_async == old(self).has_unsupported_async,
            final(self).cross_thread == old(self).cross_thread,
            final(self).wf(),
    {
        if self.recent_limit == 0 {
            return;
        }
        if self.recent_samples.len() >= self.recent_limit {
            self.recent_samples.remove(0);
            assert(self.recent_samples@ =~= old(self).recent_samples@.skip(1));
        }
        self.recent_samples.push(v);
    }

    /// Folds one duration measurement in: the count rises by one, the clamped
    /// sample joins the histogram, and the total never decreases.
    pub fn update_duration(&mut self, duration_ns: u64)
        requires
            old(self).wf(),
            old(self).count < u64::MAX,
            old(self).hist.spec_count() < usize::MAX,
        ensures
            final(self).wf(),
            final(self).count == old(self).count + 1,
            final(self).has_data,
            final(self).wrapper == old(self).wrapper,
            final(self).has_unsupported_async == old(self).has_unsupported_async,
            final(self).cross_thread == old(self).cross_thread,
            final(self).recent_limit == old(self).recent_limit,
            final(self).hist.low == old(self).hist.low,
            final(self).hist.high == old(self).hist.high,
            final(self).hist.spec_count() == old(self).hist.spec_count() + 1,
            final(self).hist.sum == old(self).hist.sum + spec_clamp(
                duration_ns,
                old(self).hist.low,
                old(self).hist.high,
            ),
            final(self).spec_total() >= old(self).spec_total(),
            final(self).recent_samples@ == spec_ring_push(
                old(self).recent_samples@,
                duration_ns,
                old(self).recent_limit as nat,
            ),
    {
        self.count = self.count + 1;
        self.has_data = true;
        self.hist.record(duration_ns);
        self.remember_sample(duration_ns);
        proof {
            lemma_total_monotone(old(self).hist, self.hist);
        }
    }

    /// Folds one allocation measurement in: the count always rises by one, and
    /// only a positive attributable value joins the histogram, so unsupported
    /// or empty measurements are counted but never skew the distribution.
    pub fn update_alloc(&mut self, value: u64, unsupported_async: bool, cross_thread: bool)
        requires
            old(self).wf(),
            old(self).count < u64::MAX,
            old(self).hist.spec_count() < usize::MAX,
        ensures
            final(self).wf(),
            final(self).count == old(self).count + 1,
            final(self).has_data,
            final(self).wrapper == old(self).wrapper,
            final(self).has_unsupported_async == (old(self).has_unsupported_async
                || unsupported_async),
            final(self).cross_thread == (old(self).cross_thread || cross_thread),
            final(self).recent_limit == old(self).recent_limit,
            final(self).hist.low == old(self).hist.low,
            final(self).hist.high == old(self).hist.high,
            value > 0 && !unsupported_async ==> final(self).hist.spec_count() == old(
                self,
            ).hist.spec_count() + 1 && final(self).hist.sum == old(self).hist.sum + spec_clamp(
                value,
                old(self).hist.low,
                old(self).hist.high,
            ),
            value == 0 || unsupported_async ==> final(self).hist == old(self).hist,
            final(self).spec_total() >= old(self).spec_total(),
            final(self).recent_samples@ == spec_ring_push(
                old(self).recent_samples@,
                value,
                old(self).recent_limit as nat,
            ),
    {
        self.count = self.count + 1;
        self.has_data = true;
        self.has_unsupported_async = self.has_unsupported_async || unsupported_async;
        self.cross_thread = self.cross_thread || cross_thread;
        if value > 0 && !unsupported_async {
            self.hist.record(value);
        }
        self.remember_sample(value);
        proof {
            lemma_total_monotone(old(self).hist, self.hist);
        }
    }

    /// Checks every invariant of statistics whose history is unknown.
    pub fn check_wf(&self) -> (r: bool)
        ensures
            r == self.wf(),
    {
        if !self.hist.check_wf() {
            return false;
        }
        if !(self.hist.count() as u64 <= self.count) {
            return false;
        }
        if self.recent_limit == 0 {
            self.recent_samples.len() == 0
        } else {
            self.recent_samples.len() <= self.recent_limit
        }
    }

    /// Mean of the recorded values; what the report calls the average.
    pub fn avg(&self) -> (r: u64)
        requires
            self.wf(),
        ensures
            r == self.hist.spec_mean(),
    {
        self.hist.mean()
    }

    /// The function's total: the sum of its recorded (clamped) values.
    pub fn total(&self) -> (r: u64)
        requires
            self.wf(),
        ensures
            r == self.spec_total(),
    {
        self.hist.total()
    }

    /// Answers a percentile query over the recorded values.
    pub fn percentile(&self, p: u64) -> (r: u64)
        requires
            self.wf(),
        ensures
            r == self.hist.spec_percentile(p),
    {
        self.hist.value_at_percentile(p)
    }
}

proof fn lemma_total_monotone(before: ValueHistogram, after: ValueHistogram)
    requires
        crate::hist::seq_sum(before.values@) <= crate::hist::seq_sum(after.values@),
        0 <= crate::hist::seq_sum(before.values@),
    ensures
        before.spec_total() <= after.spec_total(),
{
}

/// How many measurements in `ms` belong to the function called `name`.
pub open spec fn occurrences(ms: Seq<Measurement>, name: Seq<char>) -> int
    decreases ms.len(),
{
    if ms.len() == 0 {
        0
    } else {
        occurrences(ms.drop_last(), name) + if ms.last().spec_name() == name {
            1int
        } else {
            0int
        }
    }
}

/// One function name and its aggregated statistics.
pub struct StatsEntry {
    pub name: String,
    pub stats: FunctionStats,
}

/// The per-function aggregate owned by the aggregation worker: one entry per
/// function name seen so far.
pub struct StatsMap {
    pub entries: Vec<StatsEntry>,
    /// How many recent raw samples each new entry retains.
    pub recent_limit: usize,
}

impl StatsMap {
    pub open spec fn wf(self) -> bool {
        &&& forall|i: int|
            0 <= i < self.entries@.len() ==> (#[trigger] self.entries@[i]).stats.wf()
        &&& forall|i: int, j: int|
            0 <= i < j < self.entries@.len() ==> self.entries@[i].name@ != self.entries@[j].name@
        &&& forall|i: int|
            0 <= i < self.entries@.len() ==> (#[trigger] self.entries@[i]).stats.recent_limit
                == self.recent_limit
    }

    /// Whether a function name has an entry.
    pub open spec fn spec_contains(self, name: Seq<char>) -> bool {
        exists|i: int| 0 <= i < self.entries@.len() && self.entries@[i].name@ == name
    }

    /// The index of a function name's entry.
    pub open spec fn spec_index_of(self, name: Seq<char>) -> int {
        choose|i: int| 0 <= i < self.entries@.len() && self.entries@[i].name@ == name
    }

    /// The statistics recorded under a function name.
    pub open spec fn spec_stats_of(self, name: Seq<char>) -> FunctionStats {
        self.entries@[self.spec_index_of(name)].stats
    }

    /// The aggregated call count of a function name; zero before its first
    /// measurement.
    pub open spec fn spec_count_of(self, name: Seq<char>) -> int {
        if self.spec_contains(name) {
            self.spec_stats_of(name).count as int
        } else {
            0
        }
    }

    /// The aggregated total of a function name; zero before its first
    /// measurement.
    pub open spec fn spec_total_of(self, name: Seq<char>) -> int {
        if self.spec_contains(name) {
            self.spec_stats_of(name).spec_total() as int
        } else {
            0
        }
    }

    /// Whether one more measurement for `name` can still be counted exactly.
    pub open spec fn spec_has_headroom(self, name: Seq<char>) -> bool {
        self.spec_contains(name) ==> {
            &&& self.spec_stats_of(name).count < u64::MAX
            &&& self.spec_stats_of(name).hist.spec_count() < usize::MAX
        }
    }

    pub fn new(recent_limit: usize) -> (r: StatsMap)
        ensures
            r.wf(),
            r.entries@.len() == 0,
            r.recent_limit == recent_limit,
            forall|name: Seq<char>| r.spec_count_of(name) == 0,
    {
        StatsMap { entries: Vec::new(), recent_limit }
    }

    fn index_of(&self, name: &String) -> (r: Option<usize>)
        requires
            self.wf(),
        ensures
            match r {
                Some(i) => i < self.entries@.len() && self.entries@[i as int].name@ == name@
                    && self.spec_contains(name@) && self.spec_index_of(name@) == i,
                None => !self.spec_contains(name@),
            },
    {
        let n = self.entries.len();
        let mut i: usize = 0;
        while i < n
            invariant
                self.wf(),
                i <= n,
                n == self.entries@.len(),
                forall|j: int| 0 <= j < i ==> self.entries@[j].name@ != name@,
            decreases n - i,
        {
            if self.entries[i].name.eq(name) {
                proof {
                    lemma_index_unique(*self, name@, i as int);
                }
                return Some(i);
            }
            i = i + 1;
        }
        None
    }

    /// Checks every invariant of an aggregate whose history is unknown, such
    /// as one received over the completion channel at shutdown: the session
    /// teardown validates before it reports, and degrades to no report rather
    /// than trusting unchecked data.
    pub fn check_wf(&self) -> (r: bool)
        ensures
            r == self.wf(),
    {
        let n = self.entries.len();
        let mut i: usize = 0;
        while i < n
            invariant
                i <= n,
                n == self.entries@.len(),
                forall|k: int| 0 <= k < i ==> (#[trigger] self.entries@[k]).stats.wf(),
                forall|k: int|
                    0 <= k < i ==> (#[trigger] self.entries@[k]).stats.recent_limit
                        == self.recent_limit,
                forall|a: int, b: int|
                    0 <= a < b < i ==> self.entries@[a].name@ != self.entries@[b].name@,
            decreases n - i,
        {
            if !self.entries[i].stats.check_wf() {
                return false;
            }
            if self.entries[i].stats.recent_limit != self.recent_limit {
                return false;
            }
            let mut j: usize = 0;
            while j < i
                invariant
                    j <= i < n,
                    n == self.entries@.len(),
                    forall|k: int| 0 <= k < j ==> self.entries@[k].name@ != self.entries@[i as int].name@,
                decreases i - j,
            {
                if self.entries[j].name.eq(&self.entries[i].name) {
                    return false;
                }
                j = j + 1;
            }
            i = i + 1;
        }
        true
    }

    /// Looks a function name up in the aggregate.
    pub fn get(&self, name: &String) -> (r: Option<&FunctionStats>)
        requires
            self.wf(),
        ensures
            match r {
                Some(fs) => self.spec_contains(name@) && *fs == self.spec_stats_of(name@),
                None => !self.spec_contains(name@),
            },
    {
        match self.index_of(name) {
            Some(i) => Some(&self.entries[i].stats),
            None => None,
        }
    }

    /// Folds one measurement into the aggregate: the first measurement of a
    /// name creates its entry, later ones update it. The named function's
    /// count rises by exactly one as long as its counters have headroom (a
    /// saturated entry drops the measurement rather than misreport), totals
    /// never decrease, and no other function's numbers change.
    pub fn process_measurement(&mut self, m: Measurement)
        requires
            old(self).wf(),
        ensures
            final(self).wf(),
            final(self).recent_limit == old(self).recent_limit,
            final(self).spec_contains(m.spec_name()),
            old(self).spec_has_headroom(m.spec_name()) ==> final(self).spec_count_of(
                m.spec_name(),
            ) == old(self).spec_count_of(m.spec_name()) + 1,
            !old(self).spec_has_headroom(m.spec_name()) ==> final(self).entries@ == old(
                self,
            ).entries@,
            final(self).spec_total_of(m.spec_name()) >= old(self).spec_total_of(m.spec_name()),
            forall|other: Seq<char>|
                other != m.spec_name() ==> #[trigger] final(self).spec_count_of(other) == old(
                    self,
                ).spec_count_of(other),
            forall|other: Seq<char>|
                other != m.spec_name() ==> #[trigger] final(self).spec_total_of(other) == old(
                    self,
                ).spec_total_of(other),
    {
        let ghost m_name = m.spec_name();
        let (name, is_duration, value, unsupported_async, wrapper, cross_thread) = match m {
            Measurement::Duration { name, duration_ns, wrapper } => (
                name,
                true,
                duration_ns,
                false,
                wrapper,
                false,
            ),
            Measurement::Allocation { name, value, unsupported_async, wrapper, cross_thread } => (
                name,
                false,
                value,
                unsupported_async,
                wrapper,
                cross_thread,
            ),
        };
        assert(m_name == name@);
        match self.index_of(&name) {
            Some(i) => {
                let has_room = self.entries[i].stats.count < u64::MAX && self.entries[
                    i
                ].stats.hist.values.len() < usize::MAX;
                assert(has_room == old(self).spec_has_headroom(m_name));
                if has_room {
                    let entry = &mut self.entries[i];
                    if is_duration {
                        entry.stats.update_duration(value);
                    } else {
                        entry.stats.update_alloc(value, unsupported_async, cross_thread);
                    }
                    proof {
                        assert(self.entries@ == old(self).entries@.update(
                            i as int,
                            self.entries@[i as int],
                        ));
                        assert(self.entries@[i as int].name@ == m_name);
                        lemma_index_unique(*self, m_name, i as int);
                        lemma_frame_others(*old(self), *self, i as int);
                    }
                }
            },
            None => {
                let mut stats = if is_duration {
                    FunctionStats::new_duration(wrapper, self.recent_limit)
                } else {
                    FunctionStats::new_alloc(wrapper, self.recent_limit)
                };
                if is_duration {
                    stats.update_duration(value);
                } else {
                    stats.update_alloc(value, unsupported_async, cross_thread);
                }
                self.entries.push(StatsEntry { name, stats });
                proof {
                    let n = self.entries@.len() - 1;
                    assert(self.entries@[n].name@ == m_name);
                    assert(self.wf());
                    lemma_index_unique(*self, m_name, n);
                    assert(self.spec_count_of(m_name) == 1);
                    assert forall|other: Seq<char>| other != m_name implies #[trigger] self
                        .spec_count_of(other) == old(self).spec_count_of(other) by {
                        lemma_push_preserves_others(*old(self), *self, other);
                    }
                    assert forall|other: Seq<char>| other != m_name implies #[trigger] self
                        .spec_total_of(other) == old(self).spec_total_of(other) by {
                        lemma_push_preserves_others(*old(self), *self, other);
                    }
                }
            },
        }
    }
}

impl StatsMap {
    /// Folds a batch of measurements in, in receipt order. For every function
    /// name, the resulting count is the previous count plus the number of
    /// measurements received for that name, and no function's total decreases:
    /// aggregated data only grows.
    pub fn process_measurements(&mut self, ms: Vec<Measurement>)
        requires
            old(self).wf(),
            ms@.len() < usize::MAX,
            forall|i: int|
                0 <= i < old(self).entries@.len() ==> (#[trigger] old(
                    self,
                ).entries@[i]).stats.count + ms@.len() < usize::MAX,
        ensures
            final(self).wf(),
            final(self).recent_limit == old(self).recent_limit,
            forall|n: Seq<char>| #[trigger]
                final(self).spec_count_of(n) == old(self).spec_count_of(n) + occurrences(ms@, n),
            forall|n: Seq<char>| #[trigger]
                final(self).spec_total_of(n) >= old(self).spec_total_of(n),
    {
        let ghost orig = ms@;
        let ghost init = *old(self);
        proof {
            assert forall|n: Seq<char>| #[trigger] init.spec_count_of(n) + orig.len()
                < usize::MAX by {
                if init.spec_contains(n) {
                    let k = init.spec_index_of(n);
                    assert(init.entries@[k].stats.count + orig.len() < usize::MAX);
                }
            }
        }
        let mut ms = ms;
        let mut k: usize = 0;
        let total = ms.len();
        while k < total
            invariant
                self.wf(),
                self.recent_limit == init.recent_limit,
                k + ms@.len() == orig.len(),
                total == orig.len(),
                ms@ =~= orig.skip(k as int),
                forall|n: Seq<char>| #[trigger] init.spec_count_of(n) + orig.len() < usize::MAX,
                forall|n: Seq<char>| #[trigger]
                    self.spec_count_of(n) == init.spec_count_of(n) + occurrences(
                        orig.take(k as int),
                        n,
                    ),
                forall|n: Seq<char>| #[trigger]
                    self.spec_total_of(n) >= init.spec_total_of(n),
            decreases total - k,
        {
            let m = ms.remove(0);
            let ghost m_name = m.spec_name();
            proof {
                assert(m == orig[k as int]);
                assert(ms@ =~= orig.skip(k as int + 1));
                lemma_occurrences_bounds(orig.take(k as int), m_name);
                assert(self.spec_count_of(m_name) == init.spec_count_of(m_name) + occurrences(
                    orig.take(k as int),
                    m_name,
                ));
                assert(self.spec_count_of(m_name) < usize::MAX);
                if self.spec_contains(m_name) {
                    let j = self.spec_index_of(m_name);
                    assert(self.entries@[j].stats.wf());
                }
                assert(self.spec_has_headroom(m_name));
            }
            let ghost before = *self;
            self.process_measurement(m);
            proof {
                assert forall|n: Seq<char>| #[trigger]
                    self.spec_count_of(n) == init.spec_count_of(n) + occurrences(
                        orig.take(k as int + 1),
                        n,
                    ) by {
                    lemma_occurrences_take_step(orig, k as int, n);
                    if n != m_name {
                        assert(self.spec_count_of(n) == before.spec_count_of(n));
                    }
                }
                assert forall|n: Seq<char>| #[trigger] self.spec_total_of(n) >= init.spec_total_of(
                    n,
                ) by {
                    if n != m_name {
                        assert(self.spec_total_of(n) == before.spec_total_of(n));
                    } else {
                        assert(self.spec_total_of(n) >= before.spec_total_of(n));
                    }
                }
            }
            k = k + 1;
        }
        proof {
            assert(orig.take(k as int) =~= orig);
        }
    }
}

/// Measurements for a name are never more numerous than the sequence itself.
pub proof fn lemma_occurrences_bounds(ms: Seq<Measurement>, name: Seq<char>)
    ensures
        0 <= occurrences(ms, name) <= ms.len(),
    decreases ms.len(),
{
    if ms.len() > 0 {
        lemma_occurrences_bounds(ms.drop_last(), name);
    }
}

/// Extending a processed prefix by one measurement raises its occurrence
/// count for exactly that measurement's name.
proof fn lemma_occurrences_take_step(ms: Seq<Measurement>, k: int, name: Seq<char>)
    requires
        0 <= k < ms.len(),
    ensures
        occurrences(ms.take(k + 1), name) == occurrences(ms.take(k), name) + if ms[k].spec_name()
            == name {
            1int
        } else {
            0int
        },
{
    assert(ms.take(k + 1).drop_last() =~= ms.take(k));
    assert(ms.take(k + 1).last() == ms[k]);
}

/// An entry whose name matches is the only one, so it is the one `choose` picks.
proof fn lemma_index_unique(m: StatsMap, n: Seq<char>, i: int)
    requires
        m.wf(),
        0 <= i < m.entries@.len(),
        m.entries@[i].name@ == n,
    ensures
        m.spec_contains(n),
        m.spec_index_of(n) == i,
{
    assert(m.spec_contains(n));
    let k = m.spec_index_of(n);
    assert(0 <= k < m.entries@.len() && m.entries@[k].name@ == n);
    if k != i {
        assert(m.entries@[k].name@ != m.entries@[i].name@);
    }
}

/// Updating the statistics of one entry leaves every other name's numbers as
/// they were.
proof fn lemma_frame_others(before: StatsMap, after: StatsMap, i: int)
    requires
        before.wf(),
        after.wf(),
        0 <= i < before.entries@.len(),
        after.entries@.len() == before.entries@.len(),
        forall|j: int|
            0 <= j < before.entries@.len() ==> (#[trigger] after.entries@[j]).name@
                == before.entries@[j].name@,
        forall|j: int|
            0 <= j < before.entries@.len() && j != i ==> #[trigger] after.entries@[j]
                == before.entries@[j],
    ensures
        forall|other: Seq<char>|
            other != before.entries@[i].name@ ==> #[trigger] after.spec_count_of(other)
                == before.spec_count_of(other),
        forall|other: Seq<char>|
            other != before.entries@[i].name@ ==> #[trigger] after.spec_total_of(other)
                == before.spec_total_of(other),
{
    assert forall|other: Seq<char>| other != before.entries@[i].name@ implies #[trigger] after
        .spec_count_of(other) == before.spec_count_of(other) by {
        lemma_frame_one(before, after, i, other);
    }
    assert forall|other: Seq<char>| other != before.entries@[i].name@ implies #[trigger] after
        .spec_total_of(other) == before.spec_total_of(other) by {
        lemma_frame_one(before, after, i, other);
    }
}

/// One name other than the updated entry's keeps its count and total.
proof fn lemma_frame_one(before: StatsMap, after: StatsMap, i: int, other: Seq<char>)
    requires
        before.wf(),
        after.wf(),
        0 <= i < before.entries@.len(),
        after.entries@.len() == before.entries@.len(),
        forall|j: int|
            0 <= j < before.entries@.len() ==> (#[trigger] after.entries@[j]).name@
                == before.entries@[j].name@,
        forall|j: int|
            0 <= j < before.entries@.len() && j != i ==> #[trigger] after.entries@[j]
                == before.entries@[j],
        other != before.entries@[i].name@,
    ensures
        after.spec_count_of(other) == before.spec_count_of(other),
        after.spec_total_of(other) == before.spec_total_of(other),
{
    if after.spec_contains(other) {
        let k = after.spec_index_of(other);
        assert(0 <= k < after.entries@.len() && after.entries@[k].name@ == other);
        lemma_index_unique(after, other, k);
        lemma_index_unique(before, other, k);
        assert(k != i);
        assert(after.entries@[k] == before.entries@[k]);
    } else {
        if before.spec_contains(other) {
            let k = before.spec_index_of(other);
            assert(after.entries@[k].name@ == other);
            assert(after.spec_contains(other));
        }
    }
}

/// Appending an entry with a fresh name leaves every other name's numbers as
/// they were.
proof fn lemma_push_preserves_others(before: StatsMap, after: StatsMap, other: Seq<char>)
    requires
        before.wf(),
        after.wf(),
        after.entries@.len() == before.entries@.len() + 1,
        forall|j: int|
            0 <= j < before.entries@.len() ==> #[trigger] after.entries@[j] == before.entries@[j],
        other != after.entries@[before.entries@.len() as int].name@,
    ensures
        after.spec_count_of(other) == before.spec_count_of(other),
        after.spec_total_of(other) == before.spec_total_of(other),
{
    if after.spec_contains(other) {
        let k = after.spec_index_of(other);
        assert(0 <= k < after.entries@.len() && after.entries@[k].name@ == other);
        assert(k < before.entries@.len());
        lemma_index_unique(before, other, k);
    } else {
        if before.spec_contains(other) {
            let k = before.spec_index_of(other);
            assert(after.entries@[k].name@ == other);
            assert(after.spec_contains(other));
        }
    }
}

} // verus!

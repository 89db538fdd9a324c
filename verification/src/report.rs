//! Turning the aggregate into report rows.
//!
//! A `StatsData` snapshot carries everything a reporter needs: the aggregate,
//! the configured percentiles, the caller name, the display limit and the
//! elapsed time. `metric_data` computes the rows: one per displayed function,
//! sorted by total, with the percentage of total taken against the wrapper
//! function's total where one exists.

use vstd::prelude::*;

use crate::stats::{FunctionStats, StatsMap};
use crate::text::{
    bytes_text, dec_str, digit_char, duration_text, format_bytes, format_duration, push_digit,
    push_u64, string_from, u64_to_string,
};

verus! {

/// Which quantity a session measures.
#[derive(Clone, Copy, Debug, PartialEq, Eq, Structural)]
pub enum ProfilingMode {
    /// Wall-clock execution time.
    Timing,
    /// Total bytes allocated per call.
    AllocBytesTotal,
    /// Peak bytes held per call.
    AllocBytesMax,
    /// Total number of allocations per call.
    AllocCountTotal,
    /// Peak number of live allocations per call.
    AllocCountMax,
}

impl ProfilingMode {
    /// Whether the mode measures allocations rather than time.
    pub open spec fn spec_is_alloc(self) -> bool {
        self != ProfilingMode::Timing
    }

    pub fn is_alloc(&self) -> (r: bool)
        ensures
            r == self.spec_is_alloc(),
    {
        match self {
            ProfilingMode::Timing => false,
            _ => true,
        }
    }

    /// The stable label of each mode.
    pub open spec fn spec_label(self) -> Seq<char> {
        match self {
            ProfilingMode::Timing => "timing"@,
            ProfilingMode::AllocBytesTotal => "alloc-bytes-total"@,
            ProfilingMode::AllocBytesMax => "alloc-bytes-max"@,
            ProfilingMode::AllocCountTotal => "alloc-count-total"@,
            ProfilingMode::AllocCountMax => "alloc-count-max"@,
        }
    }

    /// The label used for the mode in the exported report.
    pub fn label(&self) -> (r: String)
        ensures
            r@ == self.spec_label(),
    {
        match self {
            ProfilingMode::Timing => string_from("timing"),
            ProfilingMode::AllocBytesTotal => string_from("alloc-bytes-total"),
            ProfilingMode::AllocBytesMax => string_from("alloc-bytes-max"),
            ProfilingMode::AllocCountTotal => string_from("alloc-count-total"),
            ProfilingMode::AllocCountMax => string_from("alloc-count-max"),
        }
    }

    /// What the report describes, per mode and accounting flavor.
    pub open spec fn spec_description(self, cumulative: bool) -> Seq<char> {
        match self {
            ProfilingMode::Timing => "Execution duration of functions."@,
            ProfilingMode::AllocBytesTotal => if cumulative {
                "Cumulative bytes allocated during each function call (including nested calls)."@
            } else {
                "Exclusive bytes allocated by each function (excluding nested calls)."@
            },
            ProfilingMode::AllocBytesMax => "Peak bytes held during each function call."@,
            ProfilingMode::AllocCountTotal => if cumulative {
                "Cumulative allocations made during each function call (including nested calls)."@
            } else {
                "Exclusive allocations made by each function (excluding nested calls)."@
            },
            ProfilingMode::AllocCountMax => "Peak live allocations during each function call."@,
        }
    }

    /// The descriptive line printed above the report.
    pub fn description(&self, cumulative: bool) -> (r: String)
        ensures
            r@ == self.spec_description(cumulative),
    {
        match self {
            ProfilingMode::Timing => string_from("Execution duration of functions."),
            ProfilingMode::AllocBytesTotal => if cumulative {
                string_from(
                    "Cumulative bytes allocated during each function call (including nested calls).",
                )
            } else {
                string_from("Exclusive bytes allocated by each function (excluding nested calls).")
            },
            ProfilingMode::AllocBytesMax => string_from(
                "Peak bytes held during each function call.",
            ),
            ProfilingMode::AllocCountTotal => if cumulative {
                string_from(
                    "Cumulative allocations made during each function call (including nested calls).",
                )
            } else {
                string_from("Exclusive allocations made by each function (excluding nested calls).")
            },
            ProfilingMode::AllocCountMax => string_from(
                "Peak live allocations during each function call.",
            ),
        }
    }
}

/// One cell of a report row: a raw value tagged with what it measures, so a
/// reporter can format it; `Unsupported` renders as an explicit marker where
/// allocation accounting could not be attributed.
#[derive(Clone, Copy, Debug, PartialEq, Eq, Structural)]
pub enum MetricType {
    /// Number of calls.
    CallsCount(u64),
    /// A duration in nanoseconds.
    DurationNs(u64),
    /// A quantity of allocated bytes.
    AllocBytes(u64),
    /// A number of allocations.
    AllocCount(u64),
    /// A percentage in basis points: one per cent is one hundred.
    Percentage(u64),
    /// The value could not be attributed.
    Unsupported,
}

/// A percentage in basis points as text with two decimal places.
pub open spec fn percentage_text(bp: u64) -> Seq<char> {
    dec_str(bp as int / 100) + "."@ + seq![digit_char(bp as int / 10 % 10)] + seq![
        digit_char(bp as int % 10),
    ] + "%"@
}

/// How a cell reads in a rendered table.
pub open spec fn metric_text(m: MetricType) -> Seq<char> {
    match m {
        MetricType::CallsCount(v) => dec_str(v as int),
        MetricType::DurationNs(v) => duration_text(v),
        MetricType::AllocBytes(v) => bytes_text(v),
        MetricType::AllocCount(v) => dec_str(v as int),
        MetricType::Percentage(bp) => percentage_text(bp),
        MetricType::Unsupported => "N/A*"@,
    }
}

impl MetricType {
    /// Renders the cell for a table: counts as plain numbers, durations and
    /// byte quantities in human units, percentages with two decimal places,
    /// and `"N/A*"` for an unattributable value.
    pub fn display_string(&self) -> (r: String)
        ensures
            r@ == metric_text(*self),
    {
        match self {
            MetricType::CallsCount(v) => u64_to_string(*v),
            MetricType::DurationNs(v) => format_duration(*v),
            MetricType::AllocBytes(v) => format_bytes(*v),
            MetricType::AllocCount(v) => u64_to_string(*v),
            MetricType::Percentage(bp) => {
                let mut s = u64_to_string(*bp / 100);
                s.append(".");
                push_digit(&mut s, *bp / 10 % 10);
                push_digit(&mut s, *bp % 10);
                s.append("%");
                proof {
                    assert(s@ =~= percentage_text(*bp));
                }
                s
            },
            MetricType::Unsupported => string_from("N/A*"),
        }
    }
}

/// A value cell in the unit of the profiling mode.
pub open spec fn spec_value_metric(mode: ProfilingMode, v: u64) -> MetricType {
    match mode {
        ProfilingMode::Timing => MetricType::DurationNs(v),
        ProfilingMode::AllocBytesTotal => MetricType::AllocBytes(v),
        ProfilingMode::AllocBytesMax => MetricType::AllocBytes(v),
        ProfilingMode::AllocCountTotal => MetricType::AllocCount(v),
        ProfilingMode::AllocCountMax => MetricType::AllocCount(v),
    }
}

fn value_metric(mode: ProfilingMode, v: u64) -> (r: MetricType)
    ensures
        r == spec_value_metric(mode, v),
{
    match mode {
        ProfilingMode::Timing => MetricType::DurationNs(v),
        ProfilingMode::AllocBytesTotal => MetricType::AllocBytes(v),
        ProfilingMode::AllocBytesMax => MetricType::AllocBytes(v),
        ProfilingMode::AllocCountTotal => MetricType::AllocCount(v),
        ProfilingMode::AllocCountMax => MetricType::AllocCount(v),
    }
}

/// Whether a function's value cells must read as unattributable: allocation
/// numbers are meaningless for a thread-migrating call.
pub open spec fn spec_unsupported_cells(mode: ProfilingMode, fs: FunctionStats) -> bool {
    mode.spec_is_alloc() && (fs.has_unsupported_async || fs.cross_thread)
}

/// A function's share of the reference total, in basis points, rounded down;
/// zero when there is nothing to compare against.
pub open spec fn spec_percent_bp(total: u64, reference: int) -> u64 {
    if reference > 0 {
        if total * 10000 / reference > u64::MAX {
            u64::MAX
        } else {
            (total * 10000 / reference) as u64
        }
    } else {
        0
    }
}

/// The cells of one function's report row: calls, average, one value per
/// requested percentile, total, and share of the reference total. A function
/// whose allocation numbers could not be attributed shows its call count and
/// explicit unsupported markers in every value cell.
pub open spec fn spec_row(
    fs: FunctionStats,
    percentiles: Seq<u8>,
    reference: int,
    mode: ProfilingMode,
) -> Seq<MetricType> {
    if spec_unsupported_cells(mode, fs) {
        seq![MetricType::CallsCount(fs.count)] + Seq::new(
            percentiles.len() + 3,
            |k: int| MetricType::Unsupported,
        )
    } else {
        seq![
            MetricType::CallsCount(fs.count),
            spec_value_metric(mode, fs.hist.spec_mean()),
        ] + Seq::new(
            percentiles.len(),
            |k: int| spec_value_metric(mode, fs.hist.spec_percentile(percentiles[k] as u64)),
        ) + seq![
            spec_value_metric(mode, fs.spec_total()),
            MetricType::Percentage(spec_percent_bp(fs.spec_total(), reference)),
        ]
    }
}

/// Builds one function's report row.
pub fn build_row(
    fs: &FunctionStats,
    percentiles: &Vec<u8>,
    reference: u128,
    mode: ProfilingMode,
) -> (r: Vec<MetricType>)
    requires
        fs.wf(),
        percentiles@.len() + 3 <= usize::MAX,
    ensures
        r@ == spec_row(*fs, percentiles@, reference as int, mode),
{
    let mut r: Vec<MetricType> = Vec::new();
    r.push(MetricType::CallsCount(fs.count));
    let unsupported = mode.is_alloc() && (fs.has_unsupported_async || fs.cross_thread);
    if unsupported {
        let cells = percentiles.len() + 3;
        let mut k: usize = 0;
        while k < cells
            invariant
                r@.len() == 1 + k,
                k <= cells,
                cells == percentiles@.len() + 3,
                r@[0] == MetricType::CallsCount(fs.count),
                forall|j: int| 1 <= j < r@.len() ==> r@[j] == MetricType::Unsupported,
            decreases cells - k,
        {
            r.push(MetricType::Unsupported);
            k = k + 1;
        }
        proof {
            assert(r@ =~= spec_row(*fs, percentiles@, reference as int, mode));
        }
    } else {
        r.push(value_metric(mode, fs.avg()));
        let n = percentiles.len();
        let mut k: usize = 0;
        while k < n
            invariant
                fs.wf(),
                n == percentiles@.len(),
                k <= n,
                r@.len() == 2 + k,
                r@[0] == MetricType::CallsCount(fs.count),
                r@[1] == spec_value_metric(mode, fs.hist.spec_mean()),
                forall|j: int|
                    0 <= j < k ==> r@[2 + j] == spec_value_metric(
                        mode,
                        fs.hist.spec_percentile(percentiles@[j] as u64),
                    ),
            decreases n - k,
        {
            let p = percentiles[k];
            r.push(value_metric(mode, fs.percentile(p as u64)));
            k = k + 1;
        }
        r.push(value_metric(mode, fs.total()));
        let bp = percent_bp(fs.total(), reference);
        r.push(MetricType::Percentage(bp));
        proof {
            assert(r@ =~= spec_row(*fs, percentiles@, reference as int, mode));
        }
    }
    r
}

/// Computes a share of the reference total in basis points.
fn percent_bp(total: u64, reference: u128) -> (r: u64)
    ensures
        r == spec_percent_bp(total, reference as int),
{
    if reference == 0 {
        return 0;
    }
    let wide: u128 = total as u128 * 10000u128 / reference;
    if wide > u64::MAX as u128 {
        u64::MAX
    } else {
        wide as u64
    }
}

/// Whether a function appears in the report: it has data, and it is not a
/// session wrapper that migrated threads.
pub open spec fn spec_displayed(fs: FunctionStats) -> bool {
    fs.has_data && !(fs.wrapper && fs.cross_thread)
}

fn is_displayed(fs: &FunctionStats) -> (r: bool)
    ensures
        r == spec_displayed(*fs),
{
    fs.has_data && !(fs.wrapper && fs.cross_thread)
}

/// How many entries the report would display without a row limit.
pub open spec fn count_displayed(entries: Seq<crate::stats::StatsEntry>) -> int
    decreases entries.len(),
{
    if entries.len() == 0 {
        0
    } else {
        count_displayed(entries.drop_last()) + if spec_displayed(entries.last().stats) {
            1int
        } else {
            0int
        }
    }
}

proof fn lemma_count_displayed_take_step(entries: Seq<crate::stats::StatsEntry>, k: int)
    requires
        0 <= k < entries.len(),
    ensures
        count_displayed(entries.take(k + 1)) == count_displayed(entries.take(k)) + if
            spec_displayed(entries[k].stats) {
            1int
        } else {
            0int
        },
{
    assert(entries.take(k + 1).drop_last() =~= entries.take(k));
    assert(entries.take(k + 1).last() == entries[k]);
}

proof fn lemma_count_displayed_bounds(entries: Seq<crate::stats::StatsEntry>)
    ensures
        0 <= count_displayed(entries) <= entries.len(),
    decreases entries.len(),
{
    if entries.len() > 0 {
        lemma_count_displayed_bounds(entries.drop_last());
    }
}

proof fn lemma_insert_keeps_contains<T>(s: Seq<T>, p: int, v: T, x: T)
    requires
        0 <= p <= s.len(),
        s.contains(x),
    ensures
        s.insert(p, v).contains(x),
{
    let w = choose|w: int| 0 <= w < s.len() && s[w] == x;
    if w < p {
        assert(s.insert(p, v)[w] == x);
    } else {
        assert(s.insert(p, v)[w + 1] == x);
    }
}

/// The first entry marked as the session wrapper, if any.
pub open spec fn spec_first_wrapper(entries: Seq<crate::stats::StatsEntry>, i: int) -> Option<int>
    decreases entries.len() - i,
    when 0 <= i
{
    if i >= entries.len() {
        None
    } else if entries[i].stats.wrapper {
        Some(i)
    } else {
        spec_first_wrapper(entries, i + 1)
    }
}

/// Whether some wrapper entry migrated threads.
pub open spec fn spec_has_cross_thread_wrapper(entries: Seq<crate::stats::StatsEntry>) -> bool {
    exists|j: int|
        0 <= j < entries.len() && entries[j].stats.wrapper && entries[j].stats.cross_thread
}

/// Sum of the totals of the selected entries, optionally leaving wrapper
/// entries out.
pub open spec fn spec_sum_totals(
    entries: Seq<crate::stats::StatsEntry>,
    idxs: Seq<usize>,
    skip_wrappers: bool,
) -> int
    decreases idxs.len(),
{
    if idxs.len() == 0 {
        0
    } else {
        spec_sum_totals(entries, idxs.drop_last(), skip_wrappers) + {
            let j = idxs.last() as int;
            if 0 <= j < entries.len() && (!skip_wrappers || !entries[j].stats.wrapper) {
                entries[j].stats.spec_total() as int
            } else {
                0
            }
        }
    }
}

/// The total everything is compared against. Time profiling prefers the
/// wrapper function's total and falls back to the elapsed wall-clock time.
/// Allocation profiling prefers the wrapper's total too; when the wrapper
/// migrated threads its numbers are meaningless, so the displayed non-wrapper
/// totals are summed instead, and with no wrapper at all the displayed totals
/// are summed.
pub open spec fn spec_reference_total(
    entries: Seq<crate::stats::StatsEntry>,
    displayed: Seq<usize>,
    mode: ProfilingMode,
    total_elapsed_ns: u64,
) -> int {
    if mode == ProfilingMode::Timing {
        match spec_first_wrapper(entries, 0) {
            Some(j) => entries[j].stats.spec_total() as int,
            None => total_elapsed_ns as int,
        }
    } else {
        if spec_has_cross_thread_wrapper(entries) {
            spec_sum_totals(entries, displayed, true)
        } else {
            match spec_first_wrapper(entries, 0) {
                Some(j) => entries[j].stats.spec_total() as int,
                None => spec_sum_totals(entries, displayed, false),
            }
        }
    }
}

/// What `metric_data` selects and in which order: every displayed entry when
/// the limit allows, sorted by total in descending order, each at most once.
pub open spec fn spec_display_selection(m: StatsMap, idxs: Seq<usize>, limit: usize) -> bool {
    &&& forall|k: int|
        0 <= k < idxs.len() ==> (#[trigger] idxs[k]) < m.entries@.len() && spec_displayed(
            m.entries@[idxs[k] as int].stats,
        )
    &&& forall|a: int, b: int| 0 <= a < b < idxs.len() ==> idxs[a] != idxs[b]
    &&& forall|a: int, b: int|
        0 <= a < b < idxs.len() ==> m.entries@[idxs[a] as int].stats.spec_total()
            >= m.entries@[idxs[b] as int].stats.spec_total()
    &&& idxs.len() == if limit == 0 || count_displayed(m.entries@) <= limit {
        count_displayed(m.entries@)
    } else {
        limit as int
    }
    &&& (limit == 0 || count_displayed(m.entries@) <= limit) ==> forall|j: int|
        0 <= j < m.entries@.len() && spec_displayed(m.entries@[j].stats) ==> idxs.contains(
            j as usize,
        )
}

/// Selects the displayed entries, sorted by total in descending order, and
/// keeps the top `limit` rows (a limit of zero keeps them all).
pub fn sorted_display_indices(m: &StatsMap, limit: usize) -> (r: Vec<usize>)
    requires
        m.wf(),
    ensures
        spec_display_selection(*m, r@, limit),
{
    let n = m.entries.len();
    let mut idxs: Vec<usize> = Vec::new();
    let mut i: usize = 0;
    while i < n
        invariant
            m.wf(),
            i <= n,
            n == m.entries@.len(),
            forall|k: int|
                0 <= k < idxs@.len() ==> (#[trigger] idxs@[k]) < i && spec_displayed(
                    m.entries@[idxs@[k] as int].stats,
                ),
            forall|a: int, b: int| 0 <= a < b < idxs@.len() ==> idxs@[a] != idxs@[b],
            forall|a: int, b: int|
                0 <= a < b < idxs@.len() ==> m.entries@[idxs@[a] as int].stats.spec_total()
                    >= m.entries@[idxs@[b] as int].stats.spec_total(),
            idxs@.len() == count_displayed(m.entries@.take(i as int)),
            forall|j: int|
                0 <= j < i && spec_displayed(m.entries@[j].stats) ==> idxs@.contains(j as usize),
        decreases n - i,
    {
        proof {
            lemma_count_displayed_take_step(m.entries@, i as int);
        }
        if is_displayed(&m.entries[i].stats) {
            let t = m.entries[i].stats.total();
            let mut k: usize = 0;
            while k < idxs.len()
                invariant
                    m.wf(),
                    i < n,
                    n == m.entries@.len(),
                    k <= idxs@.len(),
                    t == m.entries@[i as int].stats.spec_total(),
                    forall|kk: int|
                        0 <= kk < idxs@.len() ==> (#[trigger] idxs@[kk]) < i && spec_displayed(
                            m.entries@[idxs@[kk] as int].stats,
                        ),
                    forall|a: int, b: int|
                        0 <= a < b < idxs@.len() ==> m.entries@[idxs@[a] as int].stats.spec_total()
                            >= m.entries@[idxs@[b] as int].stats.spec_total(),
                    forall|kk: int|
                        0 <= kk < k ==> m.entries@[idxs@[kk] as int].stats.spec_total() >= t,
                ensures
                    k <= idxs@.len(),
                    forall|kk: int|
                        0 <= kk < k ==> m.entries@[idxs@[kk] as int].stats.spec_total() >= t,
                    k == idxs@.len() || m.entries@[idxs@[k as int] as int].stats.spec_total() < t,
                decreases idxs@.len() - k,
            {
                let probe = idxs[k];
                if m.entries[probe].stats.total() < t {
                    break ;
                }
                k = k + 1;
            }
            let ghost old_idxs = idxs@;
            idxs.insert(k, i);
            proof {
                assert forall|j: int|
                    0 <= j < i + 1 && spec_displayed(m.entries@[j].stats) implies idxs@.contains(
                    j as usize,
                ) by {
                    if j < i {
                        lemma_insert_keeps_contains(old_idxs, k as int, i, j as usize);
                    } else {
                        assert(idxs@[k as int] == i);
                    }
                }
                assert forall|a: int, b: int| 0 <= a < b < idxs@.len() implies m.entries@[
                    idxs@[a] as int
                ].stats.spec_total() >= m.entries@[idxs@[b] as int].stats.spec_total() by {
                    if b < k {
                    } else if a > k {
                    } else if a == k as int {
                        assert(idxs@[b] == old_idxs[b - 1]);
                        if b == k + 1 {
                        }
                    } else if b == k as int {
                        assert(idxs@[a] == old_idxs[a]);
                    }
                }
            }
        }
        i = i + 1;
    }
    proof {
        assert(m.entries@.take(n as int) =~= m.entries@);
        lemma_count_displayed_bounds(m.entries@);
    }
    if limit > 0 && idxs.len() > limit {
        let ghost before = idxs@;
        idxs.truncate(limit);
        proof {
            assert(idxs@ =~= before.take(limit as int));
        }
    }
    idxs
}

fn first_wrapper(m: &StatsMap) -> (r: Option<usize>)
    requires
        m.wf(),
    ensures
        match r {
            Some(j) => j < m.entries@.len() && m.entries@[j as int].stats.wrapper
                && spec_first_wrapper(m.entries@, 0) == Some(j as int),
            None => spec_first_wrapper(m.entries@, 0) is None,
        },
{
    let n = m.entries.len();
    let mut j: usize = 0;
    while j < n
        invariant
            j <= n,
            n == m.entries@.len(),
            spec_first_wrapper(m.entries@, 0) == spec_first_wrapper(m.entries@, j as int),
        decreases n - j,
    {
        if m.entries[j].stats.wrapper {
            return Some(j);
        }
        j = j + 1;
    }
    None
}

fn has_cross_thread_wrapper(m: &StatsMap) -> (r: bool)
    requires
        m.wf(),
    ensures
        r == spec_has_cross_thread_wrapper(m.entries@),
{
    let n = m.entries.len();
    let mut j: usize = 0;
    while j < n
        invariant
            j <= n,
            n == m.entries@.len(),
            forall|k: int|
                0 <= k < j ==> !((#[trigger] m.entries@[k]).stats.wrapper
                    && m.entries@[k].stats.cross_thread),
        decreases n - j,
    {
        if m.entries[j].stats.wrapper && m.entries[j].stats.cross_thread {
            return true;
        }
        j = j + 1;
    }
    false
}

fn sum_totals(m: &StatsMap, idxs: &Vec<usize>, skip_wrappers: bool) -> (r: u128)
    requires
        m.wf(),
        forall|k: int| 0 <= k < idxs@.len() ==> (#[trigger] idxs@[k]) < m.entries@.len(),
    ensures
        r as int == spec_sum_totals(m.entries@, idxs@, skip_wrappers),
{
    let n = idxs.len();
    let mut acc: u128 = 0;
    let mut k: usize = 0;
    while k < n
        invariant
            m.wf(),
            k <= n,
            n == idxs@.len(),
            forall|kk: int| 0 <= kk < idxs@.len() ==> (#[trigger] idxs@[kk]) < m.entries@.len(),
            acc as int == spec_sum_totals(m.entries@, idxs@.take(k as int), skip_wrappers),
            acc <= k as int * u64::MAX as int,
        decreases n - k,
    {
        let j = idxs[k];
        proof {
            assert(idxs@.take(k as int + 1).drop_last() =~= idxs@.take(k as int));
            assert(idxs@.take(k as int + 1).last() == idxs@[k as int]);
            assert((k as int + 1) * u64::MAX as int == k as int * u64::MAX as int
                + u64::MAX as int) by (nonlinear_arith);
            assert(k as int * u64::MAX as int <= (usize::MAX as int) * u64::MAX as int)
                by (nonlinear_arith)
                requires
                    0 <= k as int <= usize::MAX as int,
            ;
        }
        if !skip_wrappers || !m.entries[j].stats.wrapper {
            let t = m.entries[j].stats.total();
            acc = acc + t as u128;
        }
        k = k + 1;
    }
    proof {
        assert(idxs@.take(n as int) =~= idxs@);
    }
    acc
}

/// Computes the reference total the percentage column is measured against.
pub fn reference_total(
    m: &StatsMap,
    displayed: &Vec<usize>,
    mode: ProfilingMode,
    total_elapsed_ns: u64,
) -> (r: u128)
    requires
        m.wf(),
        forall|k: int| 0 <= k < displayed@.len() ==> (#[trigger] displayed@[k]) < m.entries@.len(),
    ensures
        r as int == spec_reference_total(m.entries@, displayed@, mode, total_elapsed_ns),
{
    if !mode.is_alloc() {
        match first_wrapper(m) {
            Some(j) => m.entries[j].stats.total() as u128,
            None => total_elapsed_ns as u128,
        }
    } else {
        if has_cross_thread_wrapper(m) {
            sum_totals(m, displayed, true)
        } else {
            match first_wrapper(m) {
                Some(j) => m.entries[j].stats.total() as u128,
                None => sum_totals(m, displayed, false),
            }
        }
    }
}

/// A point-in-time snapshot of the aggregate together with the session's
/// reporting configuration: everything a reporter needs.
pub struct StatsData {
    /// The aggregated per-function statistics.
    pub stats: StatsMap,
    /// Wall-clock time the session ran, in nanoseconds.
    pub total_elapsed_ns: u64,
    /// The percentiles each row reports.
    pub percentiles: Vec<u8>,
    /// The name of the session's top-level caller.
    pub caller_name: String,
    /// Greatest number of rows shown; zero means no limit.
    pub limit: usize,
    /// Which quantity the session measured.
    pub mode: ProfilingMode,
    /// Whether allocation totals include nested calls.
    pub cumulative: bool,
}

/// The table header: one column per row cell.
pub open spec fn spec_headers(percentiles: Seq<u8>) -> Seq<Seq<char>> {
    seq!["Function"@, "Calls"@, "Avg"@] + Seq::new(
        percentiles.len(),
        |k: int| "P"@ + dec_str(percentiles[k] as int),
    ) + seq!["Total"@, "% Total"@]
}

impl StatsData {
    pub open spec fn wf(self) -> bool {
        &&& self.stats.wf()
        &&& self.percentiles@.len() + 3 <= usize::MAX
    }

    pub fn new(
        stats: StatsMap,
        total_elapsed_ns: u64,
        percentiles: Vec<u8>,
        caller_name: String,
        limit: usize,
        mode: ProfilingMode,
        cumulative: bool,
    ) -> (r: StatsData)
        requires
            stats.wf(),
            percentiles@.len() + 3 <= usize::MAX,
        ensures
            r.wf(),
            r.stats == stats,
            r.total_elapsed_ns == total_elapsed_ns,
            r.percentiles == percentiles,
            r.caller_name == caller_name,
            r.limit == limit,
            r.mode == mode,
            r.cumulative == cumulative,
    {
        StatsData { stats, total_elapsed_ns, percentiles, caller_name, limit, mode, cumulative }
    }

    /// Whether any displayed function had unattributable allocation numbers,
    /// so the report can carry an explanatory footnote.
    pub fn has_unsupported_async(&self) -> (r: bool)
        requires
            self.wf(),
        ensures
            r == exists|j: int|
                0 <= j < self.stats.entries@.len() && (#[trigger] self.stats.entries@[
                    j
                ]).stats.has_unsupported_async,
    {
        let n = self.stats.entries.len();
        let mut j: usize = 0;
        while j < n
            invariant
                j <= n,
                n == self.stats.entries@.len(),
                forall|k: int|
                    0 <= k < j ==> !(#[trigger] self.stats.entries@[k]).stats.has_unsupported_async,
            decreases n - j,
        {
            if self.stats.entries[j].stats.has_unsupported_async {
                return true;
            }
            j = j + 1;
        }
        false
    }

    /// The table header row: `Function`, `Calls`, `Avg`, one column per
    /// percentile, `Total` and `% Total`.
    pub fn headers(&self) -> (r: Vec<String>)
        requires
            self.wf(),
        ensures
            r@.len() == spec_headers(self.percentiles@).len(),
            forall|i: int| 0 <= i < r@.len() ==> r@[i]@ == spec_headers(self.percentiles@)[i],
    {
        let mut r: Vec<String> = Vec::new();
        r.push(string_from("Function"));
        r.push(string_from("Calls"));
        r.push(string_from("Avg"));
        let n = self.percentiles.len();
        let mut k: usize = 0;
        while k < n
            invariant
                n == self.percentiles@.len(),
                k <= n,
                r@.len() == 3 + k,
                r@[0]@ == "Function"@,
                r@[1]@ == "Calls"@,
                r@[2]@ == "Avg"@,
                forall|j: int|
                    0 <= j < k ==> r@[3 + j]@ == "P"@ + dec_str(self.percentiles@[j] as int),
            decreases n - k,
        {
            let mut h = string_from("P");
            push_u64(&mut h, self.percentiles[k] as u64);
            r.push(h);
            k = k + 1;
        }
        r.push(string_from("Total"));
        r.push(string_from("% Total"));
        proof {
            assert forall|i: int| 0 <= i < r@.len() implies r@[i]@ == spec_headers(
                self.percentiles@,
            )[i] by {
                if 3 <= i < 3 + n {
                    assert(r@[i]@ == "P"@ + dec_str(self.percentiles@[i - 3] as int));
                }
            }
        }
        r
    }

    /// How many rows the report shows, and how many functions have data.
    pub fn entry_counts(&self) -> (r: (usize, usize))
        requires
            self.wf(),
        ensures
            r.1 == count_displayed(self.stats.entries@),
            r.0 == if self.limit == 0 || count_displayed(self.stats.entries@) <= self.limit {
                count_displayed(self.stats.entries@)
            } else {
                self.limit as int
            },
    {
        let n = self.stats.entries.len();
        let mut total: usize = 0;
        let mut j: usize = 0;
        while j < n
            invariant
                self.wf(),
                j <= n,
                n == self.stats.entries@.len(),
                total == count_displayed(self.stats.entries@.take(j as int)),
                total <= j,
            decreases n - j,
        {
            proof {
                lemma_count_displayed_take_step(self.stats.entries@, j as int);
            }
            if is_displayed(&self.stats.entries[j].stats) {
                total = total + 1;
            }
            j = j + 1;
        }
        proof {
            assert(self.stats.entries@.take(n as int) =~= self.stats.entries@);
        }
        let shown = if self.limit > 0 && total > self.limit {
            self.limit
        } else {
            total
        };
        (shown, total)
    }

    /// Computes the report rows: one per displayed function, in descending
    /// order of total, at most `limit` rows, each function shown under its
    /// shortened name with its cells as `spec_row` describes, with the
    /// percentage measured against the reference total of the selection.
    pub fn metric_data(&self) -> (r: Vec<(String, Vec<MetricType>)>)
        requires
            self.wf(),
        ensures
            spec_rows_of(
                self.stats,
                self.percentiles@,
                self.limit,
                self.mode,
                self.total_elapsed_ns,
                r@,
            ),
    {
        compute_rows(&self.stats, &self.percentiles, self.limit, self.mode, self.total_elapsed_ns)
    }
}

/// What a computed row list is: some selection of the displayed entries,
/// sorted and limited, each row carrying the shortened name and the cells of
/// `spec_row` against the selection's reference total.
pub open spec fn spec_rows_of(
    stats: StatsMap,
    percentiles: Seq<u8>,
    limit: usize,
    mode: ProfilingMode,
    total_elapsed_ns: u64,
    rows: Seq<(String, Vec<MetricType>)>,
) -> bool {
    exists|idxs: Seq<usize>|
        {
            &&& #[trigger] spec_display_selection(stats, idxs, limit)
            &&& rows.len() == idxs.len()
            &&& forall|i: int|
                0 <= i < rows.len() ==> (#[trigger] rows[i]).0@ == crate::text::short_name(
                    stats.entries@[idxs[i] as int].name@,
                ) && rows[i].1@ == spec_row(
                    stats.entries@[idxs[i] as int].stats,
                    percentiles,
                    spec_reference_total(stats.entries@, idxs, mode, total_elapsed_ns),
                    mode,
                )
        }
}

/// Computes the report rows for a borrowed aggregate; `StatsData::metric_data`
/// and the live-query path both use this.
pub fn compute_rows(
    stats: &StatsMap,
    percentiles: &Vec<u8>,
    limit: usize,
    mode: ProfilingMode,
    total_elapsed_ns: u64,
) -> (r: Vec<(String, Vec<MetricType>)>)
    requires
        stats.wf(),
        percentiles@.len() + 3 <= usize::MAX,
    ensures
        spec_rows_of(*stats, percentiles@, limit, mode, total_elapsed_ns, r@),
{
    let idxs = sorted_display_indices(stats, limit);
    let reference = reference_total(stats, &idxs, mode, total_elapsed_ns);
    let n = idxs.len();
    let mut r: Vec<(String, Vec<MetricType>)> = Vec::new();
    let mut i: usize = 0;
    while i < n
        invariant
            stats.wf(),
            percentiles@.len() + 3 <= usize::MAX,
            i <= n,
            n == idxs@.len(),
            spec_display_selection(*stats, idxs@, limit),
            reference as int == spec_reference_total(
                stats.entries@,
                idxs@,
                mode,
                total_elapsed_ns,
            ),
            r@.len() == i,
            forall|j: int|
                0 <= j < i ==> (#[trigger] r@[j]).0@ == crate::text::short_name(
                    stats.entries@[idxs@[j] as int].name@,
                ) && r@[j].1@ == spec_row(
                    stats.entries@[idxs@[j] as int].stats,
                    percentiles@,
                    reference as int,
                    mode,
                ),
        decreases n - i,
    {
        let j = idxs[i];
        let name = format_function_name_string(&stats.entries[j].name);
        let row = build_row(&stats.entries[j].stats, percentiles, reference, mode);
        r.push((name, row));
        i = i + 1;
    }
    proof {
        assert(spec_display_selection(*stats, idxs@, limit));
    }
    r
}

/// Copies a percentile list.
pub fn copy_vec_u8(v: &Vec<u8>) -> (r: Vec<u8>)
    ensures
        r@ == v@,
{
    let mut r: Vec<u8> = Vec::new();
    let n = v.len();
    let mut i: usize = 0;
    while i < n
        invariant
            i <= n,
            n == v@.len(),
            r@ == v@.take(i as int),
        decreases n - i,
    {
        r.push(v[i]);
        proof {
            assert(r@ =~= v@.take(i as int + 1));
        }
        i = i + 1;
    }
    proof {
        assert(v@.take(n as int) =~= v@);
    }
    r
}

/// Copies a sample list.
pub fn copy_vec_u64(v: &Vec<u64>) -> (r: Vec<u64>)
    ensures
        r@ == v@,
{
    let mut r: Vec<u64> = Vec::new();
    let n = v.len();
    let mut i: usize = 0;
    while i < n
        invariant
            i <= n,
            n == v@.len(),
            r@ == v@.take(i as int),
        decreases n - i,
    {
        r.push(v[i]);
        proof {
            assert(r@ =~= v@.take(i as int + 1));
        }
        i = i + 1;
    }
    proof {
        assert(v@.take(n as int) =~= v@);
    }
    r
}

/// The per-function rows of an exported report, in display order.
pub struct MetricsDataJson {
    pub entries: Vec<(String, Vec<MetricType>)>,
}

/// The exported report: profiling mode, elapsed time, caller name, the
/// percentile list used, a descriptive line, and one row of metrics per
/// displayed function. External tooling diffs two of these, so the format is
/// stable and round-trippable.
pub struct MetricsJson {
    pub hotpath_profiling_mode: ProfilingMode,
    pub total_elapsed: u64,
    pub caller_name: String,
    pub percentiles: Vec<u8>,
    pub description: String,
    pub data: MetricsDataJson,
}

impl MetricsJson {
    /// Builds the exported report from a borrowed aggregate and the session's
    /// configuration.
    pub fn from_parts(
        stats: &StatsMap,
        total_elapsed_ns: u64,
        percentiles: &Vec<u8>,
        caller_name: &String,
        limit: usize,
        mode: ProfilingMode,
        cumulative: bool,
    ) -> (r: MetricsJson)
        requires
            stats.wf(),
            percentiles@.len() + 3 <= usize::MAX,
        ensures
            r.hotpath_profiling_mode == mode,
            r.total_elapsed == total_elapsed_ns,
            r.caller_name@ == caller_name@,
            r.percentiles@ == percentiles@,
            r.description@ == mode.spec_description(cumulative),
            spec_rows_of(
                *stats,
                percentiles@,
                limit,
                mode,
                total_elapsed_ns,
                r.data.entries@,
            ),
    {
        MetricsJson {
            hotpath_profiling_mode: mode,
            total_elapsed: total_elapsed_ns,
            caller_name: caller_name.clone(),
            percentiles: copy_vec_u8(percentiles),
            description: mode.description(cumulative),
            data: MetricsDataJson {
                entries: compute_rows(stats, percentiles, limit, mode, total_elapsed_ns),
            },
        }
    }
}

/// Shortens a stored function name for display.
fn format_function_name_string(name: &String) -> (r: String)
    ensures
        r@ == crate::text::short_name(name@),
{
    crate::text::format_function_name(name.as_str())
}

/// How one raw sample value reads, in the unit of the profiling mode.
pub open spec fn sample_value_text(value: u64, mode: ProfilingMode) -> Seq<char> {
    match mode {
        ProfilingMode::Timing => crate::text::duration_text(value),
        ProfilingMode::AllocBytesTotal => crate::text::bytes_text(value),
        ProfilingMode::AllocBytesMax => crate::text::bytes_text(value),
        ProfilingMode::AllocCountTotal => crate::text::dec_str(value as int),
        ProfilingMode::AllocCountMax => crate::text::dec_str(value as int),
    }
}

/// Renders one raw sample value in the unit of the profiling mode: a
/// duration for timing, a byte quantity for the byte modes, a plain count
/// otherwise.
pub fn format_sample_value(value: u64, profiling_mode: &ProfilingMode) -> (r: String)
    ensures
        r@ == sample_value_text(value, *profiling_mode),
{
    match profiling_mode {
        ProfilingMode::Timing => format_duration(value),
        ProfilingMode::AllocBytesTotal => format_bytes(value),
        ProfilingMode::AllocBytesMax => format_bytes(value),
        ProfilingMode::AllocCountTotal => u64_to_string(value),
        ProfilingMode::AllocCountMax => u64_to_string(value),
    }
}

/// A pluggable consumer of the finished aggregate. The session teardown
/// hands the snapshot to whichever reporter is configured — a table, JSON,
/// or something of the caller's own — and a reporter's failure is reported,
/// never allowed to interrupt the teardown.
pub trait Reporter {
    /// Renders or stores one report; the error text is logged by the caller.
    fn report(&self, metrics_provider: &StatsData) -> Result<(), String>;
}

} // verus!

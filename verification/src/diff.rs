//! Comparing two exported reports.
//!
//! External tooling exports a report from two runs and diffs them: each
//! function's metrics become before/after pairs, functions present in only
//! one report are marked new or removed, and the rows come out sorted by the
//! after-run's share of total.

use vstd::prelude::*;
use vstd::multiset::Multiset;

use crate::report::{percentage_text, MetricType, MetricsJson};
use crate::text::{bytes_text, dec_str, digit_char, duration_text, push_digit, push_u128, push_u64};

verus! {

/// One metric as a before/after pair.
#[derive(Clone, Copy, Debug, PartialEq, Eq, Structural)]
pub enum MetricDiff {
    /// Call counts, before and after.
    CallsCount(u64, u64),
    /// Durations in nanoseconds, before and after.
    DurationNs(u64, u64),
    /// Allocated bytes, before and after.
    AllocBytes(u64, u64),
    /// Allocation counts, before and after.
    AllocCount(u64, u64),
    /// Percentages in basis points, before and after.
    Percentage(u64, u64),
}

/// One function's row in a comparison.
pub struct FunctionMetricsDiff {
    pub function_name: String,
    pub metrics: Vec<MetricDiff>,
    /// The function is measured only in the before run.
    pub is_removed: bool,
    /// The function is measured only in the after run.
    pub is_new: bool,
}

/// A whole comparison: the elapsed-time pair and one row per function.
pub struct MetricsComparison {
    pub total_elapsed_diff: MetricDiff,
    pub function_diffs: Vec<FunctionMetricsDiff>,
}

/// Pairs two cells of the same kind; cells of different kinds, or
/// unattributable ones, yield nothing.
pub open spec fn spec_pair_diff(b: MetricType, a: MetricType) -> Option<MetricDiff> {
    match (b, a) {
        (MetricType::CallsCount(x), MetricType::CallsCount(y)) => Some(
            MetricDiff::CallsCount(x, y),
        ),
        (MetricType::DurationNs(x), MetricType::DurationNs(y)) => Some(
            MetricDiff::DurationNs(x, y),
        ),
        (MetricType::AllocBytes(x), MetricType::AllocBytes(y)) => Some(
            MetricDiff::AllocBytes(x, y),
        ),
        (MetricType::AllocCount(x), MetricType::AllocCount(y)) => Some(
            MetricDiff::AllocCount(x, y),
        ),
        (MetricType::Percentage(x), MetricType::Percentage(y)) => Some(
            MetricDiff::Percentage(x, y),
        ),
        _ => None,
    }
}

/// A cell of the after run alone, shown as growth from zero.
pub open spec fn spec_new_diff(a: MetricType) -> Option<MetricDiff> {
    match a {
        MetricType::CallsCount(y) => Some(MetricDiff::CallsCount(0, y)),
        MetricType::DurationNs(y) => Some(MetricDiff::DurationNs(0, y)),
        MetricType::AllocBytes(y) => Some(MetricDiff::AllocBytes(0, y)),
        MetricType::AllocCount(y) => Some(MetricDiff::AllocCount(0, y)),
        MetricType::Percentage(y) => Some(MetricDiff::Percentage(0, y)),
        MetricType::Unsupported => None,
    }
}

/// A cell of the before run alone, shown as shrinking to zero.
pub open spec fn spec_removed_diff(b: MetricType) -> Option<MetricDiff> {
    match b {
        MetricType::CallsCount(x) => Some(MetricDiff::CallsCount(x, 0)),
        MetricType::DurationNs(x) => Some(MetricDiff::DurationNs(x, 0)),
        MetricType::AllocBytes(x) => Some(MetricDiff::AllocBytes(x, 0)),
        MetricType::AllocCount(x) => Some(MetricDiff::AllocCount(x, 0)),
        MetricType::Percentage(x) => Some(MetricDiff::Percentage(x, 0)),
        MetricType::Unsupported => None,
    }
}

/// The diffs of a function present in both runs: cells are paired by
/// position as far as both rows reach, and mismatched pairs are skipped.
pub open spec fn spec_paired_row(b: Seq<MetricType>, a: Seq<MetricType>, i: int) -> Seq<MetricDiff>
    decreases a.len() - i,
    when 0 <= i
{
    if i >= a.len() || i >= b.len() {
        Seq::empty()
    } else {
        match spec_pair_diff(b[i], a[i]) {
            Some(d) => seq![d] + spec_paired_row(b, a, i + 1),
            None => spec_paired_row(b, a, i + 1),
        }
    }
}

/// The diffs of a function only the after run measured.
pub open spec fn spec_new_row(a: Seq<MetricType>, i: int) -> Seq<MetricDiff>
    decreases a.len() - i,
    when 0 <= i
{
    if i >= a.len() {
        Seq::empty()
    } else {
        match spec_new_diff(a[i]) {
            Some(d) => seq![d] + spec_new_row(a, i + 1),
            None => spec_new_row(a, i + 1),
        }
    }
}

/// The diffs of a function only the before run measured.
pub open spec fn spec_removed_row(b: Seq<MetricType>, i: int) -> Seq<MetricDiff>
    decreases b.len() - i,
    when 0 <= i
{
    if i >= b.len() {
        Seq::empty()
    } else {
        match spec_removed_diff(b[i]) {
            Some(d) => seq![d] + spec_removed_row(b, i + 1),
            None => spec_removed_row(b, i + 1),
        }
    }
}

/// Whether a report has a row for a function name.
pub open spec fn spec_has_name(rows: Seq<(String, Vec<MetricType>)>, name: Seq<char>) -> bool {
    exists|j: int| 0 <= j < rows.len() && rows[j].0@ == name
}

/// The first row of a function name.
pub open spec fn spec_name_index(rows: Seq<(String, Vec<MetricType>)>, name: Seq<char>, i: int) -> Option<
    int,
>
    decreases rows.len() - i,
    when 0 <= i
{
    if i >= rows.len() {
        None
    } else if rows[i].0@ == name {
        Some(i)
    } else {
        spec_name_index(rows, name, i + 1)
    }
}

/// The sort key of a comparison row: the after value of its first percentage
/// diff, or zero when it has none.
pub open spec fn spec_percent_after(metrics: Seq<MetricDiff>, i: int) -> u64
    decreases metrics.len() - i,
    when 0 <= i
{
    if i >= metrics.len() {
        0
    } else {
        match metrics[i] {
            MetricDiff::Percentage(_b, a) => a,
            _ => spec_percent_after(metrics, i + 1),
        }
    }
}

/// Whether some comparison row carries the given function name.
pub open spec fn spec_row_present(rows: Seq<FunctionMetricsDiff>, name: Seq<char>) -> bool {
    exists|i: int| 0 <= i < rows.len() && (#[trigger] rows[i]).function_name@ == name
}

/// Whether some comparison row carries the given function name and is marked
/// removed.
pub open spec fn spec_removed_present(rows: Seq<FunctionMetricsDiff>, name: Seq<char>) -> bool {
    exists|i: int|
        0 <= i < rows.len() && (#[trigger] rows[i]).function_name@ == name && rows[i].is_removed
}

/// What one comparison row claims: its flags say which runs measured the
/// function, and its diffs are exactly the pairing of the runs' first rows
/// under that name.
pub open spec fn spec_diff_row_ok(
    before: Seq<(String, Vec<MetricType>)>,
    after: Seq<(String, Vec<MetricType>)>,
    fd: FunctionMetricsDiff,
) -> bool {
    if fd.is_removed {
        &&& !fd.is_new
        &&& spec_has_name(before, fd.function_name@)
        &&& !spec_has_name(after, fd.function_name@)
        &&& fd.metrics@ == spec_removed_row(
            before[spec_name_index(before, fd.function_name@, 0).unwrap()].1@,
            0,
        )
    } else if fd.is_new {
        &&& spec_has_name(after, fd.function_name@)
        &&& !spec_has_name(before, fd.function_name@)
        &&& fd.metrics@ == spec_new_row(
            after[spec_name_index(after, fd.function_name@, 0).unwrap()].1@,
            0,
        )
    } else {
        &&& spec_has_name(after, fd.function_name@)
        &&& spec_has_name(before, fd.function_name@)
        &&& fd.metrics@ == spec_paired_row(
            before[spec_name_index(before, fd.function_name@, 0).unwrap()].1@,
            after[spec_name_index(after, fd.function_name@, 0).unwrap()].1@,
            0,
        )
    }
}

/// Whether the change from `before` to `after` is downward.
pub open spec fn spec_diff_negative(before: u64, after: u64) -> bool {
    before > 0 && after < before
}

/// The size of the relative change from `before` to `after`, in tenths of a
/// per cent, rounded half up. A change from zero counts as a full hundred
/// per cent.
pub open spec fn spec_diff_magnitude(before: u64, after: u64) -> int {
    if before == 0 {
        if after == 0 {
            0
        } else {
            1000
        }
    } else if after >= before {
        ((after - before) * 2000 + before) / (2 * before)
    } else {
        ((before - after) * 2000 + before) / (2 * before)
    }
}

/// The relative change as text: an explicit sign and one decimal place. A
/// downward change so small that it rounds to zero still keeps its minus
/// sign.
pub open spec fn signed_tenths_text(negative: bool, mag: int) -> Seq<char> {
    (if negative {
        "-"@
    } else {
        "+"@
    }) + dec_str(mag / 10) + "."@ + seq![digit_char(mag % 10)]
}

/// The marker appended to a change: a warning when it grew past the
/// threshold, a rocket when it shrank past it, otherwise blank padding; with
/// no threshold, no marker at all.
pub open spec fn spec_emoji_text(negative: bool, mag: int, threshold: Option<u32>) -> Seq<char> {
    match threshold {
        Some(th) => if !negative && mag > th * 10 {
            " ⚠️ "@
        } else if negative && mag > th * 10 {
            " 🚀 "@
        } else {
            "   "@
        },
        None => ""@,
    }
}

/// The change-and-marker tail every diff cell ends with.
pub open spec fn spec_diff_tail(before: u64, after: u64, threshold: Option<u32>) -> Seq<char> {
    " ("@ + signed_tenths_text(
        spec_diff_negative(before, after),
        spec_diff_magnitude(before, after),
    ) + "%)"@ + spec_emoji_text(
        spec_diff_negative(before, after),
        spec_diff_magnitude(before, after),
        threshold,
    )
}

/// How a diff cell reads: both values in their unit, the relative change,
/// and the optional marker.
pub open spec fn spec_diff_text(d: MetricDiff, threshold: Option<u32>) -> Seq<char> {
    match d {
        MetricDiff::CallsCount(b, a) => dec_str(b as int) + " → "@ + dec_str(a as int)
            + spec_diff_tail(b, a, threshold),
        MetricDiff::DurationNs(b, a) => duration_text(b) + " → "@ + duration_text(a)
            + spec_diff_tail(b, a, threshold),
        MetricDiff::AllocBytes(b, a) => bytes_text(b) + " → "@ + bytes_text(a) + spec_diff_tail(
            b,
            a,
            threshold,
        ),
        MetricDiff::AllocCount(b, a) => dec_str(b as int) + " → "@ + dec_str(a as int)
            + spec_diff_tail(b, a, threshold),
        MetricDiff::Percentage(b, a) => percentage_text(b) + " → "@ + percentage_text(a)
            + spec_diff_tail(b, a, threshold),
    }
}

impl MetricDiff {
    /// Renders the diff for the comparison table: `"10 → 12 (+20.0%)"` and
    /// the like, with a warning or rocket marker when the change clears the
    /// given threshold percentage.
    #[verifier::rlimit(60)]
    pub fn format_with_emoji(&self, emoji_threshold: Option<u32>) -> (r: String)
        ensures
            r@ == spec_diff_text(*self, emoji_threshold),
    {
        let (b, a): (u64, u64) = match self {
            MetricDiff::CallsCount(b, a) => (*b, *a),
            MetricDiff::DurationNs(b, a) => (*b, *a),
            MetricDiff::AllocBytes(b, a) => (*b, *a),
            MetricDiff::AllocCount(b, a) => (*b, *a),
            MetricDiff::Percentage(b, a) => (*b, *a),
        };
        let mut s = match self {
            MetricDiff::CallsCount(_, _) => {
                let mut s = String::new();
                push_u64(&mut s, b);
                s.append(" → ");
                push_u64(&mut s, a);
                proof {
                    assert(s@ =~= dec_str(b as int) + " → "@ + dec_str(a as int));
                }
                s
            },
            MetricDiff::DurationNs(_, _) => {
                let mut s = crate::text::format_duration(b);
                s.append(" → ");
                let after_text = crate::text::format_duration(a);
                s.append(after_text.as_str());
                proof {
                    assert(s@ =~= duration_text(b) + " → "@ + duration_text(a));
                }
                s
            },
            MetricDiff::AllocBytes(_, _) => {
                let mut s = crate::text::format_bytes(b);
                s.append(" → ");
                let after_text = crate::text::format_bytes(a);
                s.append(after_text.as_str());
                proof {
                    assert(s@ =~= bytes_text(b) + " → "@ + bytes_text(a));
                }
                s
            },
            MetricDiff::AllocCount(_, _) => {
                let mut s = String::new();
                push_u64(&mut s, b);
                s.append(" → ");
                push_u64(&mut s, a);
                proof {
                    assert(s@ =~= dec_str(b as int) + " → "@ + dec_str(a as int));
                }
                s
            },
            MetricDiff::Percentage(_, _) => {
                let before_cell = MetricType::Percentage(b);
                let after_cell = MetricType::Percentage(a);
                let mut s = before_cell.display_string();
                s.append(" → ");
                let after_text = after_cell.display_string();
                s.append(after_text.as_str());
                proof {
                    assert(s@ =~= percentage_text(b) + " → "@ + percentage_text(a));
                }
                s
            },
        };
        let ghost value_part = s@;
        proof {
            assert(value_part =~= match *self {
                MetricDiff::CallsCount(b0, a0) => dec_str(b0 as int) + " → "@ + dec_str(
                    a0 as int,
                ),
                MetricDiff::DurationNs(b0, a0) => duration_text(b0) + " → "@
                    + duration_text(a0),
                MetricDiff::AllocBytes(b0, a0) => bytes_text(b0) + " → "@ + bytes_text(a0),
                MetricDiff::AllocCount(b0, a0) => dec_str(b0 as int) + " → "@ + dec_str(
                    a0 as int,
                ),
                MetricDiff::Percentage(b0, a0) => percentage_text(b0) + " → "@
                    + percentage_text(a0),
            });
        }
        s.append(" (");
        let negative: bool;
        let magnitude: u128;
        if b == 0 {
            negative = false;
            magnitude = if a == 0 {
                0
            } else {
                1000
            };
        } else if a >= b {
            negative = false;
            magnitude = ((a - b) as u128 * 2000 + b as u128) / (2 * b as u128);
        } else {
            negative = true;
            magnitude = ((b - a) as u128 * 2000 + b as u128) / (2 * b as u128);
        }
        let ghost mag = spec_diff_magnitude(b, a);
        proof {
            assert(negative == spec_diff_negative(b, a));
            if b == 0 {
                assert(mag == magnitude as int);
            } else if a >= b {
                assert(magnitude as int == ((a - b) * 2000 + b) / (2 * b)) by (nonlinear_arith)
                    requires
                        b > 0,
                        a >= b,
                        magnitude == ((a - b) as u128 * 2000 + b as u128) / (2 * b as u128),
                ;
                assert(mag == magnitude as int);
            } else {
                assert(magnitude as int == ((b - a) * 2000 + b) / (2 * b)) by (nonlinear_arith)
                    requires
                        b > 0,
                        a < b,
                        magnitude == ((b - a) as u128 * 2000 + b as u128) / (2 * b as u128),
                ;
                assert(mag == magnitude as int);
            }
        }
        if negative {
            s.append("-");
        } else {
            s.append("+");
        }
        push_u128(&mut s, magnitude / 10);
        s.append(".");
        push_digit(&mut s, (magnitude % 10) as u64);
        s.append("%)");
        let ghost paren_part = s@;
        proof {
            assert(paren_part =~= value_part + " ("@ + signed_tenths_text(negative, mag)
                + "%)"@);
        }
        match emoji_threshold {
            Some(th) => {
                if !negative && magnitude > th as u128 * 10 {
                    s.append(" ⚠️ ");
                } else if negative && magnitude > th as u128 * 10 {
                    s.append(" 🚀 ");
                } else {
                    s.append("   ");
                }
            },
            None => {},
        }
        proof {
            reveal_strlit("");
            assert(""@ =~= Seq::<char>::empty());
            assert(s@ =~= paren_part + spec_emoji_text(negative, mag, emoji_threshold));
            assert(s@ =~= value_part + spec_diff_tail(b, a, emoji_threshold));
            assert(s@ =~= spec_diff_text(*self, emoji_threshold));
        }
        s
    }
}

fn find_row<'a>(rows: &'a Vec<(String, Vec<MetricType>)>, name: &String) -> (r: Option<
    &'a Vec<MetricType>,
>)
    ensures
        match r {
            Some(row) => spec_has_name(rows@, name@) && {
                let j = spec_name_index(rows@, name@, 0).unwrap();
                &&& spec_name_index(rows@, name@, 0) is Some
                &&& 0 <= j < rows@.len()
                &&& row@ == rows@[j].1@
            },
            None => !spec_has_name(rows@, name@) && spec_name_index(rows@, name@, 0) is None,
        },
{
    let n = rows.len();
    let mut j: usize = 0;
    while j < n
        invariant
            j <= n,
            n == rows@.len(),
            spec_name_index(rows@, name@, 0) == spec_name_index(rows@, name@, j as int),
            forall|k: int| 0 <= k < j ==> rows@[k].0@ != name@,
        decreases n - j,
    {
        if rows[j].0.eq(name) {
            return Some(&rows[j].1);
        }
        j = j + 1;
    }
    proof {
        assert(spec_name_index(rows@, name@, n as int) is None);
        if spec_has_name(rows@, name@) {
            let k = choose|k: int| 0 <= k < rows@.len() && rows@[k].0@ == name@;
            assert(rows@[k].0@ != name@);
        }
    }
    None
}

fn pair_diff(b: &MetricType, a: &MetricType) -> (r: Option<MetricDiff>)
    ensures
        r == spec_pair_diff(*b, *a),
{
    match (b, a) {
        (MetricType::CallsCount(x), MetricType::CallsCount(y)) => Some(
            MetricDiff::CallsCount(*x, *y),
        ),
        (MetricType::DurationNs(x), MetricType::DurationNs(y)) => Some(
            MetricDiff::DurationNs(*x, *y),
        ),
        (MetricType::AllocBytes(x), MetricType::AllocBytes(y)) => Some(
            MetricDiff::AllocBytes(*x, *y),
        ),
        (MetricType::AllocCount(x), MetricType::AllocCount(y)) => Some(
            MetricDiff::AllocCount(*x, *y),
        ),
        (MetricType::Percentage(x), MetricType::Percentage(y)) => Some(
            MetricDiff::Percentage(*x, *y),
        ),
        _ => None,
    }
}

fn paired_row(b: &Vec<MetricType>, a: &Vec<MetricType>) -> (r: Vec<MetricDiff>)
    ensures
        r@ == spec_paired_row(b@, a@, 0),
{
    let mut r: Vec<MetricDiff> = Vec::new();
    let n = a.len();
    let mut i: usize = 0;
    while i < n
        invariant
            i <= n,
            n == a@.len(),
            spec_paired_row(b@, a@, 0) == r@ + spec_paired_row(b@, a@, i as int),
        decreases n - i,
    {
        if i < b.len() {
            match pair_diff(&b[i], &a[i]) {
                Some(d) => {
                    proof {
                        assert(spec_paired_row(b@, a@, i as int) == seq![d] + spec_paired_row(
                            b@,
                            a@,
                            i as int + 1,
                        ));
                        assert(r@ + spec_paired_row(b@, a@, i as int) =~= r@.push(d)
                            + spec_paired_row(b@, a@, i as int + 1));
                    }
                    r.push(d);
                },
                None => {},
            }
        } else {
            proof {
                assert(spec_paired_row(b@, a@, i as int) =~= Seq::<MetricDiff>::empty());
            }
        }
        i = i + 1;
    }
    proof {
        assert(spec_paired_row(b@, a@, n as int) =~= Seq::<MetricDiff>::empty());
        assert(r@ =~= spec_paired_row(b@, a@, 0));
    }
    r
}

fn new_row(a: &Vec<MetricType>) -> (r: Vec<MetricDiff>)
    ensures
        r@ == spec_new_row(a@, 0),
{
    let mut r: Vec<MetricDiff> = Vec::new();
    let n = a.len();
    let mut i: usize = 0;
    while i < n
        invariant
            i <= n,
            n == a@.len(),
            spec_new_row(a@, 0) == r@ + spec_new_row(a@, i as int),
        decreases n - i,
    {
        let cell = &a[i];
        let d_opt = match cell {
            MetricType::CallsCount(y) => Some(MetricDiff::CallsCount(0, *y)),
            MetricType::DurationNs(y) => Some(MetricDiff::DurationNs(0, *y)),
            MetricType::AllocBytes(y) => Some(MetricDiff::AllocBytes(0, *y)),
            MetricType::AllocCount(y) => Some(MetricDiff::AllocCount(0, *y)),
            MetricType::Percentage(y) => Some(MetricDiff::Percentage(0, *y)),
            MetricType::Unsupported => None,
        };
        match d_opt {
            Some(d) => {
                proof {
                    assert(r@ + spec_new_row(a@, i as int) =~= r@.push(d) + spec_new_row(
                        a@,
                        i as int + 1,
                    ));
                }
                r.push(d);
            },
            None => {},
        }
        i = i + 1;
    }
    proof {
        assert(spec_new_row(a@, n as int) =~= Seq::<MetricDiff>::empty());
        assert(r@ =~= spec_new_row(a@, 0));
    }
    r
}

fn removed_row(b: &Vec<MetricType>) -> (r: Vec<MetricDiff>)
    ensures
        r@ == spec_removed_row(b@, 0),
{
    let mut r: Vec<MetricDiff> = Vec::new();
    let n = b.len();
    let mut i: usize = 0;
    while i < n
        invariant
            i <= n,
            n == b@.len(),
            spec_removed_row(b@, 0) == r@ + spec_removed_row(b@, i as int),
        decreases n - i,
    {
        let cell = &b[i];
        let d_opt = match cell {
            MetricType::CallsCount(x) => Some(MetricDiff::CallsCount(*x, 0)),
            MetricType::DurationNs(x) => Some(MetricDiff::DurationNs(*x, 0)),
            MetricType::AllocBytes(x) => Some(MetricDiff::AllocBytes(*x, 0)),
            MetricType::AllocCount(x) => Some(MetricDiff::AllocCount(*x, 0)),
            MetricType::Percentage(x) => Some(MetricDiff::Percentage(*x, 0)),
            MetricType::Unsupported => None,
        };
        match d_opt {
            Some(d) => {
                proof {
                    assert(r@ + spec_removed_row(b@, i as int) =~= r@.push(d) + spec_removed_row(
                        b@,
                        i as int + 1,
                    ));
                }
                r.push(d);
            },
            None => {},
        }
        i = i + 1;
    }
    proof {
        assert(spec_removed_row(b@, n as int) =~= Seq::<MetricDiff>::empty());
        assert(r@ =~= spec_removed_row(b@, 0));
    }
    r
}

fn percent_after(metrics: &Vec<MetricDiff>) -> (r: u64)
    ensures
        r == spec_percent_after(metrics@, 0),
{
    let n = metrics.len();
    let mut i: usize = 0;
    while i < n
        invariant
            i <= n,
            n == metrics@.len(),
            spec_percent_after(metrics@, 0) == spec_percent_after(metrics@, i as int),
        decreases n - i,
    {
        match &metrics[i] {
            MetricDiff::Percentage(_b, a) => {
                return *a;
            },
            _ => {},
        }
        i = i + 1;
    }
    0
}

/// Report rows name each function once.
pub open spec fn spec_distinct_names(rows: Seq<(String, Vec<MetricType>)>) -> bool {
    forall|a: int, b: int| 0 <= a < b < rows.len() ==> rows[a].0@ != rows[b].0@
}

/// With distinct names, the scan finds exactly the index that holds the name.
proof fn lemma_name_index_unique(rows: Seq<(String, Vec<MetricType>)>, j: int)
    requires
        spec_distinct_names(rows),
        0 <= j < rows.len(),
    ensures
        spec_name_index(rows, rows[j].0@, 0) == Some(j),
{
    lemma_name_index_unique_from(rows, j, 0);
}

proof fn lemma_name_index_unique_from(rows: Seq<(String, Vec<MetricType>)>, j: int, i: int)
    requires
        spec_distinct_names(rows),
        0 <= i <= j < rows.len(),
    ensures
        spec_name_index(rows, rows[j].0@, i) == Some(j),
    decreases j - i,
{
    if i == j {
    } else {
        assert(rows[i].0@ != rows[j].0@);
        lemma_name_index_unique_from(rows, j, i + 1);
    }
}

/// Compares two exported reports, each naming a function at most once.
/// Every function of the after run gets a row: paired against the before
/// run's cells where the function appears in both, or marked new otherwise;
/// every function only the before run measured gets a row marked removed.
/// The rows come out sorted by the after run's share of total, largest first.
pub fn compare_metrics(before: &MetricsJson, after: &MetricsJson) -> (r: MetricsComparison)
    requires
        spec_distinct_names(before.data.entries@),
        spec_distinct_names(after.data.entries@),
    ensures
        r.total_elapsed_diff == MetricDiff::DurationNs(before.total_elapsed, after.total_elapsed),
        forall|i: int|
            0 <= i < r.function_diffs@.len() ==> spec_diff_row_ok(
                before.data.entries@,
                after.data.entries@,
                #[trigger] r.function_diffs@[i],
            ),
        forall|j: int|
            0 <= j < after.data.entries@.len() ==> spec_row_present(
                r.function_diffs@,
                (#[trigger] after.data.entries@[j]).0@,
            ),
        forall|j: int|
            0 <= j < before.data.entries@.len() && !spec_has_name(
                after.data.entries@,
                (#[trigger] before.data.entries@[j]).0@,
            ) ==> spec_removed_present(r.function_diffs@, before.data.entries@[j].0@),
        forall|a: int, b: int|
            0 <= a < b < r.function_diffs@.len() ==> spec_percent_after(
                (#[trigger] r.function_diffs@[a]).metrics@,
                0,
            ) >= spec_percent_after((#[trigger] r.function_diffs@[b]).metrics@, 0),
{
    let total_elapsed_diff = MetricDiff::DurationNs(before.total_elapsed, after.total_elapsed);
    let mut rows: Vec<FunctionMetricsDiff> = Vec::new();
    let a_entries = &after.data.entries;
    let b_entries = &before.data.entries;
    let na = a_entries.len();
    let mut j: usize = 0;
    while j < na
        invariant
            na == a_entries@.len(),
            a_entries@ == after.data.entries@,
            b_entries@ == before.data.entries@,
            spec_distinct_names(before.data.entries@),
            spec_distinct_names(after.data.entries@),
            j <= na,
            forall|i: int|
                0 <= i < rows@.len() ==> spec_diff_row_ok(
                    before.data.entries@,
                    after.data.entries@,
                    #[trigger] rows@[i],
                ),
            forall|jj: int|
                0 <= jj < j ==> spec_row_present(
                    rows@,
                    (#[trigger] after.data.entries@[jj]).0@,
                ),
        decreases na - j,
    {
        let name = &a_entries[j].0;
        let a_row = &a_entries[j].1;
        let fd = match find_row(b_entries, name) {
            Some(b_row) => FunctionMetricsDiff {
                function_name: name.clone(),
                metrics: paired_row(b_row, a_row),
                is_removed: false,
                is_new: false,
            },
            None => FunctionMetricsDiff {
                function_name: name.clone(),
                metrics: new_row(a_row),
                is_removed: false,
                is_new: true,
            },
        };
        proof {
            assert(after.data.entries@[j as int].0@ == name@);
            assert(spec_has_name(after.data.entries@, name@));
            lemma_name_index_unique(after.data.entries@, j as int);
            assert(spec_diff_row_ok(before.data.entries@, after.data.entries@, fd));
        }
        let ghost rows_snap = rows@;
        rows.push(fd);
        proof {
            assert forall|jj: int| 0 <= jj < j + 1 implies spec_row_present(
                rows@,
                (#[trigger] after.data.entries@[jj]).0@,
            ) by {
                if jj < j {
                    let w = choose|i: int|
                        0 <= i < rows_snap.len() && (#[trigger] rows_snap[i]).function_name@
                            == after.data.entries@[jj].0@;
                    assert(rows@[w] == rows_snap[w]);
                } else {
                    assert(rows@[rows@.len() - 1] == fd);
                }
            }
        }
        j = j + 1;
    }
    let nb = b_entries.len();
    let mut k: usize = 0;
    while k < nb
        invariant
            nb == b_entries@.len(),
            a_entries@ == after.data.entries@,
            b_entries@ == before.data.entries@,
            spec_distinct_names(before.data.entries@),
            spec_distinct_names(after.data.entries@),
            k <= nb,
            forall|i: int|
                0 <= i < rows@.len() ==> spec_diff_row_ok(
                    before.data.entries@,
                    after.data.entries@,
                    #[trigger] rows@[i],
                ),
            forall|jj: int|
                0 <= jj < after.data.entries@.len() ==> spec_row_present(
                    rows@,
                    (#[trigger] after.data.entries@[jj]).0@,
                ),
            forall|kk: int|
                0 <= kk < k && !spec_has_name(
                    after.data.entries@,
                    (#[trigger] before.data.entries@[kk]).0@,
                ) ==> spec_removed_present(rows@, before.data.entries@[kk].0@),
        decreases nb - k,
    {
        let name = &b_entries[k].0;
        let b_row = &b_entries[k].1;
        match find_row(a_entries, name) {
            Some(_present) => {},
            None => {
                proof {
                    assert(before.data.entries@[k as int].0@ == name@);
                    lemma_name_index_unique(before.data.entries@, k as int);
                }
                let fd = FunctionMetricsDiff {
                    function_name: name.clone(),
                    metrics: removed_row(b_row),
                    is_removed: true,
                    is_new: false,
                };
                proof {
                    assert(spec_diff_row_ok(before.data.entries@, after.data.entries@, fd));
                }
                let ghost rows_snap = rows@;
                rows.push(fd);
                proof {
                    assert forall|jj: int| 0 <= jj < after.data.entries@.len() implies
                        spec_row_present(
                        rows@,
                        (#[trigger] after.data.entries@[jj]).0@,
                    ) by {
                        let w = choose|i: int|
                            0 <= i < rows_snap.len() && (#[trigger] rows_snap[i]).function_name@
                                == after.data.entries@[jj].0@;
                        assert(rows@[w] == rows_snap[w]);
                    }
                    assert forall|kk: int|
                        0 <= kk < k + 1 && !spec_has_name(
                            after.data.entries@,
                            (#[trigger] before.data.entries@[kk]).0@,
                        ) implies spec_removed_present(
                        rows@,
                        before.data.entries@[kk].0@,
                    ) by {
                        if kk < k {
                            let w = choose|i: int|
                                0 <= i < rows_snap.len() && (#[trigger] rows_snap[
                                    i
                                ]).function_name@ == before.data.entries@[kk].0@
                                    && rows_snap[i].is_removed;
                            assert(rows@[w] == rows_snap[w]);
                        } else {
                            assert(rows@[rows@.len() - 1] == fd);
                        }
                    }
                }
            },
        }
        k = k + 1;
    }
    let ghost built = rows@;
    let sorted = sort_rows_by_percent(rows);
    proof {
        assert forall|j2: int| 0 <= j2 < after.data.entries@.len() implies spec_row_present(
            sorted@,
            (#[trigger] after.data.entries@[j2]).0@,
        ) by {
            let w = choose|i: int|
                0 <= i < built.len() && (#[trigger] built[i]).function_name@
                    == after.data.entries@[j2].0@;
            assert(sorted@.contains(built[w]));
            let w2 = choose|i: int| 0 <= i < sorted@.len() && sorted@[i] == built[w];
            assert(sorted@[w2].function_name@ == after.data.entries@[j2].0@);
        }
        assert forall|j2: int|
            0 <= j2 < before.data.entries@.len() && !spec_has_name(
                after.data.entries@,
                (#[trigger] before.data.entries@[j2]).0@,
            ) implies spec_removed_present(sorted@, before.data.entries@[j2].0@) by {
            let w = choose|i: int|
                0 <= i < built.len() && (#[trigger] built[i]).function_name@
                    == before.data.entries@[j2].0@ && built[i].is_removed;
            assert(sorted@.contains(built[w]));
            let w2 = choose|i: int| 0 <= i < sorted@.len() && sorted@[i] == built[w];
            assert(sorted@[w2].function_name@ == before.data.entries@[j2].0@
                && sorted@[w2].is_removed);
        }
        assert forall|i: int| 0 <= i < sorted@.len() implies spec_diff_row_ok(
            before.data.entries@,
            after.data.entries@,
            #[trigger] sorted@[i],
        ) by {
            assert(built.contains(sorted@[i]));
            let w = choose|x: int| 0 <= x < built.len() && built[x] == sorted@[i];
            assert(spec_diff_row_ok(before.data.entries@, after.data.entries@, built[w]));
        }
    }
    MetricsComparison { total_elapsed_diff, function_diffs: sorted }
}

/// A name an entry holds is found by the scan, at an index with that name.
proof fn lemma_name_index_found(rows: Seq<(String, Vec<MetricType>)>, name: Seq<char>)
    requires
        spec_has_name(rows, name),
    ensures
        spec_name_index(rows, name, 0) is Some,
        0 <= spec_name_index(rows, name, 0).unwrap() < rows.len(),
        rows[spec_name_index(rows, name, 0).unwrap()].0@ == name,
    decreases rows.len(),
{
    lemma_name_index_found_from(rows, name, 0);
}

proof fn lemma_name_index_found_from(rows: Seq<(String, Vec<MetricType>)>, name: Seq<char>, i: int)
    requires
        0 <= i <= rows.len(),
        exists|j: int| i <= j < rows.len() && rows[j].0@ == name,
    ensures
        spec_name_index(rows, name, i) is Some,
        i <= spec_name_index(rows, name, i).unwrap() < rows.len(),
        rows[spec_name_index(rows, name, i).unwrap()].0@ == name,
    decreases rows.len() - i,
{
    if rows[i].0@ == name {
    } else {
        assert(exists|j: int| i + 1 <= j < rows.len() && rows[j].0@ == name) by {
            let j = choose|j: int| i <= j < rows.len() && rows[j].0@ == name;
            assert(i + 1 <= j < rows.len() && rows[j].0@ == name);
        }
        lemma_name_index_found_from(rows, name, i + 1);
    }
}

/// Sorts comparison rows by the after run's share of total, largest first.
/// The result holds exactly the given rows.
fn sort_rows_by_percent(rows: Vec<FunctionMetricsDiff>) -> (r: Vec<FunctionMetricsDiff>)
    ensures
        r@.len() == rows@.len(),
        r@.to_multiset() == rows@.to_multiset(),
        forall|i: int| 0 <= i < r@.len() ==> rows@.contains(#[trigger] r@[i]),
        forall|i: int| 0 <= i < rows@.len() ==> r@.contains(#[trigger] rows@[i]),
        forall|a: int, b: int|
            0 <= a < b < r@.len() ==> spec_percent_after((#[trigger] r@[a]).metrics@, 0)
                >= spec_percent_after((#[trigger] r@[b]).metrics@, 0),
{
    broadcast use vstd::seq_lib::group_to_multiset_ensures;
    broadcast use vstd::multiset::group_multiset_axioms;

    let mut rows = rows;
    let ghost orig = rows@;
    let mut out: Vec<FunctionMetricsDiff> = Vec::new();
    while rows.len() > 0
        invariant
            out@.len() + rows@.len() == orig.len(),
            out@.to_multiset().add(rows@.to_multiset()) == orig.to_multiset(),
            forall|i: int| 0 <= i < out@.len() ==> orig.contains(#[trigger] out@[i]),
            forall|a: int, b: int|
                0 <= a < b < out@.len() ==> spec_percent_after((#[trigger] out@[a]).metrics@, 0)
                    >= spec_percent_after((#[trigger] out@[b]).metrics@, 0),
        decreases rows@.len(),
    {
        let ghost rows_before = rows@;
        let fd = rows.remove(0);
        let p = percent_after(&fd.metrics);
        let mut pos: usize = 0;
        while pos < out.len()
            invariant
                pos <= out@.len(),
                p == spec_percent_after(fd.metrics@, 0),
                forall|a: int, b: int|
                    0 <= a < b < out@.len() ==> spec_percent_after(
                        (#[trigger] out@[a]).metrics@,
                        0,
                    ) >= spec_percent_after((#[trigger] out@[b]).metrics@, 0),
                forall|k: int|
                    0 <= k < pos ==> spec_percent_after((#[trigger] out@[k]).metrics@, 0) >= p,
            ensures
                pos <= out@.len(),
                forall|k: int|
                    0 <= k < pos ==> spec_percent_after((#[trigger] out@[k]).metrics@, 0) >= p,
                pos == out@.len() || spec_percent_after(out@[pos as int].metrics@, 0) < p,
            decreases out@.len() - pos,
        {
            let q = percent_after(&out[pos].metrics);
            if q < p {
                break ;
            }
            pos = pos + 1;
        }
        let ghost out_before = out@;
        out.insert(pos, fd);
        proof {
            broadcast use vstd::seq_lib::group_to_multiset_ensures;
            broadcast use vstd::multiset::group_multiset_axioms;

            assert(rows_before[0] == fd);
            assert(rows_before.contains(fd));
            assert(rows_before.to_multiset().count(fd) > 0);
            assert(rows@ == rows_before.remove(0));
            assert(rows_before.remove(0).to_multiset() == rows_before.to_multiset().remove(
                rows_before[0],
            ));
            vstd::seq_lib::to_multiset_insert(out_before, pos as int, fd);
            assert(out@.to_multiset().add(rows@.to_multiset()) =~= orig.to_multiset());
            assert(orig.contains(fd)) by {
                assert(orig.to_multiset().count(fd) > 0);
            }
            assert forall|a: int, b: int| 0 <= a < b < out@.len() implies spec_percent_after(
                (#[trigger] out@[a]).metrics@,
                0,
            ) >= spec_percent_after((#[trigger] out@[b]).metrics@, 0) by {
                if b < pos {
                } else if a > pos {
                } else if a == pos as int {
                    assert(out@[b] == out_before[b - 1]);
                } else if b == pos as int {
                    assert(out@[a] == out_before[a]);
                }
            }
        }
    }
    proof {
        broadcast use vstd::seq_lib::group_to_multiset_ensures;
        broadcast use vstd::multiset::group_multiset_axioms;

        assert(rows@.to_multiset() =~= Multiset::<FunctionMetricsDiff>::empty());
        assert(out@.to_multiset() =~= orig.to_multiset());
        assert forall|i: int| 0 <= i < orig.len() implies out@.contains(#[trigger] orig[i]) by {
            assert(orig.to_multiset().count(orig[i]) > 0);
            assert(out@.to_multiset().count(orig[i]) > 0);
        }
    }
    out
}

} // verus!

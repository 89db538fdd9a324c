//! The exported report as text.
//!
//! External tooling stores and diffs reports, so the format is stable: one
//! object holding the profiling mode, the elapsed time, the caller name, the
//! description, and under `output` one object per function whose keys name
//! the cells — `calls`, `avg`, one `p<N>` per percentile, `total`,
//! `percent_total` — with plain numbers as values and `null` for a cell that
//! could not be attributed. `metrics_to_json` writes exactly that text;
//! `parse_metrics` reads it back, tolerating whitespace between tokens.

use vstd::prelude::*;

use crate::report::{MetricType, MetricsDataJson, MetricsJson, ProfilingMode};
use crate::text::{dec_str, push_u64, string_from};

verus! {

/// The key of the cell at position `k` in a row, given the percentile list.
pub open spec fn cell_key(percentiles: Seq<u8>, k: int) -> Seq<char> {
    if k == 0 {
        "calls"@
    } else if k == 1 {
        "avg"@
    } else if k < 2 + percentiles.len() {
        "p"@ + dec_str(percentiles[k - 2] as int)
    } else if k == 2 + percentiles.len() {
        "total"@
    } else {
        "percent_total"@
    }
}

/// The value of one cell as JSON text: its raw number, or `null` for a cell
/// that could not be attributed.
pub open spec fn cell_value_text(m: MetricType) -> Seq<char> {
    match m {
        MetricType::CallsCount(v) => dec_str(v as int),
        MetricType::DurationNs(v) => dec_str(v as int),
        MetricType::AllocBytes(v) => dec_str(v as int),
        MetricType::AllocCount(v) => dec_str(v as int),
        MetricType::Percentage(v) => dec_str(v as int),
        MetricType::Unsupported => "null"@,
    }
}

/// The cells of one row from position `k` on, as JSON members.
pub open spec fn row_members_text(row: Seq<MetricType>, percentiles: Seq<u8>, k: int) -> Seq<char>
    decreases row.len() - k,
    when 0 <= k
{
    if k >= row.len() {
        Seq::empty()
    } else {
        (if k > 0 {
            ","@
        } else {
            Seq::empty()
        }) + "\""@ + cell_key(percentiles, k) + "\":"@ + cell_value_text(row[k])
            + row_members_text(row, percentiles, k + 1)
    }
}

/// The function entries from position `j` on, as JSON members.
pub open spec fn entries_text(
    entries: Seq<(String, Vec<MetricType>)>,
    percentiles: Seq<u8>,
    j: int,
) -> Seq<char>
    decreases entries.len() - j,
    when 0 <= j
{
    if j >= entries.len() {
        Seq::empty()
    } else {
        (if j > 0 {
            ","@
        } else {
            Seq::empty()
        }) + "\""@ + entries[j].0@ + "\":{"@ + row_members_text(entries[j].1@, percentiles, 0)
            + "}"@ + entries_text(entries, percentiles, j + 1)
    }
}

/// A field key as JSON text: the quoted key and its colon.
pub open spec fn field_key_text(key: Seq<char>) -> Seq<char> {
    "\""@ + key + "\":"@
}

/// A string value as JSON text.
pub open spec fn quoted_text(v: Seq<char>) -> Seq<char> {
    "\""@ + v + "\""@
}

/// The whole exported report as JSON text.
#[verifier::opaque]
pub open spec fn metrics_text(m: MetricsJson) -> Seq<char> {
    "{"@ + field_key_text("hotpath_profiling_mode"@) + quoted_text(
        m.hotpath_profiling_mode.spec_label(),
    ) + ","@ + field_key_text("total_elapsed"@) + dec_str(m.total_elapsed as int) + ","@
        + field_key_text("caller_name"@) + quoted_text(m.caller_name@) + ","@ + field_key_text(
        "description"@,
    ) + quoted_text(m.description@) + ","@ + field_key_text("output"@) + "{"@ + (entries_text(
        m.data.entries@,
        m.percentiles@,
        0,
    ) + "}"@) + "}"@
}

/// Text that can stand inside a JSON string without escaping.
pub open spec fn json_safe(s: Seq<char>) -> bool {
    forall|i: int| 0 <= i < s.len() ==> s[i] != '"' && s[i] != '\\'
}

/// Checks that text can stand inside a JSON string without escaping, so a
/// caller can test `metrics_to_json`'s precondition before exporting.
pub fn is_json_safe(s: &str) -> (r: bool)
    ensures
        r == json_safe(s@),
{
    let n = s.unicode_len();
    let mut i: usize = 0;
    while i < n
        invariant
            i <= n,
            n == s@.len(),
            forall|k: int| 0 <= k < i ==> s@[k] != '"' && s@[k] != '\\',
        decreases n - i,
    {
        let c = s.get_char(i);
        if c == '"' || c == '\\' {
            return false;
        }
        i = i + 1;
    }
    true
}

fn push_cell_value(s: &mut String, m: &MetricType)
    ensures
        final(s)@ == old(s)@ + cell_value_text(*m),
{
    match m {
        MetricType::CallsCount(v) => push_u64(s, *v),
        MetricType::DurationNs(v) => push_u64(s, *v),
        MetricType::AllocBytes(v) => push_u64(s, *v),
        MetricType::AllocCount(v) => push_u64(s, *v),
        MetricType::Percentage(v) => push_u64(s, *v),
        MetricType::Unsupported => {
            s.append("null");
            proof {
                assert(s@ =~= old(s)@ + "null"@);
            }
        },
    }
}

fn push_row_members(s: &mut String, row: &Vec<MetricType>, percentiles: &Vec<u8>)
    requires
        row@.len() == percentiles@.len() + 4,
    ensures
        final(s)@ == old(s)@ + row_members_text(row@, percentiles@, 0),
{
    let n = row.len();
    let mut k: usize = 0;
    while k < n
        invariant
            n == row@.len(),
            n == percentiles@.len() + 4,
            k <= n,
            old(s)@ + row_members_text(row@, percentiles@, 0) == s@ + row_members_text(
                row@,
                percentiles@,
                k as int,
            ),
        decreases n - k,
    {
        let ghost s_at = s@;
        if k > 0 {
            s.append(",");
        }
        s.append("\"");
        if k == 0 {
            s.append("calls");
        } else if k == 1 {
            s.append("avg");
        } else if k < 2 + percentiles.len() {
            s.append("p");
            push_u64(s, percentiles[k - 2] as u64);
        } else if k == 2 + percentiles.len() {
            s.append("total");
        } else {
            s.append("percent_total");
        }
        s.append("\":");
        push_cell_value(s, &row[k]);
        proof {
            assert(s@ =~= s_at + (if k > 0 {
                ","@
            } else {
                Seq::<char>::empty()
            }) + "\""@ + cell_key(percentiles@, k as int) + "\":"@ + cell_value_text(
                row@[k as int],
            ));
            assert(s@ + row_members_text(row@, percentiles@, k as int + 1) =~= s_at
                + row_members_text(row@, percentiles@, k as int));
        }
        k = k + 1;
    }
    proof {
        assert(row_members_text(row@, percentiles@, n as int) =~= Seq::<char>::empty());
        assert(s@ =~= s@ + Seq::<char>::empty());
        assert(final(s)@ =~= old(s)@ + row_members_text(row@, percentiles@, 0));
    }
}

/// Writes the exported report as compact JSON, exactly as `metrics_text`
/// spells it out.
pub fn metrics_to_json(m: &MetricsJson) -> (r: String)
    requires
        json_safe(m.caller_name@),
        json_safe(m.description@),
        forall|j: int|
            0 <= j < m.data.entries@.len() ==> json_safe((#[trigger] m.data.entries@[j]).0@) && (
            m.data.entries@[j]).1@.len() == m.percentiles@.len() + 4,
    ensures
        r@ == metrics_text(*m),
{
    let mut s = String::new();
    s.append("{");
    s.append("\"");
    s.append("hotpath_profiling_mode");
    s.append("\":");
    s.append("\"");
    let label = m.hotpath_profiling_mode.label();
    s.append(label.as_str());
    s.append("\"");
    s.append(",");
    s.append("\"");
    s.append("total_elapsed");
    s.append("\":");
    push_u64(&mut s, m.total_elapsed);
    s.append(",");
    s.append("\"");
    s.append("caller_name");
    s.append("\":");
    s.append("\"");
    s.append(m.caller_name.as_str());
    s.append("\"");
    s.append(",");
    s.append("\"");
    s.append("description");
    s.append("\":");
    s.append("\"");
    s.append(m.description.as_str());
    s.append("\"");
    s.append(",");
    s.append("\"");
    s.append("output");
    s.append("\":");
    s.append("{");
    let ghost head = s@;
    let n = m.data.entries.len();
    let mut j: usize = 0;
    while j < n
        invariant
            n == m.data.entries@.len(),
            j <= n,
            forall|jj: int|
                0 <= jj < m.data.entries@.len() ==> (#[trigger] m.data.entries@[jj]).1@.len()
                    == m.percentiles@.len() + 4,
            head + entries_text(m.data.entries@, m.percentiles@, 0) == s@ + entries_text(
                m.data.entries@,
                m.percentiles@,
                j as int,
            ),
        decreases n - j,
    {
        let ghost s_at = s@;
        if j > 0 {
            s.append(",");
        }
        s.append("\"");
        s.append(m.data.entries[j].0.as_str());
        s.append("\":{");
        push_row_members(&mut s, &m.data.entries[j].1, &m.percentiles);
        s.append("}");
        proof {
            assert(s@ =~= s_at + (if j > 0 {
                ","@
            } else {
                Seq::<char>::empty()
            }) + "\""@ + m.data.entries@[j as int].0@ + "\":{"@ + row_members_text(
                m.data.entries@[j as int].1@,
                m.percentiles@,
                0,
            ) + "}"@);
            assert(s@ + entries_text(m.data.entries@, m.percentiles@, j as int + 1) =~= s_at
                + entries_text(m.data.entries@, m.percentiles@, j as int));
        }
        j = j + 1;
    }
    s.append("}");
    s.append("}");
    proof {
        reveal(metrics_text);
        assert(entries_text(m.data.entries@, m.percentiles@, n as int) =~= Seq::<char>::empty());
        assert(s@ =~= metrics_text(*m));
    }
    s
}

/// Whitespace the parser tolerates between tokens.
pub open spec fn spec_is_ws(c: char) -> bool {
    c == ' ' || c == '\n' || c == '\r' || c == '\t'
}

fn is_ws(c: char) -> (r: bool)
    ensures
        r == spec_is_ws(c),
{
    c == ' ' || c == '\n' || c == '\r' || c == '\t'
}

fn skip_ws(s: &str, i: usize) -> (r: usize)
    requires
        i <= s@.len(),
    ensures
        i <= r <= s@.len(),
        i < s@.len() && !spec_is_ws(s@[i as int]) ==> r == i,
{
    let n = s.unicode_len();
    let mut j = i;
    while j < n
        invariant
            i <= j <= n,
            n == s@.len(),
            i < j ==> spec_is_ws(s@[i as int]),
        decreases n - j,
    {
        if !is_ws(s.get_char(j)) {
            return j;
        }
        j = j + 1;
    }
    j
}

fn expect_token(s: &str, i: usize, token: char) -> (r: Option<usize>)
    requires
        i <= s@.len(),
    ensures
        r matches Some(j) ==> i < j <= s@.len(),
        i < s@.len() && s@[i as int] == token && !spec_is_ws(token) ==> r == Some(
            (i + 1) as usize,
        ),
{
    let j = skip_ws(s, i);
    if j < s.unicode_len() && s.get_char(j) == token {
        Some(j + 1)
    } else {
        None
    }
}

fn digit_of(c: char) -> (r: Option<u64>)
    ensures
        r == if crate::text::spec_is_digit(c) {
            Some(crate::text::spec_digit_val(c) as u64)
        } else {
            None::<u64>
        },
{
    match c {
        '0' => Some(0),
        '1' => Some(1),
        '2' => Some(2),
        '3' => Some(3),
        '4' => Some(4),
        '5' => Some(5),
        '6' => Some(6),
        '7' => Some(7),
        '8' => Some(8),
        '9' => Some(9),
        _ => None,
    }
}

/// What it means for the text at `i` to spell the number `v` and stop:
/// `dec_str(v)` stands there, followed by a character that is not a digit.
pub open spec fn spec_number_at(s: Seq<char>, i: int, v: u64) -> bool {
    &&& 0 <= i
    &&& i + dec_str(v as int).len() < s.len()
    &&& s.subrange(i, i + dec_str(v as int).len()) == dec_str(v as int)
    &&& !crate::text::spec_is_digit(s[i + dec_str(v as int).len()])
}

fn parse_u64_at(s: &str, i: usize) -> (r: Option<(u64, usize)>)
    requires
        i <= s@.len(),
    ensures
        r matches Some(p) ==> i < p.1 <= s@.len(),
        forall|v: u64| #[trigger]
            spec_number_at(s@, i as int, v) ==> r == Some(
                (v, (i + dec_str(v as int).len()) as usize),
            ),
{
    let n = s.unicode_len();
    let start = skip_ws(s, i);
    let mut j = start;
    let mut acc: u64 = 0;
    let mut seen = false;
    while j < n
        invariant
            i <= start <= j <= n,
            n == s@.len(),
            i < s@.len() && !spec_is_ws(s@[i as int]) ==> start == i,
            seen ==> j > start,
            !seen ==> j == start && acc == 0,
            forall|k: int| start <= k < j ==> crate::text::spec_is_digit(#[trigger] s@[k]),
            acc as int == crate::text::dec_val(s@.subrange(start as int, j as int)),
        decreases n - j,
    {
        match digit_of(s.get_char(j)) {
            Some(d) => {
                proof {
                    if i < s@.len() && crate::text::spec_is_digit(s@[i as int]) {
                        assert(!spec_is_ws(s@[i as int]));
                    }
                    lemma_number_scan_step(s@, i as int, start as int, j as int, acc, d);
                }
                if acc > (u64::MAX - d) / 10 {
                    return None;
                }
                proof {
                    assert(acc * 10 <= (u64::MAX - d) / 10 * 10) by (nonlinear_arith)
                        requires
                            0 <= acc <= (u64::MAX - d) / 10,
                    ;
                    assert(s@.subrange(start as int, j as int + 1).drop_last() =~= s@.subrange(
                        start as int,
                        j as int,
                    ));
                    assert(s@.subrange(start as int, j as int + 1).last() == s@[j as int]);
                }
                acc = acc * 10 + d;
                seen = true;
                j = j + 1;
            },
            None => {
                proof {
                    if i < s@.len() && crate::text::spec_is_digit(s@[i as int]) {
                        assert(!spec_is_ws(s@[i as int]));
                    }
                    lemma_number_scan_done(s@, i as int, start as int, j as int, acc);
                }
                if seen {
                    return Some((acc, j));
                }
                return None;
            },
        }
    }
    proof {
        if i < s@.len() && crate::text::spec_is_digit(s@[i as int]) {
            assert(!spec_is_ws(s@[i as int]));
        }
        lemma_number_scan_at_end(s@, i as int, start as int, acc);
    }
    if seen {
        Some((acc, j))
    } else {
        None
    }
}

/// While a digit is still under the scanner, the text cannot have spelled a
/// complete number yet, and the value scanned so far stays within the number.
proof fn lemma_number_scan_step(s: Seq<char>, i: int, start: int, j: int, acc: u64, d: u64)
    requires
        0 <= i <= start <= j < s.len(),
        i < s.len() ==> (crate::text::spec_is_digit(s[i]) ==> start == i),
        forall|k: int| start <= k < j ==> crate::text::spec_is_digit(#[trigger] s[k]),
        crate::text::spec_is_digit(s[j]),
        d == crate::text::spec_digit_val(s[j]),
        acc as int == crate::text::dec_val(s.subrange(start, j)),
    ensures
        forall|v: u64| #[trigger]
            spec_number_at(s, i, v) ==> acc as int * 10 + d <= v,
{
    assert forall|v: u64| #[trigger] spec_number_at(s, i, v) implies acc as int * 10 + d
        <= v by {
        let ds = dec_str(v as int);
        crate::text::lemma_dec_str_digits(v as int);
        assert(s[i] == ds[0]);
        assert(crate::text::spec_is_digit(s[i]));
        assert(start == i);
        let stop = i + ds.len();
        if j >= stop {
            assert(crate::text::spec_is_digit(s[stop]));
            assert(false);
        }
        assert(s.subrange(start, j + 1) =~= ds.take(j + 1 - i));
        assert(s.subrange(start, j + 1).drop_last() =~= s.subrange(start, j));
        assert(s.subrange(start, j + 1).last() == s[j]);
        assert(crate::text::dec_val(ds.take(j + 1 - i)) == acc as int * 10 + d);
        crate::text::lemma_dec_val_prefix_le(ds, j + 1 - i);
        assert(crate::text::dec_val(ds) == v);
    }
}

/// When the scanner stops on a non-digit, the value read so far is exactly
/// the number the text spells there.
proof fn lemma_number_scan_done(s: Seq<char>, i: int, start: int, j: int, acc: u64)
    requires
        0 <= i <= start <= j <= s.len(),
        i < s.len() ==> (crate::text::spec_is_digit(s[i]) ==> start == i),
        forall|k: int| start <= k < j ==> crate::text::spec_is_digit(#[trigger] s[k]),
        j < s.len() && !crate::text::spec_is_digit(s[j]),
        acc as int == crate::text::dec_val(s.subrange(start, j)),
    ensures
        forall|v: u64| #[trigger]
            spec_number_at(s, i, v) ==> j > start && v == acc && j == i + dec_str(
                v as int,
            ).len(),
{
    assert forall|v: u64| #[trigger] spec_number_at(s, i, v) implies j > start && v == acc && j
        == i + dec_str(v as int).len() by {
        let ds = dec_str(v as int);
        crate::text::lemma_dec_str_digits(v as int);
        assert(s[i] == ds[0]);
        assert(start == i);
        let stop = i + ds.len();
        if j < stop {
            assert(s[j] == ds[j - i]);
            assert(false);
        }
        if j > stop {
            assert(crate::text::spec_is_digit(s[stop]));
            assert(false);
        }
        assert(s.subrange(start, j) =~= ds);
        assert(acc as int == crate::text::dec_val(ds));
    }
}

/// The scanner never runs off the end of text that spells a number, because
/// the number is followed by more text.
proof fn lemma_number_scan_at_end(s: Seq<char>, i: int, start: int, acc: u64)
    requires
        0 <= i <= start <= s.len(),
        i < s.len() ==> (crate::text::spec_is_digit(s[i]) ==> start == i),
        forall|k: int| start <= k < s.len() ==> crate::text::spec_is_digit(#[trigger] s[k]),
    ensures
        forall|v: u64| !#[trigger] spec_number_at(s, i, v),
{
    assert forall|v: u64| !(#[trigger] spec_number_at(s, i, v)) by {
        if spec_number_at(s, i, v) {
            let ds = dec_str(v as int);
            crate::text::lemma_dec_str_digits(v as int);
            assert(s[i] == ds[0]);
            assert(start == i);
            assert(!crate::text::spec_is_digit(s[i + ds.len()]));
            assert(crate::text::spec_is_digit(s[i + ds.len()]));
        }
    }
}

/// What it means for the text at `i` to hold the quoted, escape-free string
/// `content`.
pub open spec fn spec_string_at(s: Seq<char>, i: int, content: Seq<char>) -> bool {
    &&& 0 <= i
    &&& i + content.len() + 2 <= s.len()
    &&& s[i] == '"'
    &&& s.subrange(i + 1, i + 1 + content.len()) == content
    &&& json_safe(content)
    &&& s[i + 1 + content.len()] == '"'
}

fn parse_string_at(s: &str, i: usize) -> (r: Option<(String, usize)>)
    requires
        i <= s@.len(),
    ensures
        r matches Some(p) ==> i < p.1 <= s@.len(),
        forall|content: Seq<char>| #[trigger]
            spec_string_at(s@, i as int, content) ==> match r {
                Some(p) => p.0@ == content && p.1 == i + content.len() + 2,
                None => false,
            },
{
    let n = s.unicode_len();
    let open = skip_ws(s, i);
    if open >= n || s.get_char(open) != '"' {
        proof {
            assert forall|content: Seq<char>| !(#[trigger] spec_string_at(
                s@,
                i as int,
                content,
            )) by {
                if spec_string_at(s@, i as int, content) {
                    assert(!spec_is_ws('"'));
                    assert(open == i);
                }
            }
        }
        return None;
    }
    let mut j = open + 1;
    while j < n
        invariant
            i <= open < n,
            s@[open as int] == '"',
            i < s@.len() && !spec_is_ws(s@[i as int]) ==> open == i,
            open + 1 <= j <= n,
            n == s@.len(),
            forall|k: int| open + 1 <= k < j ==> s@[k] != '"' && s@[k] != '\\',
        decreases n - j,
    {
        let c = s.get_char(j);
        if c == '\\' {
            proof {
                lemma_string_scan_mismatch(s@, i as int, open as int, j as int);
            }
            return None;
        }
        if c == '"' {
            let piece = s.substring_char(open + 1, j);
            proof {
                assert forall|content: Seq<char>| #[trigger] spec_string_at(
                    s@,
                    i as int,
                    content,
                ) implies piece@ == content && j + 1 == i + content.len() + 2 by {
                    assert(!spec_is_ws('"'));
                    assert(open == i);
                    let close = i + 1 + content.len();
                    if j < close {
                        assert(s@[j as int] == content[j - (i + 1)]);
                        assert(s@[j as int] != '"');
                        assert(false);
                    }
                    if j > close {
                        assert(s@[close] != '"');
                        assert(false);
                    }
                    assert(piece@ =~= content);
                }
            }
            return Some((piece.to_owned(), j + 1));
        }
        j = j + 1;
    }
    proof {
        assert forall|content: Seq<char>| !(#[trigger] spec_string_at(s@, i as int, content)) by {
            if spec_string_at(s@, i as int, content) {
                assert(!spec_is_ws('"'));
                assert(open == i);
                let close = i + 1 + content.len();
                assert(s@[close] == '"');
                assert(s@[close] != '"');
            }
        }
    }
    None
}

/// A backslash under the scanner contradicts every escape-free string claim.
proof fn lemma_string_scan_mismatch(s: Seq<char>, i: int, open: int, j: int)
    requires
        0 <= i <= open < s.len(),
        s[open] == '"',
        i < s.len() ==> (!spec_is_ws(s[i]) ==> open == i),
        open + 1 <= j < s.len(),
        forall|k: int| open + 1 <= k < j ==> s[k] != '"' && s[k] != '\\',
        s[j] == '\\',
    ensures
        forall|content: Seq<char>| !(#[trigger] spec_string_at(s, i, content)),
{
    assert forall|content: Seq<char>| !(#[trigger] spec_string_at(s, i, content)) by {
        if spec_string_at(s, i, content) {
            assert(!spec_is_ws('"'));
            assert(open == i);
            let close = i + 1 + content.len();
            if j < close {
                assert(s[j] == content[j - (i + 1)]);
                assert(content[j - (i + 1)] != '\\');
                assert(false);
            }
            if j == close {
                assert(s[close] == '"');
                assert(false);
            }
            assert(s[close] != '"');
            assert(false);
        }
    }
}

/// The raw value behind a cell: its number, or nothing for an
/// unattributable cell.
pub open spec fn spec_cell_raw(cell: MetricType) -> Option<u64> {
    match cell {
        MetricType::CallsCount(v) => Some(v),
        MetricType::DurationNs(v) => Some(v),
        MetricType::AllocBytes(v) => Some(v),
        MetricType::AllocCount(v) => Some(v),
        MetricType::Percentage(v) => Some(v),
        MetricType::Unsupported => None,
    }
}

/// What it means for the text at `i` to spell a cell value and stop: the
/// cell's text stands there, followed by a character that is not a digit.
pub open spec fn spec_cell_at(s: Seq<char>, i: int, cell: MetricType) -> bool {
    &&& 0 <= i
    &&& i + cell_value_text(cell).len() < s.len()
    &&& s.subrange(i, i + cell_value_text(cell).len()) == cell_value_text(cell)
    &&& !crate::text::spec_is_digit(s[i + cell_value_text(cell).len()])
}

/// A parsed cell value: a plain number, or nothing for `null`.
fn parse_cell_value(s: &str, i: usize) -> (r: Option<(Option<u64>, usize)>)
    requires
        i <= s@.len(),
    ensures
        r matches Some(p) ==> i < p.1 <= s@.len(),
        forall|cell: MetricType| #[trigger]
            spec_cell_at(s@, i as int, cell) ==> r == Some(
                (spec_cell_raw(cell), (i + cell_value_text(cell).len()) as usize),
            ),
{
    proof {
        reveal_strlit("null");
    }
    let n = s.unicode_len();
    let j = skip_ws(s, i);
    if j < n && n - j >= 4 && s.get_char(j) == 'n' && s.get_char(j + 1) == 'u' && s.get_char(
        j + 2,
    ) == 'l' && s.get_char(j + 3) == 'l' {
        proof {
            assert forall|cell: MetricType| #[trigger] spec_cell_at(s@, i as int, cell) implies (
            Some((None::<u64>, (j + 4) as usize)) == Some(
                (spec_cell_raw(cell), (i + cell_value_text(cell).len()) as usize),
            )) by {
                lemma_cell_starts(s@, i as int, cell);
                assert(j == i);
                match cell {
                    MetricType::Unsupported => {
                        assert(cell_value_text(cell).len() == 4);
                        assert(spec_cell_raw(cell) is None);
                    },
                    _ => {
                        let v = spec_cell_raw(cell).unwrap();
                        crate::text::lemma_dec_str_digits(v as int);
                        assert(s@[i as int] == dec_str(v as int)[0]);
                        assert(crate::text::spec_is_digit(s@[i as int]));
                        assert(s@[i as int] == 'n');
                        assert(false);
                    },
                }
            }
        }
        return Some((None, j + 4));
    }
    proof {
        assert forall|cell: MetricType| #[trigger] spec_cell_at(s@, i as int, cell) implies !(
        cell is Unsupported) by {
            if cell is Unsupported {
                lemma_cell_starts(s@, i as int, cell);
                assert(j == i);
                assert(cell_value_text(cell).len() == 4);
                assert(s@[i as int] == 'n' && s@[i as int + 1] == 'u' && s@[i as int + 2] == 'l'
                    && s@[i as int + 3] == 'l');
                assert(n - j >= 4);
                assert(false);
            }
        }
        assert forall|cell: MetricType| #[trigger] spec_cell_at(s@, i as int, cell) implies
            spec_number_at(s@, i as int, spec_cell_raw(cell).unwrap()) by {
            lemma_cell_starts(s@, i as int, cell);
        }
    }
    let parsed = parse_u64_at(s, i);
    proof {
        assert forall|cell: MetricType| #[trigger] spec_cell_at(s@, i as int, cell) implies (match
        parsed {
            Some(p) => Some((Some(p.0), p.1)) == Some::<(Option<u64>, usize)>(
                (spec_cell_raw(cell), (i + cell_value_text(cell).len()) as usize),
            ),
            None => false,
        }) by {
            let v = spec_cell_raw(cell).unwrap();
            assert(spec_number_at(s@, i as int, v));
            assert(cell_value_text(cell).len() == dec_str(v as int).len());
        }
    }
    match parsed {
        Some((v, j2)) => Some((Some(v), j2)),
        None => None,
    }
}

/// A cell's text begins at its own first character: it is never preceded by
/// whitespace, and a numeric cell spells its number exactly.
proof fn lemma_cell_starts(s: Seq<char>, i: int, cell: MetricType)
    requires
        spec_cell_at(s, i, cell),
    ensures
        !spec_is_ws(s[i]),
        !(cell is Unsupported) ==> spec_number_at(s, i, spec_cell_raw(cell).unwrap())
            && crate::text::spec_is_digit(s[i]),
        cell is Unsupported ==> cell_value_text(cell).len() == 4 && s[i] == 'n' && s[i + 1] == 'u'
            && s[i + 2] == 'l' && s[i + 3] == 'l',
{
    reveal_strlit("null");
    match cell {
        MetricType::Unsupported => {
            assert(cell_value_text(cell) == "null"@);
            assert(s[i] == cell_value_text(cell)[0]);
            assert(s[i + 1] == cell_value_text(cell)[1]);
            assert(s[i + 2] == cell_value_text(cell)[2]);
            assert(s[i + 3] == cell_value_text(cell)[3]);
        },
        _ => {
            let v = spec_cell_raw(cell).unwrap();
            assert(cell_value_text(cell) == dec_str(v as int));
            crate::text::lemma_dec_str_digits(v as int);
            assert(s.subrange(i, i + dec_str(v as int).len()) == dec_str(v as int));
            assert(s[i] == dec_str(v as int)[0]);
        },
    }
}


/// A value cell fits the profiling mode: it is either unattributable or the
/// mode's own value kind.
pub open spec fn spec_mode_cell_ok(mode: ProfilingMode, cell: MetricType) -> bool {
    match cell {
        MetricType::Unsupported => true,
        _ => cell == crate::report::spec_value_metric(mode, spec_cell_raw(cell).unwrap()),
    }
}

/// The value cell of a profiling mode: durations for timing, byte or count
/// quantities for the allocation modes.
fn mode_cell(mode: ProfilingMode, v: Option<u64>) -> (r: MetricType)
    ensures
        r == match v {
            Some(x) => crate::report::spec_value_metric(mode, x),
            None => MetricType::Unsupported,
        },
{
    match v {
        None => MetricType::Unsupported,
        Some(x) => match mode {
            ProfilingMode::Timing => MetricType::DurationNs(x),
            ProfilingMode::AllocBytesTotal => MetricType::AllocBytes(x),
            ProfilingMode::AllocBytesMax => MetricType::AllocBytes(x),
            ProfilingMode::AllocCountTotal => MetricType::AllocCount(x),
            ProfilingMode::AllocCountMax => MetricType::AllocCount(x),
        },
    }
}

/// What it means for the text at `i` to hold the quoted key and its colon.
pub open spec fn spec_key_at(s: Seq<char>, i: int, key: Seq<char>) -> bool {
    &&& spec_string_at(s, i, key)
    &&& i + key.len() + 3 <= s.len()
    &&& s[i + key.len() + 2] == ':'
}

/// Expects `"key":` with the exact given key next, and returns the position
/// after the colon.
fn expect_key(s: &str, i: usize, key: &str) -> (r: Option<usize>)
    requires
        i <= s@.len(),
    ensures
        r matches Some(j) ==> i < j <= s@.len(),
        spec_key_at(s@, i as int, key@) ==> r == Some((i + key@.len() + 3) as usize),
{
    match parse_string_at(s, i) {
        Some((k, j)) => {
            proof {
                if spec_key_at(s@, i as int, key@) {
                    assert(k@ == key@ && j == i + key@.len() + 2);
                    assert(s@[j as int] == ':');
                    assert(!spec_is_ws(':'));
                }
            }
            if k.eq(&key.to_owned()) {
                expect_token(s, j, ':')
            } else {
                None
            }
        },
        None => {
            proof {
                if spec_key_at(s@, i as int, key@) {
                    assert(spec_string_at(s@, i as int, key@));
                    assert(false);
                }
            }
            None
        },
    }
}

/// A row fits the profiling mode: a call count first, the mode's value kind
/// in the middle, a percentage last, with any cell allowed to be
/// unattributable.
pub open spec fn spec_row_cells_ok(mode: ProfilingMode, row: Seq<MetricType>, ps: Seq<u8>) -> bool {
    &&& row.len() == ps.len() + 4
    &&& (row[0] is CallsCount || row[0] is Unsupported)
    &&& forall|k: int| 1 <= k < row.len() - 1 ==> spec_mode_cell_ok(mode, #[trigger] row[k])
    &&& (row[row.len() - 1] is Percentage || row[row.len() - 1] is Unsupported)
}

/// What it means for the text at `i` to hold one function's whole cell
/// object for a row that fits the mode.
pub open spec fn spec_cells_at(
    s: Seq<char>,
    i: int,
    mode: ProfilingMode,
    row: Seq<MetricType>,
    ps: Seq<u8>,
) -> bool {
    &&& 0 <= i
    &&& spec_row_cells_ok(mode, row, ps)
    &&& i + 1 + row_members_text(row, ps, 0).len() + 1 <= s.len()
    &&& s.subrange(i, i + 1 + row_members_text(row, ps, 0).len() + 1) == "{"@ + row_members_text(
        row,
        ps,
        0,
    ) + "}"@
}

/// Where member `k` of a cell object starts, one past the object's opening
/// brace plus the members already written.
pub open spec fn spec_member_pos(i: int, row: Seq<MetricType>, ps: Seq<u8>, k: int) -> int {
    i + 1 + row_members_text(row, ps, 0).len() - row_members_text(row, ps, k).len()
}

/// From member `k` on, the object's text is exactly the remaining members.
proof fn lemma_members_suffix(
    s: Seq<char>,
    i: int,
    mode: ProfilingMode,
    row: Seq<MetricType>,
    ps: Seq<u8>,
    k: int,
)
    requires
        spec_cells_at(s, i, mode, row, ps),
        0 <= k <= row.len(),
    ensures
        row_members_text(row, ps, k).len() <= row_members_text(row, ps, 0).len(),
        i + 1 <= spec_member_pos(i, row, ps, k),
        spec_member_pos(i, row, ps, k) + row_members_text(row, ps, k).len() == i + 1
            + row_members_text(row, ps, 0).len(),
        s.subrange(
            spec_member_pos(i, row, ps, k),
            i + 1 + row_members_text(row, ps, 0).len(),
        ) == row_members_text(row, ps, k),
    decreases k,
{
    reveal_strlit("{");
    reveal_strlit("}");
    let m0 = row_members_text(row, ps, 0);
    let whole = "{"@ + m0 + "}"@;
    let top = i + 1 + m0.len();
    assert(s.subrange(i, top + 1) == whole);
    assert(s.subrange(i, top + 1).len() == whole.len());
    assert(top + 1 <= s.len());
    if k == 0 {
        assert forall|x: int| i + 1 <= x < top implies s[x] == m0[x - (i + 1)] by {
            assert(s[x] == s.subrange(i, top + 1)[x - i]);
            assert(whole[x - i] == m0[x - i - 1]);
        }
        assert(s.subrange(i + 1, top) =~= m0);
    } else {
        lemma_members_suffix(s, i, mode, row, ps, k - 1);
        let prev = spec_member_pos(i, row, ps, k - 1);
        let mk1 = row_members_text(row, ps, k - 1);
        let mk = row_members_text(row, ps, k);
        let piece = (if k - 1 > 0 {
            ","@
        } else {
            Seq::<char>::empty()
        }) + "\""@ + cell_key(ps, k - 1) + "\":"@ + cell_value_text(row[k - 1]);
        assert(mk1 == piece + mk);
        assert(mk1.len() == piece.len() + mk.len());
        assert(prev + mk1.len() == top);
        assert(i + 1 <= prev);
        assert(spec_member_pos(i, row, ps, k) == prev + piece.len());
        assert forall|x: int| prev + piece.len() <= x < top implies s[x] == mk[x - (prev
            + piece.len())] by {
            assert(s.subrange(prev, top).len() == mk1.len());
            assert(s[x] == s.subrange(prev, top)[x - prev]);
            assert(mk1[x - prev] == (piece + mk)[x - prev]);
            assert((piece + mk)[x - prev] == mk[x - prev - piece.len()]);
        }
        assert(s.subrange(prev + piece.len(), top) =~= mk);
    }
}

/// Every cell key is escape-free text.
proof fn lemma_cell_key_safe(ps: Seq<u8>, k: int)
    requires
        0 <= k,
    ensures
        json_safe(cell_key(ps, k)),
{
    reveal_strlit("calls");
    reveal_strlit("avg");
    reveal_strlit("p");
    reveal_strlit("total");
    reveal_strlit("percent_total");
    assert(json_safe("calls"@)) by {
        assert forall|x: int| 0 <= x < "calls"@.len() implies "calls"@[x] != '"'
            && "calls"@[x] != '\\' by {
            if x == 0 {
                assert("calls"@[0] == 'c');
            } else if x == 1 {
                assert("calls"@[1] == 'a');
            } else if x == 2 {
                assert("calls"@[2] == 'l');
            } else if x == 3 {
                assert("calls"@[3] == 'l');
            } else if x == 4 {
                assert("calls"@[4] == 's');
            }
        }
    }
    assert(json_safe("avg"@)) by {
        assert forall|x: int| 0 <= x < "avg"@.len() implies "avg"@[x] != '"'
            && "avg"@[x] != '\\' by {
            if x == 0 {
                assert("avg"@[0] == 'a');
            } else if x == 1 {
                assert("avg"@[1] == 'v');
            } else if x == 2 {
                assert("avg"@[2] == 'g');
            }
        }
    }
    assert(json_safe("p"@)) by {
        assert forall|x: int| 0 <= x < "p"@.len() implies "p"@[x] != '"'
            && "p"@[x] != '\\' by {
            if x == 0 {
                assert("p"@[0] == 'p');
            }
        }
    }
    assert(json_safe("total"@)) by {
        assert forall|x: int| 0 <= x < "total"@.len() implies "total"@[x] != '"'
            && "total"@[x] != '\\' by {
            if x == 0 {
                assert("total"@[0] == 't');
            } else if x == 1 {
                assert("total"@[1] == 'o');
            } else if x == 2 {
                assert("total"@[2] == 't');
            } else if x == 3 {
                assert("total"@[3] == 'a');
            } else if x == 4 {
                assert("total"@[4] == 'l');
            }
        }
    }
    assert(json_safe("percent_total"@)) by {
        assert forall|x: int| 0 <= x < "percent_total"@.len() implies "percent_total"@[x] != '"'
            && "percent_total"@[x] != '\\' by {
            if x == 0 {
                assert("percent_total"@[0] == 'p');
            } else if x == 1 {
                assert("percent_total"@[1] == 'e');
            } else if x == 2 {
                assert("percent_total"@[2] == 'r');
            } else if x == 3 {
                assert("percent_total"@[3] == 'c');
            } else if x == 4 {
                assert("percent_total"@[4] == 'e');
            } else if x == 5 {
                assert("percent_total"@[5] == 'n');
            } else if x == 6 {
                assert("percent_total"@[6] == 't');
            } else if x == 7 {
                assert("percent_total"@[7] == '_');
            } else if x == 8 {
                assert("percent_total"@[8] == 't');
            } else if x == 9 {
                assert("percent_total"@[9] == 'o');
            } else if x == 10 {
                assert("percent_total"@[10] == 't');
            } else if x == 11 {
                assert("percent_total"@[11] == 'a');
            } else if x == 12 {
                assert("percent_total"@[12] == 'l');
            }
        }
    }
    if 2 <= k < 2 + ps.len() {
        let key = "p"@ + dec_str(ps[k - 2] as int);
        crate::text::lemma_dec_str_digits(ps[k - 2] as int);
        assert forall|x: int| 0 <= x < key.len() implies key[x] != '"' && key[x] != '\\' by {
            if x >= 1 {
                assert(key[x] == dec_str(ps[k - 2] as int)[x - 1]);
                assert(crate::text::spec_is_digit(key[x]));
            }
        }
    }
}

/// What member `k` of a cell object contributes to the text: its separator,
/// its quoted key and colon, its value cell with a non-digit terminator, and
/// where the next member begins.
proof fn lemma_member_facts(
    s: Seq<char>,
    i: int,
    mode: ProfilingMode,
    row: Seq<MetricType>,
    ps: Seq<u8>,
    k: int,
)
    requires
        spec_cells_at(s, i, mode, row, ps),
        0 <= k < row.len(),
    ensures
        ({
            let pos = spec_member_pos(i, row, ps, k);
            let after_sep = pos + if k > 0 {
                1int
            } else {
                0int
            };
            let key = cell_key(ps, k);
            let cpos = after_sep + key.len() + 3;
            &&& i + 1 <= pos
            &&& (k > 0 ==> s[pos] == ',')
            &&& spec_key_at(s, after_sep, key)
            &&& spec_cell_at(s, cpos, row[k])
            &&& spec_member_pos(i, row, ps, k + 1) == cpos + cell_value_text(row[k]).len()
            &&& (k + 1 < row.len() ==> s[cpos + cell_value_text(row[k]).len()] == ',')
            &&& (k + 1 == row.len() ==> s[cpos + cell_value_text(row[k]).len()] == '}'
                && cpos + cell_value_text(row[k]).len() == i + 1 + row_members_text(
                row,
                ps,
                0,
            ).len())
        }),
{
    reveal_strlit("{");
    reveal_strlit("}");
    reveal_strlit(",");
    reveal_strlit("\"");
    reveal_strlit("\":");
    lemma_members_suffix(s, i, mode, row, ps, k);
    lemma_members_suffix(s, i, mode, row, ps, k + 1);
    lemma_cell_key_safe(ps, k);
    let m0 = row_members_text(row, ps, 0);
    let top = i + 1 + m0.len();
    let pos = spec_member_pos(i, row, ps, k);
    let mk = row_members_text(row, ps, k);
    let sep: Seq<char> = if k > 0 {
        ","@
    } else {
        Seq::<char>::empty()
    };
    let key = cell_key(ps, k);
    let cell = cell_value_text(row[k]);
    let q1 = sep + "\""@;
    let q2 = q1 + key;
    let q3 = q2 + "\":"@;
    let piece = q3 + cell;
    assert(mk == (sep + "\""@ + key + "\":"@ + cell) + row_members_text(row, ps, k + 1));
    assert(piece =~= sep + "\""@ + key + "\":"@ + cell);
    assert(mk =~= piece + row_members_text(row, ps, k + 1));
    assert(s.subrange(pos, top).len() == mk.len());
    assert forall|off: int| 0 <= off < piece.len() implies s[pos + off] == piece[off] by {
        assert(s[pos + off] == s.subrange(pos, top)[off]);
        assert(mk[off] == (piece + row_members_text(row, ps, k + 1))[off]);
    }
    let after_sep = pos + sep.len();
    if k > 0 {
        assert(s[pos] == piece[0]);
        assert(piece[0] == q3[0] && q3[0] == q2[0] && q2[0] == q1[0] && q1[0] == sep[0]);
        assert(sep[0] == ',');
    }
    assert(piece[sep.len() as int] == q3[sep.len() as int] && q3[sep.len() as int] == q2[
        sep.len() as int
    ] && q2[sep.len() as int] == q1[sep.len() as int]);
    assert(q1[sep.len() as int] == '"');
    assert(s[after_sep] == '"');
    assert forall|x: int| 0 <= x < key.len() implies s[after_sep + 1 + x] == key[x] by {
        let off = sep.len() as int + 1 + x;
        assert(s[pos + off] == piece[off]);
        assert(piece[off] == q3[off] && q3[off] == q2[off]);
        assert(q2[off] == key[x]);
    }
    assert(s.subrange(after_sep + 1, after_sep + 1 + key.len()) =~= key);
    assert(piece[sep.len() as int + 1 + key.len() as int] == q3[sep.len() as int + 1 + key.len() as int]);
    assert(q3[sep.len() as int + 1 + key.len() as int] == "\":"@[0]);
    assert(s[after_sep + 1 + key.len()] == '"');
    assert(piece[sep.len() as int + 2 + key.len() as int] == q3[sep.len() as int + 2 + key.len() as int]);
    assert(q3[sep.len() as int + 2 + key.len() as int] == "\":"@[1]);
    assert(s[after_sep + key.len() + 2] == ':');
    let cpos = after_sep + key.len() + 3;
    assert(spec_key_at(s, after_sep, key));
    assert forall|x: int| 0 <= x < cell.len() implies s[cpos + x] == cell[x] by {
        let off = sep.len() as int + 3 + key.len() as int + x;
        assert(s[pos + off] == piece[off]);
        assert(piece[off] == cell[x]);
    }
    assert(s.subrange(cpos, cpos + cell.len()) =~= cell);
    assert(spec_member_pos(i, row, ps, k + 1) == cpos + cell.len());
    let nextpos = cpos + cell.len();
    if k + 1 < row.len() {
        let mnext = row_members_text(row, ps, k + 1);
        assert(mnext == (","@ + "\""@ + cell_key(ps, k + 1) + "\":"@ + cell_value_text(
            row[k + 1],
        )) + row_members_text(row, ps, k + 2));
        assert(s.subrange(nextpos, top).len() == mnext.len());
        assert(s[nextpos] == s.subrange(nextpos, top)[0]);
        assert(mnext[0] == ',');
        assert(s[nextpos] == ',');
    } else {
        assert(row_members_text(row, ps, k + 1).len() == 0);
        assert(nextpos == top);
        assert(s[top] == s.subrange(i, top + 1)[top - i]);
        assert(("{"@ + m0 + "}"@)[top - i] == "}"@[0]);
        assert(s[top] == '}');
    }
    assert(!crate::text::spec_is_digit(s[nextpos]));
    assert(spec_cell_at(s, cpos, row[k]));
}

/// Parses one function's cell object: `calls`, `avg`, the `p<N>` cells,
/// `total`, `percent_total`, in that order. Returns the row and the
/// percentiles named by the `p` keys.
/// Reads the percentile a `p<N>` key names.
fn percentile_of_key(key: &String) -> (r: Option<u8>)
    ensures
        forall|p: u8| key@ == "p"@ + dec_str(p as int) ==> r == Some(p),
{
    proof {
        reveal_strlit("p");
    }
    if key.as_str().unicode_len() < 2 || key.as_str().get_char(0) != 'p' {
        proof {
            assert forall|p: u8| key@ != "p"@ + dec_str(p as int) by {
                if key@ == "p"@ + dec_str(p as int) {
                    crate::text::lemma_dec_str_digits(p as int);
                    assert(key@.len() >= 2);
                    assert(key@[0] == 'p');
                }
            }
        }
        return None;
    }
    let digits = key.as_str().substring_char(1, key.as_str().unicode_len());
    proof {
        assert forall|p: u8| key@ == "p"@ + dec_str(p as int) implies digits@ == dec_str(
            p as int,
        ) by {
            assert(digits@ =~= dec_str(p as int));
        }
    }
    let m = digits.unicode_len();
    let mut p_val: u64 = 0;
    let mut d: usize = 0;
    while d < m
        invariant
            d <= m,
            m == digits@.len(),
            m >= 1,
            p_val <= 255,
            forall|p: u8| key@ == "p"@ + dec_str(p as int) ==> digits@ == dec_str(p as int),
            forall|x: int| 0 <= x < d ==> crate::text::spec_is_digit(#[trigger] digits@[x]),
            p_val as int == crate::text::dec_val(digits@.take(d as int)),
        decreases m - d,
    {
        match digit_of(digits.get_char(d)) {
            Some(dv) => {
                proof {
                    assert(digits@.take(d as int + 1).drop_last() =~= digits@.take(d as int));
                    assert(digits@.take(d as int + 1).last() == digits@[d as int]);
                    assert forall|p: u8| digits@ == dec_str(p as int) implies p_val * 10 + dv
                        <= 255 by {
                        crate::text::lemma_dec_str_digits(p as int);
                        crate::text::lemma_dec_val_prefix_le(dec_str(p as int), d as int + 1);
                        assert(crate::text::dec_val(digits@.take(d as int + 1)) == p_val as int
                            * 10 + dv);
                    }
                }
                if p_val > 25 || (p_val == 25 && dv > 5) {
                    proof {
                        assert forall|p: u8| key@ != "p"@ + dec_str(p as int) by {
                            if key@ == "p"@ + dec_str(p as int) {
                                assert(digits@ == dec_str(p as int));
                                assert(p_val * 10 + dv <= 255);
                                assert(p_val * 10 + dv > 255);
                            }
                        }
                    }
                    return None;
                }
                p_val = p_val * 10 + dv;
            },
            None => {
                proof {
                    assert forall|p: u8| key@ != "p"@ + dec_str(p as int) by {
                        if key@ == "p"@ + dec_str(p as int) {
                            assert(digits@ == dec_str(p as int));
                            crate::text::lemma_dec_str_digits(p as int);
                            assert(crate::text::spec_is_digit(digits@[d as int]));
                        }
                    }
                }
                return None;
            },
        }
        d = d + 1;
    }
    proof {
        assert(digits@.take(m as int) =~= digits@);
        assert forall|p: u8| key@ == "p"@ + dec_str(p as int) implies p_val == p by {
            crate::text::lemma_dec_str_digits(p as int);
            assert(digits@ == dec_str(p as int));
            assert(p_val as int == crate::text::dec_val(dec_str(p as int)));
        }
    }
    Some(p_val as u8)
}

#[verifier::rlimit(100)]
fn parse_function_cells(s: &str, i: usize, mode: ProfilingMode) -> (r: Option<
    (Vec<MetricType>, Vec<u8>, usize),
>)
    requires
        i <= s@.len(),
    ensures
        r matches Some(p) ==> i < p.2 <= s@.len() && p.0@.len() == p.1@.len() + 4,
        forall|row0: Seq<MetricType>, ps0: Seq<u8>| #[trigger]
            spec_cells_at(s@, i as int, mode, row0, ps0) ==> match r {
                Some(p) => p.0@ == row0 && p.1@ == ps0 && p.2 == i + 1 + row_members_text(
                    row0,
                    ps0,
                    0,
                ).len() + 1,
                None => false,
            },
{
    proof {
        reveal_strlit("{");
        reveal_strlit("calls");
        reveal_strlit("avg");
        reveal_strlit("p");
        reveal_strlit("total");
        reveal_strlit("percent_total");
    }
    let n = s.unicode_len();
    let mut row: Vec<MetricType> = Vec::new();
    let mut percentiles: Vec<u8> = Vec::new();
    let a1 = match expect_token(s, i, '{') {
        Some(j) => j,
        None => {
            proof {
                assert forall|row0: Seq<MetricType>, ps0: Seq<u8>| !(#[trigger] spec_cells_at(
                    s@,
                    i as int,
                    mode,
                    row0,
                    ps0,
                )) by {
                    if spec_cells_at(s@, i as int, mode, row0, ps0) {
                        lemma_members_suffix(s@, i as int, mode, row0, ps0, 0);
                        assert(s@[i as int] == s@.subrange(
                            i as int,
                            i + 1 + row_members_text(row0, ps0, 0).len() + 1,
                        )[0]);
                        assert(s@[i as int] == '{');
                    }
                }
            }
            return None;
        },
    };
    proof {
        assert forall|row0: Seq<MetricType>, ps0: Seq<u8>| #[trigger] spec_cells_at(
            s@,
            i as int,
            mode,
            row0,
            ps0,
        ) implies a1 == i + 1 && spec_member_pos(i as int, row0, ps0, 0) == i + 1 by {
            lemma_members_suffix(s@, i as int, mode, row0, ps0, 0);
            assert(s@[i as int] == s@.subrange(
                i as int,
                i + 1 + row_members_text(row0, ps0, 0).len() + 1,
            )[0]);
            assert(s@[i as int] == '{');
        }
    }
    let a2 = match expect_key(s, a1, "calls") {
        Some(j) => j,
        None => {
            proof {
                assert forall|row0: Seq<MetricType>, ps0: Seq<u8>| !(#[trigger] spec_cells_at(
                    s@,
                    i as int,
                    mode,
                    row0,
                    ps0,
                )) by {
                    if spec_cells_at(s@, i as int, mode, row0, ps0) {
                        lemma_member_facts(s@, i as int, mode, row0, ps0, 0);
                        assert(spec_key_at(s@, a1 as int, "calls"@));
                    }
                }
            }
            return None;
        },
    };
    let (calls, a3) = match parse_cell_value(s, a2) {
        Some(p) => p,
        None => {
            proof {
                assert forall|row0: Seq<MetricType>, ps0: Seq<u8>| !(#[trigger] spec_cells_at(
                    s@,
                    i as int,
                    mode,
                    row0,
                    ps0,
                )) by {
                    if spec_cells_at(s@, i as int, mode, row0, ps0) {
                        lemma_member_facts(s@, i as int, mode, row0, ps0, 0);
                        assert(a2 == i + 1 + "calls"@.len() + 3);
                        assert(spec_cell_at(s@, a2 as int, row0[0]));
                    }
                }
            }
            return None;
        },
    };
    row.push(
        match calls {
            Some(c) => MetricType::CallsCount(c),
            None => MetricType::Unsupported,
        },
    );
    proof {
        assert forall|row0: Seq<MetricType>, ps0: Seq<u8>| #[trigger] spec_cells_at(
            s@,
            i as int,
            mode,
            row0,
            ps0,
        ) implies row@ == row0.take(1) && a3 == spec_member_pos(i as int, row0, ps0, 1) by {
            lemma_member_facts(s@, i as int, mode, row0, ps0, 0);
            assert(spec_cell_at(s@, a2 as int, row0[0]));
            assert(calls == spec_cell_raw(row0[0]));
            assert(row@[0] == row0[0]);
            assert(row@ =~= row0.take(1));
        }
    }
    let a4 = match expect_token(s, a3, ',') {
        Some(j) => j,
        None => {
            proof {
                assert forall|row0: Seq<MetricType>, ps0: Seq<u8>| !(#[trigger] spec_cells_at(
                    s@,
                    i as int,
                    mode,
                    row0,
                    ps0,
                )) by {
                    if spec_cells_at(s@, i as int, mode, row0, ps0) {
                        lemma_member_facts(s@, i as int, mode, row0, ps0, 1);
                        assert(s@[a3 as int] == ',');
                    }
                }
            }
            return None;
        },
    };
    let a5 = match expect_key(s, a4, "avg") {
        Some(j) => j,
        None => {
            proof {
                assert forall|row0: Seq<MetricType>, ps0: Seq<u8>| !(#[trigger] spec_cells_at(
                    s@,
                    i as int,
                    mode,
                    row0,
                    ps0,
                )) by {
                    if spec_cells_at(s@, i as int, mode, row0, ps0) {
                        lemma_member_facts(s@, i as int, mode, row0, ps0, 1);
                        assert(spec_key_at(s@, a4 as int, "avg"@));
                    }
                }
            }
            return None;
        },
    };
    let (avg, a6) = match parse_cell_value(s, a5) {
        Some(p) => p,
        None => {
            proof {
                assert forall|row0: Seq<MetricType>, ps0: Seq<u8>| !(#[trigger] spec_cells_at(
                    s@,
                    i as int,
                    mode,
                    row0,
                    ps0,
                )) by {
                    if spec_cells_at(s@, i as int, mode, row0, ps0) {
                        lemma_member_facts(s@, i as int, mode, row0, ps0, 1);
                        assert(spec_cell_at(s@, a5 as int, row0[1]));
                    }
                }
            }
            return None;
        },
    };
    row.push(mode_cell(mode, avg));
    proof {
        assert forall|row0: Seq<MetricType>, ps0: Seq<u8>| #[trigger] spec_cells_at(
            s@,
            i as int,
            mode,
            row0,
            ps0,
        ) implies row@ == row0.take(2) && percentiles@ == ps0.take(0) && a6 == spec_member_pos(
            i as int,
            row0,
            ps0,
            2,
        ) by {
            lemma_member_facts(s@, i as int, mode, row0, ps0, 1);
            assert(spec_cell_at(s@, a5 as int, row0[1]));
            assert(avg == spec_cell_raw(row0[1]));
            assert(spec_mode_cell_ok(mode, row0[1]));
            assert(row@[1] == row0[1]);
            assert(row@ =~= row0.take(2));
            assert(percentiles@ =~= ps0.take(0));
        }
    }
    let mut pos = a6;
    loop
        invariant_except_break
            row@.len() == percentiles@.len() + 2,
            forall|row0: Seq<MetricType>, ps0: Seq<u8>| #[trigger]
                spec_cells_at(s@, i as int, mode, row0, ps0) ==> {
                    &&& percentiles@.len() <= ps0.len()
                    &&& row@ == row0.take(2 + percentiles@.len() as int)
                    &&& percentiles@ == ps0.take(percentiles@.len() as int)
                    &&& pos == spec_member_pos(
                        i as int,
                        row0,
                        ps0,
                        2 + percentiles@.len() as int,
                    )
                },
        invariant
            i < pos <= n,
            n == s@.len(),
        ensures
            i < pos <= n,
            row@.len() == percentiles@.len() + 3,
            forall|row0: Seq<MetricType>, ps0: Seq<u8>| #[trigger]
                spec_cells_at(s@, i as int, mode, row0, ps0) ==> {
                    &&& row@ == row0.take(row0.len() - 1)
                    &&& percentiles@ == ps0
                    &&& pos == spec_member_pos(i as int, row0, ps0, row0.len() - 1)
                },
        decreases n - pos,
    {
        let ghost t = percentiles@.len() as int;
        let c1 = match expect_token(s, pos, ',') {
            Some(j) => j,
            None => {
                proof {
                    assert forall|row0: Seq<MetricType>, ps0: Seq<u8>| !(#[trigger] spec_cells_at(
                        s@,
                        i as int,
                        mode,
                        row0,
                        ps0,
                    )) by {
                        if spec_cells_at(s@, i as int, mode, row0, ps0) {
                            lemma_member_facts(s@, i as int, mode, row0, ps0, 2 + t);
                            assert(s@[pos as int] == ',');
                        }
                    }
                }
                return None;
            },
        };
        let (key, c2) = match parse_string_at(s, c1) {
            Some(p) => p,
            None => {
                proof {
                    assert forall|row0: Seq<MetricType>, ps0: Seq<u8>| !(#[trigger] spec_cells_at(
                        s@,
                        i as int,
                        mode,
                        row0,
                        ps0,
                    )) by {
                        if spec_cells_at(s@, i as int, mode, row0, ps0) {
                            lemma_member_facts(s@, i as int, mode, row0, ps0, 2 + t);
                            assert(spec_string_at(s@, c1 as int, cell_key(ps0, 2 + t)));
                        }
                    }
                }
                return None;
            },
        };
        let c3 = match expect_token(s, c2, ':') {
            Some(j) => j,
            None => {
                proof {
                    assert forall|row0: Seq<MetricType>, ps0: Seq<u8>| !(#[trigger] spec_cells_at(
                        s@,
                        i as int,
                        mode,
                        row0,
                        ps0,
                    )) by {
                        if spec_cells_at(s@, i as int, mode, row0, ps0) {
                            lemma_member_facts(s@, i as int, mode, row0, ps0, 2 + t);
                            assert(spec_string_at(s@, c1 as int, cell_key(ps0, 2 + t)));
                            assert(key@ == cell_key(ps0, 2 + t));
                            assert(c2 == c1 + key@.len() + 2);
                            assert(s@[c2 as int] == ':');
                        }
                    }
                }
                return None;
            },
        };
        let (v, c4) = match parse_cell_value(s, c3) {
            Some(p) => p,
            None => {
                proof {
                    assert forall|row0: Seq<MetricType>, ps0: Seq<u8>| !(#[trigger] spec_cells_at(
                        s@,
                        i as int,
                        mode,
                        row0,
                        ps0,
                    )) by {
                        if spec_cells_at(s@, i as int, mode, row0, ps0) {
                            lemma_member_facts(s@, i as int, mode, row0, ps0, 2 + t);
                            assert(key@ == cell_key(ps0, 2 + t));
                            assert(c3 == c1 + key@.len() + 3);
                            assert(spec_cell_at(s@, c3 as int, row0[2 + t]));
                        }
                    }
                }
                return None;
            },
        };
        proof {
            assert forall|row0: Seq<MetricType>, ps0: Seq<u8>| #[trigger] spec_cells_at(
                s@,
                i as int,
                mode,
                row0,
                ps0,
            ) implies {
                &&& key@ == cell_key(ps0, 2 + t)
                &&& v == spec_cell_raw(row0[2 + t])
                &&& c4 == spec_member_pos(i as int, row0, ps0, 2 + t + 1)
                &&& (t == ps0.len() ==> key@ == "total"@)
                &&& (t < ps0.len() ==> key@ == "p"@ + dec_str(ps0[t] as int) && key@
                    != "total"@)
            } by {
                lemma_member_facts(s@, i as int, mode, row0, ps0, 2 + t);
                assert(key@ == cell_key(ps0, 2 + t));
                assert(c3 == c1 + key@.len() + 3);
                assert(spec_cell_at(s@, c3 as int, row0[2 + t]));
                if t < ps0.len() {
                    reveal_strlit("p");
                    reveal_strlit("total");
                    crate::text::lemma_dec_str_digits(ps0[t] as int);
                    assert(key@ == "p"@ + dec_str(ps0[t] as int));
                    assert(key@[0] == 'p');
                    assert("total"@[0] == 't');
                }
            }
        }
        let total_key = string_from("total");
        if key.eq(&total_key) {
            row.push(mode_cell(mode, v));
            pos = c4;
            proof {
                assert forall|row0: Seq<MetricType>, ps0: Seq<u8>| #[trigger] spec_cells_at(
                    s@,
                    i as int,
                    mode,
                    row0,
                    ps0,
                ) implies {
                    &&& row@ == row0.take(row0.len() - 1)
                    &&& percentiles@ == ps0
                    &&& pos == spec_member_pos(i as int, row0, ps0, row0.len() - 1)
                } by {
                    assert(t == ps0.len());
                    assert(percentiles@ =~= ps0);
                    assert(spec_mode_cell_ok(mode, row0[2 + t]));
                    assert(row@[2 + t] == row0[2 + t]);
                    assert(row@ =~= row0.take(row0.len() - 1));
                }
            }
            break ;
        }
        let p_val = match percentile_of_key(&key) {
            Some(p) => p,
            None => {
                proof {
                    assert forall|row0: Seq<MetricType>, ps0: Seq<u8>| !(#[trigger] spec_cells_at(
                        s@,
                        i as int,
                        mode,
                        row0,
                        ps0,
                    )) by {
                        if spec_cells_at(s@, i as int, mode, row0, ps0) {
                            assert(t < ps0.len());
                            assert(key@ == "p"@ + dec_str(ps0[t] as int));
                        }
                    }
                }
                return None;
            },
        };
        row.push(mode_cell(mode, v));
        percentiles.push(p_val);
        proof {
            assert forall|row0: Seq<MetricType>, ps0: Seq<u8>| #[trigger] spec_cells_at(
                s@,
                i as int,
                mode,
                row0,
                ps0,
            ) implies {
                &&& percentiles@.len() <= ps0.len()
                &&& row@ == row0.take(2 + percentiles@.len() as int)
                &&& percentiles@ == ps0.take(percentiles@.len() as int)
                &&& c4 == spec_member_pos(i as int, row0, ps0, 2 + percentiles@.len() as int)
            } by {
                assert(t < ps0.len());
                assert(key@ == "p"@ + dec_str(ps0[t] as int));
                assert(p_val == ps0[t]);
                assert(spec_mode_cell_ok(mode, row0[2 + t]));
                assert(row@[2 + t] == row0[2 + t]);
                assert(row@ =~= row0.take(2 + t + 1));
                assert(percentiles@ =~= ps0.take(t + 1));
            }
        }
        pos = c4;
    }
    let f1 = match expect_token(s, pos, ',') {
        Some(j) => j,
        None => {
            proof {
                assert forall|row0: Seq<MetricType>, ps0: Seq<u8>| !(#[trigger] spec_cells_at(
                    s@,
                    i as int,
                    mode,
                    row0,
                    ps0,
                )) by {
                    if spec_cells_at(s@, i as int, mode, row0, ps0) {
                        lemma_member_facts(s@, i as int, mode, row0, ps0, row0.len() - 1);
                        assert(s@[pos as int] == ',');
                    }
                }
            }
            return None;
        },
    };
    let f2 = match expect_key(s, f1, "percent_total") {
        Some(j) => j,
        None => {
            proof {
                assert forall|row0: Seq<MetricType>, ps0: Seq<u8>| !(#[trigger] spec_cells_at(
                    s@,
                    i as int,
                    mode,
                    row0,
                    ps0,
                )) by {
                    if spec_cells_at(s@, i as int, mode, row0, ps0) {
                        lemma_member_facts(s@, i as int, mode, row0, ps0, row0.len() - 1);
                        assert(cell_key(ps0, row0.len() - 1) == "percent_total"@);
                        assert(spec_key_at(s@, f1 as int, "percent_total"@));
                    }
                }
            }
            return None;
        },
    };
    let (pt, f3) = match parse_cell_value(s, f2) {
        Some(p) => p,
        None => {
            proof {
                assert forall|row0: Seq<MetricType>, ps0: Seq<u8>| !(#[trigger] spec_cells_at(
                    s@,
                    i as int,
                    mode,
                    row0,
                    ps0,
                )) by {
                    if spec_cells_at(s@, i as int, mode, row0, ps0) {
                        lemma_member_facts(s@, i as int, mode, row0, ps0, row0.len() - 1);
                        assert(cell_key(ps0, row0.len() - 1) == "percent_total"@);
                        assert(spec_key_at(s@, f1 as int, "percent_total"@));
                        assert(f2 == f1 + "percent_total"@.len() + 3);
                        assert(spec_cell_at(s@, f2 as int, row0[row0.len() - 1]));
                    }
                }
            }
            return None;
        },
    };
    row.push(
        match pt {
            Some(v) => MetricType::Percentage(v),
            None => MetricType::Unsupported,
        },
    );
    let f4 = match expect_token(s, f3, '}') {
        Some(j) => j,
        None => {
            proof {
                assert forall|row0: Seq<MetricType>, ps0: Seq<u8>| !(#[trigger] spec_cells_at(
                    s@,
                    i as int,
                    mode,
                    row0,
                    ps0,
                )) by {
                    if spec_cells_at(s@, i as int, mode, row0, ps0) {
                        lemma_member_facts(s@, i as int, mode, row0, ps0, row0.len() - 1);
                        assert(cell_key(ps0, row0.len() - 1) == "percent_total"@);
                        assert(spec_key_at(s@, f1 as int, "percent_total"@));
                        assert(f2 == f1 + "percent_total"@.len() + 3);
                        assert(spec_cell_at(s@, f2 as int, row0[row0.len() - 1]));
                        assert(f3 == f2 + cell_value_text(row0[row0.len() - 1]).len());
                        assert(s@[f3 as int] == '}');
                    }
                }
            }
            return None;
        },
    };
    proof {
        assert forall|row0: Seq<MetricType>, ps0: Seq<u8>| #[trigger] spec_cells_at(
            s@,
            i as int,
            mode,
            row0,
            ps0,
        ) implies row@ == row0 && percentiles@ == ps0 && f4 == i + 1 + row_members_text(
            row0,
            ps0,
            0,
        ).len() + 1 by {
            lemma_member_facts(s@, i as int, mode, row0, ps0, row0.len() - 1);
            assert(cell_key(ps0, row0.len() - 1) == "percent_total"@);
            assert(spec_key_at(s@, f1 as int, "percent_total"@));
            assert(f2 == f1 + "percent_total"@.len() + 3);
            assert(spec_cell_at(s@, f2 as int, row0[row0.len() - 1]));
            assert(pt == spec_cell_raw(row0[row0.len() - 1]));
            assert(row0[row0.len() - 1] is Percentage || row0[row0.len() - 1] is Unsupported);
            assert(row@[row0.len() - 1] == row0[row0.len() - 1]);
            assert(row@ =~= row0);
            assert(f3 == f2 + cell_value_text(row0[row0.len() - 1]).len());
            assert(f3 == i + 1 + row_members_text(row0, ps0, 0).len());
        }
    }
    Some((row, percentiles, f4))
}

/// The function entries fit the report: every name is escape-free and named
/// once, and every row fits the mode and the percentile list.
pub open spec fn spec_entries_wf(
    mode: ProfilingMode,
    entries: Seq<(String, Vec<MetricType>)>,
    ps: Seq<u8>,
) -> bool {
    &&& crate::diff::spec_distinct_names(entries)
    &&& forall|j: int|
        0 <= j < entries.len() ==> json_safe((#[trigger] entries[j]).0@) && spec_row_cells_ok(
            mode,
            entries[j].1@,
            ps,
        )
}

/// What it means for the text at `i` to hold the report's whole `output`
/// object body: every entry in order, then the object's closing brace.
pub open spec fn spec_output_at(
    s: Seq<char>,
    i: int,
    mode: ProfilingMode,
    entries: Seq<(String, Vec<MetricType>)>,
    ps: Seq<u8>,
) -> bool {
    &&& 0 <= i
    &&& spec_entries_wf(mode, entries, ps)
    &&& i + entries_text(entries, ps, 0).len() + 1 <= s.len()
    &&& s.subrange(i, i + entries_text(entries, ps, 0).len() + 1) == entries_text(entries, ps, 0)
        + "}"@
}

/// Where entry `j` starts within the output object's body.
pub open spec fn spec_entry_pos(
    i: int,
    entries: Seq<(String, Vec<MetricType>)>,
    ps: Seq<u8>,
    j: int,
) -> int {
    i + entries_text(entries, ps, 0).len() - entries_text(entries, ps, j).len()
}

/// From entry `j` on, the output's text is exactly the remaining entries.
proof fn lemma_entries_suffix(
    s: Seq<char>,
    i: int,
    mode: ProfilingMode,
    entries: Seq<(String, Vec<MetricType>)>,
    ps: Seq<u8>,
    j: int,
)
    requires
        spec_output_at(s, i, mode, entries, ps),
        0 <= j <= entries.len(),
    ensures
        entries_text(entries, ps, j).len() <= entries_text(entries, ps, 0).len(),
        i <= spec_entry_pos(i, entries, ps, j),
        spec_entry_pos(i, entries, ps, j) + entries_text(entries, ps, j).len() == i
            + entries_text(entries, ps, 0).len(),
        s.subrange(
            spec_entry_pos(i, entries, ps, j),
            i + entries_text(entries, ps, 0).len(),
        ) == entries_text(entries, ps, j),
    decreases j,
{
    reveal_strlit("}");
    let e0 = entries_text(entries, ps, 0);
    let whole = e0 + "}"@;
    let top = i + e0.len();
    assert(s.subrange(i, top + 1) == whole);
    assert(s.subrange(i, top + 1).len() == whole.len());
    assert(top + 1 <= s.len());
    if j == 0 {
        assert forall|x: int| i <= x < top implies s[x] == e0[x - i] by {
            assert(s[x] == s.subrange(i, top + 1)[x - i]);
            assert(whole[x - i] == e0[x - i]);
        }
        assert(s.subrange(i, top) =~= e0);
    } else {
        lemma_entries_suffix(s, i, mode, entries, ps, j - 1);
        let prev = spec_entry_pos(i, entries, ps, j - 1);
        let ej1 = entries_text(entries, ps, j - 1);
        let ej = entries_text(entries, ps, j);
        let piece = (if j - 1 > 0 {
            ","@
        } else {
            Seq::<char>::empty()
        }) + "\""@ + entries[j - 1].0@ + "\":{"@ + row_members_text(entries[j - 1].1@, ps, 0)
            + "}"@;
        assert(ej1 == piece + ej);
        assert(ej1.len() == piece.len() + ej.len());
        assert(prev + ej1.len() == top);
        assert(spec_entry_pos(i, entries, ps, j) == prev + piece.len());
        assert forall|x: int| prev + piece.len() <= x < top implies s[x] == ej[x - (prev
            + piece.len())] by {
            assert(s.subrange(prev, top).len() == ej1.len());
            assert(s[x] == s.subrange(prev, top)[x - prev]);
            assert(ej1[x - prev] == (piece + ej)[x - prev]);
            assert((piece + ej)[x - prev] == ej[x - prev - piece.len()]);
        }
        assert(s.subrange(prev + piece.len(), top) =~= ej);
    }
}

/// What entry `j` of the output contributes: its separator, its quoted name
/// with colon, its whole cell object, where the next entry begins, and the
/// character that follows.
proof fn lemma_entry_facts(
    s: Seq<char>,
    i: int,
    mode: ProfilingMode,
    entries: Seq<(String, Vec<MetricType>)>,
    ps: Seq<u8>,
    j: int,
)
    requires
        spec_output_at(s, i, mode, entries, ps),
        0 <= j < entries.len(),
    ensures
        ({
            let pos = spec_entry_pos(i, entries, ps, j);
            let after_sep = pos + if j > 0 {
                1int
            } else {
                0int
            };
            let name = entries[j].0@;
            let opos = after_sep + name.len() + 3;
            &&& i <= pos
            &&& (j > 0 ==> s[pos] == ',')
            &&& spec_key_at(s, after_sep, name)
            &&& spec_cells_at(s, opos, mode, entries[j].1@, ps)
            &&& spec_entry_pos(i, entries, ps, j + 1) == opos + 1 + row_members_text(
                entries[j].1@,
                ps,
                0,
            ).len() + 1
            &&& (j + 1 < entries.len() ==> s[spec_entry_pos(i, entries, ps, j + 1)] == ',')
            &&& (j + 1 == entries.len() ==> spec_entry_pos(i, entries, ps, j + 1) == i
                + entries_text(entries, ps, 0).len() && s[i + entries_text(
                entries,
                ps,
                0,
            ).len()] == '}')
        }),
{
    reveal_strlit("}");
    reveal_strlit(",");
    reveal_strlit("\"");
    reveal_strlit("\":{");
    lemma_entries_suffix(s, i, mode, entries, ps, j);
    lemma_entries_suffix(s, i, mode, entries, ps, j + 1);
    let e0 = entries_text(entries, ps, 0);
    let top = i + e0.len();
    let pos = spec_entry_pos(i, entries, ps, j);
    let ej = entries_text(entries, ps, j);
    let sep: Seq<char> = if j > 0 {
        ","@
    } else {
        Seq::<char>::empty()
    };
    let name = entries[j].0@;
    let body = row_members_text(entries[j].1@, ps, 0);
    let q1 = sep + "\""@;
    let q2 = q1 + name;
    let q3 = q2 + "\":{"@;
    let q4 = q3 + body;
    let piece = q4 + "}"@;
    assert(ej == (sep + "\""@ + name + "\":{"@ + body + "}"@) + entries_text(entries, ps, j + 1));
    assert(piece =~= sep + "\""@ + name + "\":{"@ + body + "}"@);
    assert(ej =~= piece + entries_text(entries, ps, j + 1));
    assert(s.subrange(pos, top).len() == ej.len());
    assert forall|off: int| 0 <= off < piece.len() implies s[pos + off] == piece[off] by {
        assert(s[pos + off] == s.subrange(pos, top)[off]);
        assert(ej[off] == (piece + entries_text(entries, ps, j + 1))[off]);
    }
    let after_sep = pos + sep.len();
    if j > 0 {
        assert(s[pos] == piece[0]);
        assert(piece[0] == q4[0] && q4[0] == q3[0] && q3[0] == q2[0] && q2[0] == q1[0] && q1[0]
            == sep[0]);
        assert(sep[0] == ',');
    }
    assert(piece[sep.len() as int] == q4[sep.len() as int] && q4[sep.len() as int] == q3[
        sep.len() as int
    ] && q3[sep.len() as int] == q2[sep.len() as int] && q2[sep.len() as int] == q1[
        sep.len() as int
    ]);
    assert(q1[sep.len() as int] == '"');
    assert(s[after_sep] == '"');
    assert forall|x: int| 0 <= x < name.len() implies s[after_sep + 1 + x] == name[x] by {
        let off = sep.len() as int + 1 + x;
        assert(s[pos + off] == piece[off]);
        assert(piece[off] == q4[off] && q4[off] == q3[off]);
        assert(q3[off] == name[x]);
    }
    assert(s.subrange(after_sep + 1, after_sep + 1 + name.len()) =~= name);
    assert(piece[sep.len() as int + 1 + name.len() as int] == q4[sep.len() as int + 1
        + name.len() as int]);
    assert(q4[sep.len() as int + 1 + name.len() as int] == q3[sep.len() as int + 1
        + name.len() as int]);
    assert(q3[sep.len() as int + 1 + name.len() as int] == "\":{"@[0]);
    assert(s[after_sep + 1 + name.len()] == '"');
    assert(piece[sep.len() as int + 2 + name.len() as int] == q3[sep.len() as int + 2
        + name.len() as int]);
    assert(q3[sep.len() as int + 2 + name.len() as int] == "\":{"@[1]);
    assert(s[after_sep + name.len() + 2] == ':');
    assert(spec_key_at(s, after_sep, name));
    let opos = after_sep + name.len() + 3;
    assert(piece[sep.len() as int + 3 + name.len() as int] == q3[sep.len() as int + 3
        + name.len() as int]);
    assert(q3[sep.len() as int + 3 + name.len() as int] == "\":{"@[2]);
    assert(s[opos] == '{');
    assert forall|x: int| 0 <= x < body.len() implies s[opos + 1 + x] == body[x] by {
        let off = sep.len() as int + 4 + name.len() as int + x;
        assert(s[pos + off] == piece[off]);
        assert(piece[off] == q4[off]);
        assert(q4[off] == body[x]);
    }
    assert(piece[piece.len() - 1] == "}"@[0]);
    assert(s[opos + 1 + body.len()] == '}');
    let nextpos0 = opos + 1 + body.len() + 1;
    assert(nextpos0 == spec_entry_pos(i, entries, ps, j + 1));
    assert(nextpos0 <= top);
    reveal_strlit("{");
    let target = "{"@ + body + "}"@;
    assert(s.subrange(opos, nextpos0).len() == target.len());
    assert forall|x: int| 0 <= x < target.len() implies #[trigger] s.subrange(opos, nextpos0)[x]
        == target[x] by {
        assert(s.subrange(opos, nextpos0)[x] == s[opos + x]);
        if x == 0 {
            assert(target[0] == '{');
            assert(s[opos] == '{');
        } else if x < 1 + body.len() {
            assert(s[opos + x] == body[x - 1]);
            assert(target[x] == body[x - 1]);
        } else {
            assert(s[opos + x] == '}');
            assert(target[x] == '}');
        }
    }
    assert(s.subrange(opos, nextpos0) =~= target);
    assert(opos + 1 + row_members_text(entries[j].1@, ps, 0).len() + 1 == nextpos0);
    assert(spec_cells_at(s, opos, mode, entries[j].1@, ps));
    let nextpos = opos + 1 + body.len() + 1;
    assert(spec_entry_pos(i, entries, ps, j + 1) == nextpos);
    if j + 1 < entries.len() {
        let enext = entries_text(entries, ps, j + 1);
        assert(enext == (","@ + "\""@ + entries[j + 1].0@ + "\":{"@ + row_members_text(
            entries[j + 1].1@,
            ps,
            0,
        ) + "}"@) + entries_text(entries, ps, j + 2));
        assert(s.subrange(nextpos, top).len() == enext.len());
        assert(s[nextpos] == s.subrange(nextpos, top)[0]);
        assert(enext[0] == ',');
    } else {
        assert(entries_text(entries, ps, j + 1).len() == 0);
        assert(nextpos == top);
        assert(s[top] == s.subrange(i, top + 1)[top - i]);
        assert((e0 + "}"@)[top - i] == "}"@[0]);
    }
}

fn mode_of_label(label: &String) -> (r: Option<ProfilingMode>)
    ensures
        forall|md: ProfilingMode| label@ == (#[trigger] md.spec_label()) ==> r == Some(md),
{
    proof {
        reveal_strlit("timing");
        reveal_strlit("alloc-bytes-total");
        reveal_strlit("alloc-bytes-max");
        reveal_strlit("alloc-count-total");
        reveal_strlit("alloc-count-max");
        assert("timing"@.len() == 6);
        assert("alloc-bytes-total"@.len() == 17);
        assert("alloc-bytes-max"@.len() == 15);
        assert("alloc-count-total"@.len() == 17);
        assert("alloc-count-max"@.len() == 15);
        assert("alloc-bytes-total"@[6] == 'b' && "alloc-count-total"@[6] == 'c');
        assert("alloc-bytes-max"@[6] == 'b' && "alloc-count-max"@[6] == 'c');
    }
    if label.eq(&string_from("timing")) {
        Some(ProfilingMode::Timing)
    } else if label.eq(&string_from("alloc-bytes-total")) {
        Some(ProfilingMode::AllocBytesTotal)
    } else if label.eq(&string_from("alloc-bytes-max")) {
        Some(ProfilingMode::AllocBytesMax)
    } else if label.eq(&string_from("alloc-count-total")) {
        Some(ProfilingMode::AllocCountTotal)
    } else if label.eq(&string_from("alloc-count-max")) {
        Some(ProfilingMode::AllocCountMax)
    } else {
        None
    }
}

/// A field key piece placed in the text yields the key-at fact.
proof fn lemma_key_from_piece(s: Seq<char>, at: int, key: Seq<char>)
    requires
        0 <= at,
        at + key.len() + 3 <= s.len(),
        s.subrange(at, at + key.len() + 3) == field_key_text(key),
        json_safe(key),
    ensures
        spec_key_at(s, at, key),
{
    reveal_strlit("\"");
    reveal_strlit("\":");
    let piece = field_key_text(key);
    let q1 = "\""@ + key;
    assert(piece =~= q1 + "\":"@);
    assert(s.subrange(at, at + key.len() + 3).len() == piece.len());
    assert forall|off: int| 0 <= off < piece.len() implies s[at + off] == piece[off] by {
        assert(s[at + off] == s.subrange(at, at + key.len() + 3)[off]);
    }
    assert(piece[0] == (q1 + "\":"@)[0]);
    assert(q1[0] == '"');
    assert(s[at] == '"');
    assert forall|x: int| 0 <= x < key.len() implies s[at + 1 + x] == key[x] by {
        assert(s[at + 1 + x] == piece[1 + x]);
        assert(piece[1 + x] == q1[1 + x]);
        assert(q1[1 + x] == key[x]);
    }
    assert(s.subrange(at + 1, at + 1 + key.len()) =~= key);
    assert(piece[1 + key.len() as int] == "\":"@[0]);
    assert(s[at + 1 + key.len()] == '"');
    assert(piece[2 + key.len() as int] == "\":"@[1]);
    assert(s[at + key.len() + 2] == ':');
}

/// A quoted string piece placed in the text yields the string-at fact.
proof fn lemma_string_from_piece(s: Seq<char>, at: int, v: Seq<char>)
    requires
        0 <= at,
        at + v.len() + 2 < s.len(),
        s.subrange(at, at + v.len() + 2) == quoted_text(v),
        json_safe(v),
    ensures
        spec_string_at(s, at, v),
{
    reveal_strlit("\"");
    let piece = quoted_text(v);
    let q1 = "\""@ + v;
    assert(piece =~= q1 + "\""@);
    assert(s.subrange(at, at + v.len() + 2).len() == piece.len());
    assert forall|off: int| 0 <= off < piece.len() implies s[at + off] == piece[off] by {
        assert(s[at + off] == s.subrange(at, at + v.len() + 2)[off]);
    }
    assert(piece[0] == q1[0] && q1[0] == '"');
    assert(s[at] == '"');
    assert forall|x: int| 0 <= x < v.len() implies s[at + 1 + x] == v[x] by {
        assert(s[at + 1 + x] == piece[1 + x]);
        assert(piece[1 + x] == q1[1 + x]);
    }
    assert(s.subrange(at + 1, at + 1 + v.len()) =~= v);
    assert(piece[1 + v.len() as int] == "\""@[0]);
    assert(s[at + 1 + v.len()] == '"');
}

/// Every mode label is escape-free text.
proof fn lemma_label_safe(md: ProfilingMode)
    ensures
        json_safe(md.spec_label()),
{
    assert(json_safe("timing"@)) by {
        reveal_strlit("timing");
        assert forall|x: int| 0 <= x < "timing"@.len() implies "timing"@[x] != '"'
            && "timing"@[x] != '\\' by {
            if x == 0 {
                assert("timing"@[0] == 't');
            } else if x == 1 {
                assert("timing"@[1] == 'i');
            } else if x == 2 {
                assert("timing"@[2] == 'm');
            } else if x == 3 {
                assert("timing"@[3] == 'i');
            } else if x == 4 {
                assert("timing"@[4] == 'n');
            } else if x == 5 {
                assert("timing"@[5] == 'g');
            }
        }
    }
    assert(json_safe("alloc-bytes-total"@)) by {
        reveal_strlit("alloc-bytes-total");
        assert forall|x: int| 0 <= x < "alloc-bytes-total"@.len() implies "alloc-bytes-total"@[x] != '"'
            && "alloc-bytes-total"@[x] != '\\' by {
            if x == 0 {
                assert("alloc-bytes-total"@[0] == 'a');
            } else if x == 1 {
                assert("alloc-bytes-total"@[1] == 'l');
            } else if x == 2 {
                assert("alloc-bytes-total"@[2] == 'l');
            } else if x == 3 {
                assert("alloc-bytes-total"@[3] == 'o');
            } else if x == 4 {
                assert("alloc-bytes-total"@[4] == 'c');
            } else if x == 5 {
                assert("alloc-bytes-total"@[5] == '-');
            } else if x == 6 {
                assert("alloc-bytes-total"@[6] == 'b');
            } else if x == 7 {
                assert("alloc-bytes-total"@[7] == 'y');
            } else if x == 8 {
                assert("alloc-bytes-total"@[8] == 't');
            } else if x == 9 {
                assert("alloc-bytes-total"@[9] == 'e');
            } else if x == 10 {
                assert("alloc-bytes-total"@[10] == 's');
            } else if x == 11 {
                assert("alloc-bytes-total"@[11] == '-');
            } else if x == 12 {
                assert("alloc-bytes-total"@[12] == 't');
            } else if x == 13 {
                assert("alloc-bytes-total"@[13] == 'o');
            } else if x == 14 {
                assert("alloc-bytes-total"@[14] == 't');
            } else if x == 15 {
                assert("alloc-bytes-total"@[15] == 'a');
            } else if x == 16 {
                assert("alloc-bytes-total"@[16] == 'l');
            }
        }
    }
    assert(json_safe("alloc-bytes-max"@)) by {
        reveal_strlit("alloc-bytes-max");
        assert forall|x: int| 0 <= x < "alloc-bytes-max"@.len() implies "alloc-bytes-max"@[x] != '"'
            && "alloc-bytes-max"@[x] != '\\' by {
            if x == 0 {
                assert("alloc-bytes-max"@[0] == 'a');
            } else if x == 1 {
                assert("alloc-bytes-max"@[1] == 'l');
            } else if x == 2 {
                assert("alloc-bytes-max"@[2] == 'l');
            } else if x == 3 {
                assert("alloc-bytes-max"@[3] == 'o');
            } else if x == 4 {
                assert("alloc-bytes-max"@[4] == 'c');
            } else if x == 5 {
                assert("alloc-bytes-max"@[5] == '-');
            } else if x == 6 {
                assert("alloc-bytes-max"@[6] == 'b');
            } else if x == 7 {
                assert("alloc-bytes-max"@[7] == 'y');
            } else if x == 8 {
                assert("alloc-bytes-max"@[8] == 't');
            } else if x == 9 {
                assert("alloc-bytes-max"@[9] == 'e');
            } else if x == 10 {
                assert("alloc-bytes-max"@[10] == 's');
            } else if x == 11 {
                assert("alloc-bytes-max"@[11] == '-');
            } else if x == 12 {
                assert("alloc-bytes-max"@[12] == 'm');
            } else if x == 13 {
                assert("alloc-bytes-max"@[13] == 'a');
            } else if x == 14 {
                assert("alloc-bytes-max"@[14] == 'x');
            }
        }
    }
    assert(json_safe("alloc-count-total"@)) by {
        reveal_strlit("alloc-count-total");
        assert forall|x: int| 0 <= x < "alloc-count-total"@.len() implies "alloc-count-total"@[x] != '"'
            && "alloc-count-total"@[x] != '\\' by {
            if x == 0 {
                assert("alloc-count-total"@[0] == 'a');
            } else if x == 1 {
                assert("alloc-count-total"@[1] == 'l');
            } else if x == 2 {
                assert("alloc-count-total"@[2] == 'l');
            } else if x == 3 {
                assert("alloc-count-total"@[3] == 'o');
            } else if x == 4 {
                assert("alloc-count-total"@[4] == 'c');
            } else if x == 5 {
                assert("alloc-count-total"@[5] == '-');
            } else if x == 6 {
                assert("alloc-count-total"@[6] == 'c');
            } else if x == 7 {
                assert("alloc-count-total"@[7] == 'o');
            } else if x == 8 {
                assert("alloc-count-total"@[8] == 'u');
            } else if x == 9 {
                assert("alloc-count-total"@[9] == 'n');
            } else if x == 10 {
                assert("alloc-count-total"@[10] == 't');
            } else if x == 11 {
                assert("alloc-count-total"@[11] == '-');
            } else if x == 12 {
                assert("alloc-count-total"@[12] == 't');
            } else if x == 13 {
                assert("alloc-count-total"@[13] == 'o');
            } else if x == 14 {
                assert("alloc-count-total"@[14] == 't');
            } else if x == 15 {
                assert("alloc-count-total"@[15] == 'a');
            } else if x == 16 {
                assert("alloc-count-total"@[16] == 'l');
            }
        }
    }
    assert(json_safe("alloc-count-max"@)) by {
        reveal_strlit("alloc-count-max");
        assert forall|x: int| 0 <= x < "alloc-count-max"@.len() implies "alloc-count-max"@[x] != '"'
            && "alloc-count-max"@[x] != '\\' by {
            if x == 0 {
                assert("alloc-count-max"@[0] == 'a');
            } else if x == 1 {
                assert("alloc-count-max"@[1] == 'l');
            } else if x == 2 {
                assert("alloc-count-max"@[2] == 'l');
            } else if x == 3 {
                assert("alloc-count-max"@[3] == 'o');
            } else if x == 4 {
                assert("alloc-count-max"@[4] == 'c');
            } else if x == 5 {
                assert("alloc-count-max"@[5] == '-');
            } else if x == 6 {
                assert("alloc-count-max"@[6] == 'c');
            } else if x == 7 {
                assert("alloc-count-max"@[7] == 'o');
            } else if x == 8 {
                assert("alloc-count-max"@[8] == 'u');
            } else if x == 9 {
                assert("alloc-count-max"@[9] == 'n');
            } else if x == 10 {
                assert("alloc-count-max"@[10] == 't');
            } else if x == 11 {
                assert("alloc-count-max"@[11] == '-');
            } else if x == 12 {
                assert("alloc-count-max"@[12] == 'm');
            } else if x == 13 {
                assert("alloc-count-max"@[13] == 'a');
            } else if x == 14 {
                assert("alloc-count-max"@[14] == 'x');
            }
        }
    }
}

/// The report's text fits its stable layout: an opening brace, the five
/// fields in order with their keys and values in place, the output object's
/// entries, and the two closing braces.
#[verifier::rlimit(100)]
proof fn lemma_top_fields(s: Seq<char>, m: MetricsJson)
    requires
        spec_wf_report(m),
        s == metrics_text(m),
    ensures
        ({
            let label = m.hotpath_profiling_mode.spec_label();
            let llen = label.len() as int;
            let elen = dec_str(m.total_elapsed as int).len() as int;
            let clen = m.caller_name@.len() as int;
            let dlen = m.description@.len() as int;
            let eln = entries_text(m.data.entries@, m.percentiles@, 0).len() as int;
            &&& s.len() == 92 + llen + elen + clen + dlen + eln
            &&& s[0] == '{'
            &&& spec_key_at(s, 1, "hotpath_profiling_mode"@)
            &&& json_safe(label)
            &&& spec_string_at(s, 26, label)
            &&& s[28 + llen] == ','
            &&& spec_key_at(s, 29 + llen, "total_elapsed"@)
            &&& spec_number_at(s, 45 + llen, m.total_elapsed)
            &&& s[45 + llen + elen] == ','
            &&& spec_key_at(s, 46 + llen + elen, "caller_name"@)
            &&& spec_string_at(s, 60 + llen + elen, m.caller_name@)
            &&& s[62 + llen + elen + clen] == ','
            &&& spec_key_at(s, 63 + llen + elen + clen, "description"@)
            &&& spec_string_at(s, 77 + llen + elen + clen, m.description@)
            &&& s[79 + llen + elen + clen + dlen] == ','
            &&& spec_key_at(s, 80 + llen + elen + clen + dlen, "output"@)
            &&& s[89 + llen + elen + clen + dlen] == '{'
            &&& spec_output_at(
                s,
                90 + llen + elen + clen + dlen,
                m.hotpath_profiling_mode,
                m.data.entries@,
                m.percentiles@,
            )
            &&& s[91 + llen + elen + clen + dlen + eln] == '}'
        }),
{
    reveal(metrics_text);
    reveal_strlit("{");
    reveal_strlit("}");
    reveal_strlit(",");
    reveal_strlit("\"");
    reveal_strlit("\":");
    reveal_strlit("hotpath_profiling_mode");
    reveal_strlit("total_elapsed");
    reveal_strlit("caller_name");
    reveal_strlit("description");
    reveal_strlit("output");
    assert("hotpath_profiling_mode"@.len() == 22);
    assert("total_elapsed"@.len() == 13);
    assert("caller_name"@.len() == 11);
    assert("description"@.len() == 11);
    assert("output"@.len() == 6);
    assert(json_safe("hotpath_profiling_mode"@)) by {
        assert forall|x: int| 0 <= x < "hotpath_profiling_mode"@.len() implies "hotpath_profiling_mode"@[x] != '"'
            && "hotpath_profiling_mode"@[x] != '\\' by {
            if x == 0 {
                assert("hotpath_profiling_mode"@[0] == 'h');
            } else if x == 1 {
                assert("hotpath_profiling_mode"@[1] == 'o');
            } else if x == 2 {
                assert("hotpath_profiling_mode"@[2] == 't');
            } else if x == 3 {
                assert("hotpath_profiling_mode"@[3] == 'p');
            } else if x == 4 {
                assert("hotpath_profiling_mode"@[4] == 'a');
            } else if x == 5 {
                assert("hotpath_profiling_mode"@[5] == 't');
            } else if x == 6 {
                assert("hotpath_profiling_mode"@[6] == 'h');
            } else if x == 7 {
                assert("hotpath_profiling_mode"@[7] == '_');
            } else if x == 8 {
                assert("hotpath_profiling_mode"@[8] == 'p');
            } else if x == 9 {
                assert("hotpath_profiling_mode"@[9] == 'r');
            } else if x == 10 {
                assert("hotpath_profiling_mode"@[10] == 'o');
            } else if x == 11 {
                assert("hotpath_profiling_mode"@[11] == 'f');
            } else if x == 12 {
                assert("hotpath_profiling_mode"@[12] == 'i');
            } else if x == 13 {
                assert("hotpath_profiling_mode"@[13] == 'l');
            } else if x == 14 {
                assert("hotpath_profiling_mode"@[14] == 'i');
            } else if x == 15 {
                assert("hotpath_profiling_mode"@[15] == 'n');
            } else if x == 16 {
                assert("hotpath_profiling_mode"@[16] == 'g');
            } else if x == 17 {
                assert("hotpath_profiling_mode"@[17] == '_');
            } else if x == 18 {
                assert("hotpath_profiling_mode"@[18] == 'm');
            } else if x == 19 {
                assert("hotpath_profiling_mode"@[19] == 'o');
            } else if x == 20 {
                assert("hotpath_profiling_mode"@[20] == 'd');
            } else if x == 21 {
                assert("hotpath_profiling_mode"@[21] == 'e');
            }
        }
    }
    assert(json_safe("total_elapsed"@)) by {
        assert forall|x: int| 0 <= x < "total_elapsed"@.len() implies "total_elapsed"@[x] != '"'
            && "total_elapsed"@[x] != '\\' by {
            if x == 0 {
                assert("total_elapsed"@[0] == 't');
            } else if x == 1 {
                assert("total_elapsed"@[1] == 'o');
            } else if x == 2 {
                assert("total_elapsed"@[2] == 't');
            } else if x == 3 {
                assert("total_elapsed"@[3] == 'a');
            } else if x == 4 {
                assert("total_elapsed"@[4] == 'l');
            } else if x == 5 {
                assert("total_elapsed"@[5] == '_');
            } else if x == 6 {
                assert("total_elapsed"@[6] == 'e');
            } else if x == 7 {
                assert("total_elapsed"@[7] == 'l');
            } else if x == 8 {
                assert("total_elapsed"@[8] == 'a');
            } else if x == 9 {
                assert("total_elapsed"@[9] == 'p');
            } else if x == 10 {
                assert("total_elapsed"@[10] == 's');
            } else if x == 11 {
                assert("total_elapsed"@[11] == 'e');
            } else if x == 12 {
                assert("total_elapsed"@[12] == 'd');
            }
        }
    }
    assert(json_safe("caller_name"@)) by {
        assert forall|x: int| 0 <= x < "caller_name"@.len() implies "caller_name"@[x] != '"'
            && "caller_name"@[x] != '\\' by {
            if x == 0 {
                assert("caller_name"@[0] == 'c');
            } else if x == 1 {
                assert("caller_name"@[1] == 'a');
            } else if x == 2 {
                assert("caller_name"@[2] == 'l');
            } else if x == 3 {
                assert("caller_name"@[3] == 'l');
            } else if x == 4 {
                assert("caller_name"@[4] == 'e');
            } else if x == 5 {
                assert("caller_name"@[5] == 'r');
            } else if x == 6 {
                assert("caller_name"@[6] == '_');
            } else if x == 7 {
                assert("caller_name"@[7] == 'n');
            } else if x == 8 {
                assert("caller_name"@[8] == 'a');
            } else if x == 9 {
                assert("caller_name"@[9] == 'm');
            } else if x == 10 {
                assert("caller_name"@[10] == 'e');
            }
        }
    }
    assert(json_safe("description"@)) by {
        assert forall|x: int| 0 <= x < "description"@.len() implies "description"@[x] != '"'
            && "description"@[x] != '\\' by {
            if x == 0 {
                assert("description"@[0] == 'd');
            } else if x == 1 {
                assert("description"@[1] == 'e');
            } else if x == 2 {
                assert("description"@[2] == 's');
            } else if x == 3 {
                assert("description"@[3] == 'c');
            } else if x == 4 {
                assert("description"@[4] == 'r');
            } else if x == 5 {
                assert("description"@[5] == 'i');
            } else if x == 6 {
                assert("description"@[6] == 'p');
            } else if x == 7 {
                assert("description"@[7] == 't');
            } else if x == 8 {
                assert("description"@[8] == 'i');
            } else if x == 9 {
                assert("description"@[9] == 'o');
            } else if x == 10 {
                assert("description"@[10] == 'n');
            }
        }
    }
    assert(json_safe("output"@)) by {
        assert forall|x: int| 0 <= x < "output"@.len() implies "output"@[x] != '"'
            && "output"@[x] != '\\' by {
            if x == 0 {
                assert("output"@[0] == 'o');
            } else if x == 1 {
                assert("output"@[1] == 'u');
            } else if x == 2 {
                assert("output"@[2] == 't');
            } else if x == 3 {
                assert("output"@[3] == 'p');
            } else if x == 4 {
                assert("output"@[4] == 'u');
            } else if x == 5 {
                assert("output"@[5] == 't');
            }
        }
    }
    lemma_label_safe(m.hotpath_profiling_mode);
    let label = m.hotpath_profiling_mode.spec_label();
    let llen = label.len() as int;
    let elen = dec_str(m.total_elapsed as int).len() as int;
    let clen = m.caller_name@.len() as int;
    let dlen = m.description@.len() as int;
    let eln = entries_text(m.data.entries@, m.percentiles@, 0).len() as int;
    crate::text::lemma_dec_str_digits(m.total_elapsed as int);
    let t0 = "{"@;
    let t1 = t0 + field_key_text("hotpath_profiling_mode"@);
    let t2 = t1 + quoted_text(label);
    let t3 = t2 + ","@;
    let t4 = t3 + field_key_text("total_elapsed"@);
    let t5 = t4 + dec_str(m.total_elapsed as int);
    let t6 = t5 + ","@;
    let t7 = t6 + field_key_text("caller_name"@);
    let t8 = t7 + quoted_text(m.caller_name@);
    let t9 = t8 + ","@;
    let t10 = t9 + field_key_text("description"@);
    let t11 = t10 + quoted_text(m.description@);
    let t12 = t11 + ","@;
    let t13 = t12 + field_key_text("output"@);
    let t14 = t13 + "{"@;
    let t15 = t14 + (entries_text(m.data.entries@, m.percentiles@, 0) + "}"@);
    let t16 = t15 + "}"@;
    assert(s =~= t16);
    assert(t0.len() == 0 + (1));
    assert(t1.len() == 1 + (25));
    assert(t2.len() == 26 + (llen + 2));
    assert(t3.len() == 28 + llen + (1));
    assert(t4.len() == 29 + llen + (16));
    assert(t5.len() == 45 + llen + (elen));
    assert(t6.len() == 45 + llen + elen + (1));
    assert(t7.len() == 46 + llen + elen + (14));
    assert(t8.len() == 60 + llen + elen + (clen + 2));
    assert(t9.len() == 62 + llen + elen + clen + (1));
    assert(t10.len() == 63 + llen + elen + clen + (14));
    assert(t11.len() == 77 + llen + elen + clen + (dlen + 2));
    assert(t12.len() == 79 + llen + elen + clen + dlen + (1));
    assert(t13.len() == 80 + llen + elen + clen + dlen + (9));
    assert(t14.len() == 89 + llen + elen + clen + dlen + (1));
    assert(t15.len() == 90 + llen + elen + clen + dlen + (eln + 1));
    assert(t16.len() == 91 + llen + elen + clen + dlen + eln + (1));
    assert(s.len() == 92 + llen + elen + clen + dlen + eln);
    let p0 = "{"@;
    assert(s.subrange(0int, 0int + (1)) =~= p0) by {
        assert(s.subrange(0int, 0int + (1)).len() == p0.len());
        assert forall|x: int| 0 <= x < p0.len() implies #[trigger] s.subrange(0int,
            0int + (1),
        )[x] == p0[x] by {
            let y = 0int + x;
            assert(s.subrange(0int, 0int + (1))[x] == s[y]);
            assert(s[y] == t16[y]);
            assert(t16[y] == t15[y]);
            assert(t15[y] == t14[y]);
            assert(t14[y] == t13[y]);
            assert(t13[y] == t12[y]);
            assert(t12[y] == t11[y]);
            assert(t11[y] == t10[y]);
            assert(t10[y] == t9[y]);
            assert(t9[y] == t8[y]);
            assert(t8[y] == t7[y]);
            assert(t7[y] == t6[y]);
            assert(t6[y] == t5[y]);
            assert(t5[y] == t4[y]);
            assert(t4[y] == t3[y]);
            assert(t3[y] == t2[y]);
            assert(t2[y] == t1[y]);
            assert(t1[y] == t0[y]);
            assert(t0[y] == p0[x]);
        }
    }
    let p1 = field_key_text("hotpath_profiling_mode"@);
    assert(s.subrange(1int, 1int + (25)) =~= p1) by {
        assert(s.subrange(1int, 1int + (25)).len() == p1.len());
        assert forall|x: int| 0 <= x < p1.len() implies #[trigger] s.subrange(1int,
            1int + (25),
        )[x] == p1[x] by {
            let y = 1int + x;
            assert(s.subrange(1int, 1int + (25))[x] == s[y]);
            assert(s[y] == t16[y]);
            assert(t16[y] == t15[y]);
            assert(t15[y] == t14[y]);
            assert(t14[y] == t13[y]);
            assert(t13[y] == t12[y]);
            assert(t12[y] == t11[y]);
            assert(t11[y] == t10[y]);
            assert(t10[y] == t9[y]);
            assert(t9[y] == t8[y]);
            assert(t8[y] == t7[y]);
            assert(t7[y] == t6[y]);
            assert(t6[y] == t5[y]);
            assert(t5[y] == t4[y]);
            assert(t4[y] == t3[y]);
            assert(t3[y] == t2[y]);
            assert(t2[y] == t1[y]);
            assert(t1[y] == p1[x]);
        }
    }
    let p2 = quoted_text(label);
    assert(s.subrange(26int, 26int + (llen + 2)) =~= p2) by {
        assert(s.subrange(26int, 26int + (llen + 2)).len() == p2.len());
        assert forall|x: int| 0 <= x < p2.len() implies #[trigger] s.subrange(26int,
            26int + (llen + 2),
        )[x] == p2[x] by {
            let y = 26int + x;
            assert(s.subrange(26int, 26int + (llen + 2))[x] == s[y]);
            assert(s[y] == t16[y]);
            assert(t16[y] == t15[y]);
            assert(t15[y] == t14[y]);
            assert(t14[y] == t13[y]);
            assert(t13[y] == t12[y]);
            assert(t12[y] == t11[y]);
            assert(t11[y] == t10[y]);
            assert(t10[y] == t9[y]);
            assert(t9[y] == t8[y]);
            assert(t8[y] == t7[y]);
            assert(t7[y] == t6[y]);
            assert(t6[y] == t5[y]);
            assert(t5[y] == t4[y]);
            assert(t4[y] == t3[y]);
            assert(t3[y] == t2[y]);
            assert(t2[y] == p2[x]);
        }
    }
    let p3 = ","@;
    assert(s.subrange(28 + llen, 28 + llen + (1)) =~= p3) by {
        assert(s.subrange(28 + llen, 28 + llen + (1)).len() == p3.len());
        assert forall|x: int| 0 <= x < p3.len() implies #[trigger] s.subrange(
            28 + llen,
            28 + llen + (1),
        )[x] == p3[x] by {
            let y = 28 + llen + x;
            assert(s.subrange(28 + llen, 28 + llen + (1))[x] == s[y]);
            assert(s[y] == t16[y]);
            assert(t16[y] == t15[y]);
            assert(t15[y] == t14[y]);
            assert(t14[y] == t13[y]);
            assert(t13[y] == t12[y]);
            assert(t12[y] == t11[y]);
            assert(t11[y] == t10[y]);
            assert(t10[y] == t9[y]);
            assert(t9[y] == t8[y]);
            assert(t8[y] == t7[y]);
            assert(t7[y] == t6[y]);
            assert(t6[y] == t5[y]);
            assert(t5[y] == t4[y]);
            assert(t4[y] == t3[y]);
            assert(t3[y] == p3[x]);
        }
    }
    let p4 = field_key_text("total_elapsed"@);
    assert(s.subrange(29 + llen, 29 + llen + (16)) =~= p4) by {
        assert(s.subrange(29 + llen, 29 + llen + (16)).len() == p4.len());
        assert forall|x: int| 0 <= x < p4.len() implies #[trigger] s.subrange(
            29 + llen,
            29 + llen + (16),
        )[x] == p4[x] by {
            let y = 29 + llen + x;
            assert(s.subrange(29 + llen, 29 + llen + (16))[x] == s[y]);
            assert(s[y] == t16[y]);
            assert(t16[y] == t15[y]);
            assert(t15[y] == t14[y]);
            assert(t14[y] == t13[y]);
            assert(t13[y] == t12[y]);
            assert(t12[y] == t11[y]);
            assert(t11[y] == t10[y]);
            assert(t10[y] == t9[y]);
            assert(t9[y] == t8[y]);
            assert(t8[y] == t7[y]);
            assert(t7[y] == t6[y]);
            assert(t6[y] == t5[y]);
            assert(t5[y] == t4[y]);
            assert(t4[y] == p4[x]);
        }
    }
    let p5 = dec_str(m.total_elapsed as int);
    assert(s.subrange(45 + llen, 45 + llen + (elen)) =~= p5) by {
        assert(s.subrange(45 + llen, 45 + llen + (elen)).len() == p5.len());
        assert forall|x: int| 0 <= x < p5.len() implies #[trigger] s.subrange(
            45 + llen,
            45 + llen + (elen),
        )[x] == p5[x] by {
            let y = 45 + llen + x;
            assert(s.subrange(45 + llen, 45 + llen + (elen))[x] == s[y]);
            assert(s[y] == t16[y]);
            assert(t16[y] == t15[y]);
            assert(t15[y] == t14[y]);
            assert(t14[y] == t13[y]);
            assert(t13[y] == t12[y]);
            assert(t12[y] == t11[y]);
            assert(t11[y] == t10[y]);
            assert(t10[y] == t9[y]);
            assert(t9[y] == t8[y]);
            assert(t8[y] == t7[y]);
            assert(t7[y] == t6[y]);
            assert(t6[y] == t5[y]);
            assert(t5[y] == p5[x]);
        }
    }
    let p6 = ","@;
    assert(s.subrange(45 + llen + elen, 45 + llen + elen + (1)) =~= p6) by {
        assert(s.subrange(45 + llen + elen, 45 + llen + elen + (1)).len() == p6.len());
        assert forall|x: int| 0 <= x < p6.len() implies #[trigger] s.subrange(
            45 + llen + elen,
            45 + llen + elen + (1),
        )[x] == p6[x] by {
            let y = 45 + llen + elen + x;
            assert(s.subrange(45 + llen + elen, 45 + llen + elen + (1))[x] == s[y]);
            assert(s[y] == t16[y]);
            assert(t16[y] == t15[y]);
            assert(t15[y] == t14[y]);
            assert(t14[y] == t13[y]);
            assert(t13[y] == t12[y]);
            assert(t12[y] == t11[y]);
            assert(t11[y] == t10[y]);
            assert(t10[y] == t9[y]);
            assert(t9[y] == t8[y]);
            assert(t8[y] == t7[y]);
            assert(t7[y] == t6[y]);
            assert(t6[y] == p6[x]);
        }
    }
    let p7 = field_key_text("caller_name"@);
    assert(s.subrange(46 + llen + elen, 46 + llen + elen + (14)) =~= p7) by {
        assert(s.subrange(46 + llen + elen, 46 + llen + elen + (14)).len() == p7.len());
        assert forall|x: int| 0 <= x < p7.len() implies #[trigger] s.subrange(
            46 + llen + elen,
            46 + llen + elen + (14),
        )[x] == p7[x] by {
            let y = 46 + llen + elen + x;
            assert(s.subrange(46 + llen + elen, 46 + llen + elen + (14))[x] == s[y]);
            assert(s[y] == t16[y]);
            assert(t16[y] == t15[y]);
            assert(t15[y] == t14[y]);
            assert(t14[y] == t13[y]);
            assert(t13[y] == t12[y]);
            assert(t12[y] == t11[y]);
            assert(t11[y] == t10[y]);
            assert(t10[y] == t9[y]);
            assert(t9[y] == t8[y]);
            assert(t8[y] == t7[y]);
            assert(t7[y] == p7[x]);
        }
    }
    let p8 = quoted_text(m.caller_name@);
    assert(s.subrange(60 + llen + elen, 60 + llen + elen + (clen + 2)) =~= p8) by {
        assert(s.subrange(60 + llen + elen, 60 + llen + elen + (clen + 2)).len() == p8.len());
        assert forall|x: int| 0 <= x < p8.len() implies #[trigger] s.subrange(
            60 + llen + elen,
            60 + llen + elen + (clen + 2),
        )[x] == p8[x] by {
            let y = 60 + llen + elen + x;
            assert(s.subrange(60 + llen + elen, 60 + llen + elen + (clen + 2))[x] == s[y]);
            assert(s[y] == t16[y]);
            assert(t16[y] == t15[y]);
            assert(t15[y] == t14[y]);
            assert(t14[y] == t13[y]);
            assert(t13[y] == t12[y]);
            assert(t12[y] == t11[y]);
            assert(t11[y] == t10[y]);
            assert(t10[y] == t9[y]);
            assert(t9[y] == t8[y]);
            assert(t8[y] == p8[x]);
        }
    }
    let p9 = ","@;
    assert(s.subrange(62 + llen + elen + clen, 62 + llen + elen + clen + (1)) =~= p9) by {
        assert(s.subrange(62 + llen + elen + clen, 62 + llen + elen + clen + (1)).len() == p9.len());
        assert forall|x: int| 0 <= x < p9.len() implies #[trigger] s.subrange(
            62 + llen + elen + clen,
            62 + llen + elen + clen + (1),
        )[x] == p9[x] by {
            let y = 62 + llen + elen + clen + x;
            assert(s.subrange(62 + llen + elen + clen, 62 + llen + elen + clen + (1))[x] == s[y]);
            assert(s[y] == t16[y]);
            assert(t16[y] == t15[y]);
            assert(t15[y] == t14[y]);
            assert(t14[y] == t13[y]);
            assert(t13[y] == t12[y]);
            assert(t12[y] == t11[y]);
            assert(t11[y] == t10[y]);
            assert(t10[y] == t9[y]);
            assert(t9[y] == p9[x]);
        }
    }
    let p10 = field_key_text("description"@);
    assert(s.subrange(63 + llen + elen + clen, 63 + llen + elen + clen + (14)) =~= p10) by {
        assert(s.subrange(63 + llen + elen + clen, 63 + llen + elen + clen + (14)).len() == p10.len());
        assert forall|x: int| 0 <= x < p10.len() implies #[trigger] s.subrange(
            63 + llen + elen + clen,
            63 + llen + elen + clen + (14),
        )[x] == p10[x] by {
            let y = 63 + llen + elen + clen + x;
            assert(s.subrange(63 + llen + elen + clen, 63 + llen + elen + clen + (14))[x] == s[y]);
            assert(s[y] == t16[y]);
            assert(t16[y] == t15[y]);
            assert(t15[y] == t14[y]);
            assert(t14[y] == t13[y]);
            assert(t13[y] == t12[y]);
            assert(t12[y] == t11[y]);
            assert(t11[y] == t10[y]);
            assert(t10[y] == p10[x]);
        }
    }
    let p11 = quoted_text(m.description@);
    assert(s.subrange(77 + llen + elen + clen, 77 + llen + elen + clen + (dlen + 2)) =~= p11) by {
        assert(s.subrange(77 + llen + elen + clen, 77 + llen + elen + clen + (dlen + 2)).len() == p11.len());
        assert forall|x: int| 0 <= x < p11.len() implies #[trigger] s.subrange(
            77 + llen + elen + clen,
            77 + llen + elen + clen + (dlen + 2),
        )[x] == p11[x] by {
            let y = 77 + llen + elen + clen + x;
            assert(s.subrange(77 + llen + elen + clen, 77 + llen + elen + clen + (dlen + 2))[x] == s[y]);
            assert(s[y] == t16[y]);
            assert(t16[y] == t15[y]);
            assert(t15[y] == t14[y]);
            assert(t14[y] == t13[y]);
            assert(t13[y] == t12[y]);
            assert(t12[y] == t11[y]);
            assert(t11[y] == p11[x]);
        }
    }
    let p12 = ","@;
    assert(s.subrange(79 + llen + elen + clen + dlen, 79 + llen + elen + clen + dlen + (1)) =~= p12) by {
        assert(s.subrange(79 + llen + elen + clen + dlen, 79 + llen + elen + clen + dlen + (1)).len() == p12.len());
        assert forall|x: int| 0 <= x < p12.len() implies #[trigger] s.subrange(
            79 + llen + elen + clen + dlen,
            79 + llen + elen + clen + dlen + (1),
        )[x] == p12[x] by {
            let y = 79 + llen + elen + clen + dlen + x;
            assert(s.subrange(79 + llen + elen + clen + dlen, 79 + llen + elen + clen + dlen + (1))[x] == s[y]);
            assert(s[y] == t16[y]);
            assert(t16[y] == t15[y]);
            assert(t15[y] == t14[y]);
            assert(t14[y] == t13[y]);
            assert(t13[y] == t12[y]);
            assert(t12[y] == p12[x]);
        }
    }
    let p13 = field_key_text("output"@);
    assert(s.subrange(80 + llen + elen + clen + dlen, 80 + llen + elen + clen + dlen + (9)) =~= p13) by {
        assert(s.subrange(80 + llen + elen + clen + dlen, 80 + llen + elen + clen + dlen + (9)).len() == p13.len());
        assert forall|x: int| 0 <= x < p13.len() implies #[trigger] s.subrange(
            80 + llen + elen + clen + dlen,
            80 + llen + elen + clen + dlen + (9),
        )[x] == p13[x] by {
            let y = 80 + llen + elen + clen + dlen + x;
            assert(s.subrange(80 + llen + elen + clen + dlen, 80 + llen + elen + clen + dlen + (9))[x] == s[y]);
            assert(s[y] == t16[y]);
            assert(t16[y] == t15[y]);
            assert(t15[y] == t14[y]);
            assert(t14[y] == t13[y]);
            assert(t13[y] == p13[x]);
        }
    }
    let p14 = "{"@;
    assert(s.subrange(89 + llen + elen + clen + dlen, 89 + llen + elen + clen + dlen + (1)) =~= p14) by {
        assert(s.subrange(89 + llen + elen + clen + dlen, 89 + llen + elen + clen + dlen + (1)).len() == p14.len());
        assert forall|x: int| 0 <= x < p14.len() implies #[trigger] s.subrange(
            89 + llen + elen + clen + dlen,
            89 + llen + elen + clen + dlen + (1),
        )[x] == p14[x] by {
            let y = 89 + llen + elen + clen + dlen + x;
            assert(s.subrange(89 + llen + elen + clen + dlen, 89 + llen + elen + clen + dlen + (1))[x] == s[y]);
            assert(s[y] == t16[y]);
            assert(t16[y] == t15[y]);
            assert(t15[y] == t14[y]);
            assert(t14[y] == p14[x]);
        }
    }
    let p15 = (entries_text(m.data.entries@, m.percentiles@, 0) + "}"@);
    assert(s.subrange(90 + llen + elen + clen + dlen, 90 + llen + elen + clen + dlen + (eln + 1)) =~= p15) by {
        assert(s.subrange(90 + llen + elen + clen + dlen, 90 + llen + elen + clen + dlen + (eln + 1)).len() == p15.len());
        assert forall|x: int| 0 <= x < p15.len() implies #[trigger] s.subrange(
            90 + llen + elen + clen + dlen,
            90 + llen + elen + clen + dlen + (eln + 1),
        )[x] == p15[x] by {
            let y = 90 + llen + elen + clen + dlen + x;
            assert(s.subrange(90 + llen + elen + clen + dlen, 90 + llen + elen + clen + dlen + (eln + 1))[x] == s[y]);
            assert(s[y] == t16[y]);
            assert(t16[y] == t15[y]);
            assert(t15[y] == p15[x]);
        }
    }
    let p16 = "}"@;
    assert(s.subrange(91 + llen + elen + clen + dlen + eln, 91 + llen + elen + clen + dlen + eln + (1)) =~= p16) by {
        assert(s.subrange(91 + llen + elen + clen + dlen + eln, 91 + llen + elen + clen + dlen + eln + (1)).len() == p16.len());
        assert forall|x: int| 0 <= x < p16.len() implies #[trigger] s.subrange(
            91 + llen + elen + clen + dlen + eln,
            91 + llen + elen + clen + dlen + eln + (1),
        )[x] == p16[x] by {
            let y = 91 + llen + elen + clen + dlen + eln + x;
            assert(s.subrange(91 + llen + elen + clen + dlen + eln, 91 + llen + elen + clen + dlen + eln + (1))[x] == s[y]);
            assert(s[y] == t16[y]);
            assert(t16[y] == p16[x]);
        }
    }
    assert(s[0] == s.subrange(0int, 0int + (1))[0]);
    assert(s[0] == '{');
    lemma_key_from_piece(s, 1, "hotpath_profiling_mode"@);
    lemma_string_from_piece(s, 26, label);
    assert(s[28 + llen] == s.subrange(28 + llen, 28 + llen + (1))[0]);
    assert(s[28 + llen] == ',');
    lemma_key_from_piece(s, 29 + llen, "total_elapsed"@);
    assert(s[45 + llen + elen] == s.subrange(45 + llen + elen, 45 + llen + elen + (1))[0]);
    assert(s[45 + llen + elen] == ',');
    assert(spec_number_at(s, 45 + llen, m.total_elapsed)) by {
        assert(!crate::text::spec_is_digit(','));
    }
    lemma_key_from_piece(s, 46 + llen + elen, "caller_name"@);
    lemma_string_from_piece(s, 60 + llen + elen, m.caller_name@);
    assert(s[62 + llen + elen + clen] == s.subrange(
        62 + llen + elen + clen,
        62 + llen + elen + clen + (1),
    )[0]);
    assert(s[62 + llen + elen + clen] == ',');
    lemma_key_from_piece(s, 63 + llen + elen + clen, "description"@);
    lemma_string_from_piece(s, 77 + llen + elen + clen, m.description@);
    assert(s[79 + llen + elen + clen + dlen] == s.subrange(
        79 + llen + elen + clen + dlen,
        79 + llen + elen + clen + dlen + (1),
    )[0]);
    assert(s[79 + llen + elen + clen + dlen] == ',');
    lemma_key_from_piece(s, 80 + llen + elen + clen + dlen, "output"@);
    assert(s[89 + llen + elen + clen + dlen] == s.subrange(
        89 + llen + elen + clen + dlen,
        89 + llen + elen + clen + dlen + (1),
    )[0]);
    assert(s[89 + llen + elen + clen + dlen] == '{');
    assert(spec_output_at(
        s,
        90 + llen + elen + clen + dlen,
        m.hotpath_profiling_mode,
        m.data.entries@,
        m.percentiles@,
    ));
    assert(s[91 + llen + elen + clen + dlen + eln] == s.subrange(
        91 + llen + elen + clen + dlen + eln,
        91 + llen + elen + clen + dlen + eln + (1),
    )[0]);
    assert(s[91 + llen + elen + clen + dlen + eln] == '}');
}

/// What a report must satisfy for its text to read back: escape-free caller
/// name, description and function names, each function named once, and every
/// row fitting the mode and the percentile list.
pub open spec fn spec_wf_report(m: MetricsJson) -> bool {
    &&& json_safe(m.caller_name@)
    &&& json_safe(m.description@)
    &&& spec_entries_wf(m.hotpath_profiling_mode, m.data.entries@, m.percentiles@)
}

/// Two reports carry the same data: same mode, elapsed time, caller,
/// description, and entries; the percentile lists agree whenever at least
/// one function row spells them out.
pub open spec fn spec_same_report(a: MetricsJson, b: MetricsJson) -> bool {
    &&& a.hotpath_profiling_mode == b.hotpath_profiling_mode
    &&& a.total_elapsed == b.total_elapsed
    &&& a.caller_name@ == b.caller_name@
    &&& a.description@ == b.description@
    &&& a.data.entries@.len() == b.data.entries@.len()
    &&& forall|j: int|
        0 <= j < a.data.entries@.len() ==> (#[trigger] a.data.entries@[j]).0@
            == b.data.entries@[j].0@ && a.data.entries@[j].1@ == b.data.entries@[j].1@
    &&& b.data.entries@.len() > 0 ==> a.percentiles@ == b.percentiles@
}

/// Where the output object's first entry begins in a report's text.
pub open spec fn spec_output_pos(m: MetricsJson) -> int {
    90int + m.hotpath_profiling_mode.spec_label().len() + dec_str(m.total_elapsed as int).len()
        + m.caller_name@.len() + m.description@.len()
}

/// Reads the opening brace, the mode field's key and label. On the stable
/// layout this ends right after the label's closing quote.
#[verifier::rlimit(100)]
fn parse_mode_field(s: &str) -> (r: Option<(ProfilingMode, usize)>)
    requires
        s@.len() <= usize::MAX,
    ensures
        r matches Some(h) ==> h.1 <= s@.len(),
        forall|m: MetricsJson|
            (#[trigger] spec_wf_report(m)) && s@ == metrics_text(m) ==> match r {
                Some(h) => h.0 == m.hotpath_profiling_mode && h.1 == 28int
                    + m.hotpath_profiling_mode.spec_label().len(),
                None => false,
            },
{
    let a1 = match expect_token(s, 0, '{') {
        Some(j) => j,
        None => {
            proof {
                assert forall|m: MetricsJson| !((#[trigger] spec_wf_report(m)) && s@ == metrics_text(m)) by {
                    if spec_wf_report(m) && s@ == metrics_text(m) {
                        lemma_top_fields(s@, m);
                    }
                }
            }
            return None;
        },
    };
    let a2 = match expect_key(s, a1, "hotpath_profiling_mode") {
        Some(j) => j,
        None => {
            proof {
                assert forall|m: MetricsJson| !((#[trigger] spec_wf_report(m)) && s@ == metrics_text(m)) by {
                    if spec_wf_report(m) && s@ == metrics_text(m) {
                        lemma_top_fields(s@, m);
                        assert(a1 == 1);
                        assert(spec_key_at(s@, 1, "hotpath_profiling_mode"@));
                    }
                }
            }
            return None;
        },
    };
    let (label, a3) = match parse_string_at(s, a2) {
        Some(p) => p,
        None => {
            proof {
                assert forall|m: MetricsJson| !((#[trigger] spec_wf_report(m)) && s@ == metrics_text(m)) by {
                    if spec_wf_report(m) && s@ == metrics_text(m) {
                        lemma_top_fields(s@, m);
                        reveal_strlit("hotpath_profiling_mode");
                        assert("hotpath_profiling_mode"@.len() == 22);
                        assert(a2 == 26);
                        assert(spec_string_at(s@, 26, m.hotpath_profiling_mode.spec_label()));
                    }
                }
            }
            return None;
        },
    };
    let mode = match mode_of_label(&label) {
        Some(md) => md,
        None => {
            proof {
                assert forall|m: MetricsJson| !((#[trigger] spec_wf_report(m)) && s@ == metrics_text(m)) by {
                    if spec_wf_report(m) && s@ == metrics_text(m) {
                        lemma_top_fields(s@, m);
                        reveal_strlit("hotpath_profiling_mode");
                        assert("hotpath_profiling_mode"@.len() == 22);
                        assert(a2 == 26);
                        assert(label@ == m.hotpath_profiling_mode.spec_label());
                    }
                }
            }
            return None;
        },
    };
    proof {
        assert forall|m: MetricsJson| (#[trigger] spec_wf_report(m)) && s@ == metrics_text(m) implies mode == m.hotpath_profiling_mode && a3 == 28int
            + m.hotpath_profiling_mode.spec_label().len() by {
            lemma_top_fields(s@, m);
            reveal_strlit("hotpath_profiling_mode");
            assert("hotpath_profiling_mode"@.len() == 22);
            assert(a2 == 26);
            assert(label@ == m.hotpath_profiling_mode.spec_label());
        }
    }
    Some((mode, a3))
}

/// Reads one `,"key":` preamble followed by a number field at `at`.
#[verifier::rlimit(100)]
fn parse_elapsed_field(s: &str, at: usize) -> (r: Option<(u64, usize)>)
    requires
        at <= s@.len(),
        s@.len() <= usize::MAX,
    ensures
        r matches Some(h) ==> h.1 <= s@.len(),
        forall|m: MetricsJson|
            (#[trigger] spec_wf_report(m)) && s@ == metrics_text(m) && at as int == 28int
                + m.hotpath_profiling_mode.spec_label().len() ==> match r {
                Some(h) => h.0 == m.total_elapsed && h.1 == 45int
                    + m.hotpath_profiling_mode.spec_label().len() + dec_str(
                    m.total_elapsed as int,
                ).len(),
                None => false,
            },
{
    let b1 = match expect_token(s, at, ',') {
        Some(j) => j,
        None => {
            proof {
                assert forall|m: MetricsJson| !((#[trigger] spec_wf_report(m)) && s@ == metrics_text(m) && at as int == 28int + m.hotpath_profiling_mode.spec_label().len()) by {
                    if spec_wf_report(m) && s@ == metrics_text(m) && at as int == 28int
                        + m.hotpath_profiling_mode.spec_label().len() {
                        lemma_top_fields(s@, m);
                        assert(s@[at as int] == ',');
                    }
                }
            }
            return None;
        },
    };
    let b2 = match expect_key(s, b1, "total_elapsed") {
        Some(j) => j,
        None => {
            proof {
                assert forall|m: MetricsJson| !((#[trigger] spec_wf_report(m)) && s@ == metrics_text(m) && at as int == 28int + m.hotpath_profiling_mode.spec_label().len()) by {
                    if spec_wf_report(m) && s@ == metrics_text(m) && at as int == 28int
                        + m.hotpath_profiling_mode.spec_label().len() {
                        lemma_top_fields(s@, m);
                        assert(s@[at as int] == ',');
                        assert(b1 == at + 1);
                        assert(spec_key_at(s@, b1 as int, "total_elapsed"@));
                    }
                }
            }
            return None;
        },
    };
    let parsed = parse_u64_at(s, b2);
    proof {
        assert forall|m: MetricsJson| (#[trigger] spec_wf_report(m)) && s@ == metrics_text(m) && at as int == 28int + m.hotpath_profiling_mode.spec_label().len() implies (match parsed {
            Some(h) => h.0 == m.total_elapsed && h.1 as int == 45int
                + m.hotpath_profiling_mode.spec_label().len() + dec_str(
                m.total_elapsed as int,
            ).len(),
            None => false,
        }) by {
            lemma_top_fields(s@, m);
            reveal_strlit("total_elapsed");
            assert("total_elapsed"@.len() == 13);
            assert(s@[at as int] == ',');
            assert(b1 == at + 1);
            assert(spec_key_at(s@, b1 as int, "total_elapsed"@));
            assert(b2 == 45int + m.hotpath_profiling_mode.spec_label().len());
            assert(spec_number_at(s@, b2 as int, m.total_elapsed));
        }
    }
    parsed
}

/// Reads one `,"key":"value"` string field whose comma stands at `at`; the
/// position expressions tie it to the caller-name or description slot.
#[verifier::rlimit(100)]
fn parse_string_field(s: &str, at: usize, key: &str) -> (r: Option<(String, usize)>)
    requires
        at <= s@.len(),
        s@.len() <= usize::MAX,
    ensures
        r matches Some(h) ==> h.1 <= s@.len(),
        forall|m: MetricsJson, v: Seq<char>|
            #![trigger spec_wf_report(m), spec_string_at(s@, at as int + key@.len() + 4, v)]
            spec_wf_report(m) && s@ == metrics_text(m) && s@[at as int] == ','
                && spec_key_at(s@, at as int + 1, key@) && spec_string_at(
                s@,
                at as int + key@.len() + 4,
                v,
            ) ==> match r {
                Some(h) => h.0@ == v && h.1 as int == at + key@.len() + 4 + v.len() + 2,
                None => false,
            },
{
    let c1 = match expect_token(s, at, ',') {
        Some(j) => j,
        None => {
            proof {
                assert forall|m: MetricsJson, v: Seq<char>|
                    #![trigger spec_wf_report(m), spec_string_at(s@, at as int + key@.len() + 4, v)]
                    !(spec_wf_report(m) && s@ == metrics_text(m) && s@[at as int] == ','
                        && spec_key_at(s@, at as int + 1, key@) && spec_string_at(
                        s@,
                        at as int + key@.len() + 4,
                        v,
                    )) by {
                    if spec_wf_report(m) && s@ == metrics_text(m) && s@[at as int] == ','
                        && spec_key_at(s@, at as int + 1, key@) && spec_string_at(
                        s@,
                        at as int + key@.len() + 4,
                        v,
                    ) {
                        assert(!spec_is_ws(','));
                    }
                }
            }
            return None;
        },
    };
    let c2 = match expect_key(s, c1, key) {
        Some(j) => j,
        None => {
            proof {
                assert forall|m: MetricsJson, v: Seq<char>|
                    #![trigger spec_wf_report(m), spec_string_at(s@, at as int + key@.len() + 4, v)]
                    !(spec_wf_report(m) && s@ == metrics_text(m) && s@[at as int] == ','
                        && spec_key_at(s@, at as int + 1, key@) && spec_string_at(
                        s@,
                        at as int + key@.len() + 4,
                        v,
                    )) by {
                    if spec_wf_report(m) && s@ == metrics_text(m) && s@[at as int] == ','
                        && spec_key_at(s@, at as int + 1, key@) && spec_string_at(
                        s@,
                        at as int + key@.len() + 4,
                        v,
                    ) {
                        assert(c1 == at + 1);
                        assert(spec_key_at(s@, c1 as int, key@));
                    }
                }
            }
            return None;
        },
    };
    let parsed = parse_string_at(s, c2);
    proof {
        assert forall|m: MetricsJson, v: Seq<char>|
            #![trigger spec_wf_report(m), spec_string_at(s@, at as int + key@.len() + 4, v)]
            spec_wf_report(m) && s@ == metrics_text(m) && s@[at as int] == ',' && spec_key_at(
                s@,
                at as int + 1,
                key@,
            ) && spec_string_at(s@, at as int + key@.len() + 4, v) implies (match parsed {
            Some(h) => h.0@ == v && h.1 as int == at + key@.len() + 4 + v.len() + 2,
            None => false,
        }) by {
            assert(c1 == at + 1);
            assert(spec_key_at(s@, c1 as int, key@));
            assert(c2 == at + key@.len() + 4);
            assert(spec_string_at(s@, c2 as int, v));
        }
    }
    parsed
}

/// Reads the `,"output":{` preamble whose comma stands at `at`.
#[verifier::rlimit(100)]
fn parse_output_open(s: &str, at: usize) -> (r: Option<usize>)
    requires
        at <= s@.len(),
        s@.len() <= usize::MAX,
    ensures
        r matches Some(h) ==> h <= s@.len(),
        forall|m: MetricsJson|
            (#[trigger] spec_wf_report(m)) && s@ == metrics_text(m) && at as int == 79int
                + m.hotpath_profiling_mode.spec_label().len() + dec_str(
                m.total_elapsed as int,
            ).len() + m.caller_name@.len() + m.description@.len() ==> r == Some(
                (at + 11) as usize,
            ),
{
    let d1 = match expect_token(s, at, ',') {
        Some(j) => j,
        None => {
            proof {
                assert forall|m: MetricsJson| !((#[trigger] spec_wf_report(m)) && s@ == metrics_text(m) && at as int == 79int + m.hotpath_profiling_mode.spec_label().len() + dec_str(m.total_elapsed as int).len() + m.caller_name@.len() + m.description@.len()) by {
                    if spec_wf_report(m) && s@ == metrics_text(m) && at as int == 79int
                        + m.hotpath_profiling_mode.spec_label().len() + dec_str(
                        m.total_elapsed as int,
                    ).len() + m.caller_name@.len() + m.description@.len() {
                        lemma_top_fields(s@, m);
                        assert(s@[at as int] == ',');
                    }
                }
            }
            return None;
        },
    };
    let d2 = match expect_key(s, d1, "output") {
        Some(j) => j,
        None => {
            proof {
                assert forall|m: MetricsJson| !((#[trigger] spec_wf_report(m)) && s@ == metrics_text(m) && at as int == 79int + m.hotpath_profiling_mode.spec_label().len() + dec_str(m.total_elapsed as int).len() + m.caller_name@.len() + m.description@.len()) by {
                    if spec_wf_report(m) && s@ == metrics_text(m) && at as int == 79int
                        + m.hotpath_profiling_mode.spec_label().len() + dec_str(
                        m.total_elapsed as int,
                    ).len() + m.caller_name@.len() + m.description@.len() {
                        lemma_top_fields(s@, m);
                        assert(s@[at as int] == ',');
                        assert(d1 == at + 1);
                        assert(spec_key_at(s@, d1 as int, "output"@));
                    }
                }
            }
            return None;
        },
    };
    let d3 = match expect_token(s, d2, '{') {
        Some(j) => j,
        None => {
            proof {
                assert forall|m: MetricsJson| !((#[trigger] spec_wf_report(m)) && s@ == metrics_text(m) && at as int == 79int + m.hotpath_profiling_mode.spec_label().len() + dec_str(m.total_elapsed as int).len() + m.caller_name@.len() + m.description@.len()) by {
                    if spec_wf_report(m) && s@ == metrics_text(m) && at as int == 79int
                        + m.hotpath_profiling_mode.spec_label().len() + dec_str(
                        m.total_elapsed as int,
                    ).len() + m.caller_name@.len() + m.description@.len() {
                        lemma_top_fields(s@, m);
                        reveal_strlit("output");
                        assert("output"@.len() == 6);
                        assert(s@[at as int] == ',');
                        assert(d1 == at + 1);
                        assert(spec_key_at(s@, d1 as int, "output"@));
                        assert(d2 == at + 10);
                        assert(s@[d2 as int] == '{');
                    }
                }
            }
            return None;
        },
    };
    proof {
        assert forall|m: MetricsJson| (#[trigger] spec_wf_report(m)) && s@ == metrics_text(m) && at as int == 79int + m.hotpath_profiling_mode.spec_label().len() + dec_str(m.total_elapsed as int).len() + m.caller_name@.len() + m.description@.len() implies d3 == at + 11 by {
            lemma_top_fields(s@, m);
            reveal_strlit("output");
            assert("output"@.len() == 6);
            assert(s@[at as int] == ',');
            assert(d1 == at + 1);
            assert(spec_key_at(s@, d1 as int, "output"@));
            assert(d2 == at + 10);
            assert(s@[d2 as int] == '{');
        }
    }
    Some(d3)
}

/// Reads the report's five header fields up to the opening of the `output`
/// object, returning the mode, elapsed time, caller name, description, and
/// the position of the first entry.
#[verifier::rlimit(100)]
fn parse_report_header(s: &str) -> (r: Option<(ProfilingMode, u64, String, String, usize)>)
    ensures
        r matches Some(h) ==> h.4 <= s@.len(),
        forall|m: MetricsJson|
            (#[trigger] spec_wf_report(m)) && s@ == metrics_text(m) ==> match r {
                Some(h) => {
                    &&& h.0 == m.hotpath_profiling_mode
                    &&& h.1 == m.total_elapsed
                    &&& h.2@ == m.caller_name@
                    &&& h.3@ == m.description@
                    &&& h.4 == spec_output_pos(m)
                    &&& spec_output_at(
                        s@,
                        spec_output_pos(m),
                        m.hotpath_profiling_mode,
                        m.data.entries@,
                        m.percentiles@,
                    )
                },
                None => false,
            },
{
    // The reading pins the text's length within the machine's bounds for
    // every position computation below.
    let text_len = s.unicode_len();
    proof {
        assert(text_len == s@.len());
    }
    let (mode, a3) = match parse_mode_field(s) {
        Some(h) => h,
        None => {
            return None;
        },
    };
    let (total_elapsed, a6) = match parse_elapsed_field(s, a3) {
        Some(h) => h,
        None => {
            return None;
        },
    };
    proof {
        assert forall|m: MetricsJson| (#[trigger] spec_wf_report(m)) && s@ == metrics_text(m) implies s@[a6 as int] == ',' && spec_key_at(
            s@,
            a6 as int + 1,
            "caller_name"@,
        ) && spec_string_at(s@, a6 as int + "caller_name"@.len() + 4, m.caller_name@) by {
            lemma_top_fields(s@, m);
            reveal_strlit("caller_name");
            assert("caller_name"@.len() == 11);
        }
    }
    let (caller_name, a9) = match parse_string_field(s, a6, "caller_name") {
        Some(h) => h,
        None => {
            proof {
                assert forall|m: MetricsJson| !((#[trigger] spec_wf_report(m)) && s@ == metrics_text(m)) by {
                    if spec_wf_report(m) && s@ == metrics_text(m) {
                        reveal_strlit("caller_name");
                    }
                }
            }
            return None;
        },
    };
    proof {
        assert forall|m: MetricsJson| (#[trigger] spec_wf_report(m)) && s@ == metrics_text(m) implies caller_name@ == m.caller_name@ && a9 as int
            == 62int + m.hotpath_profiling_mode.spec_label().len() + dec_str(
            m.total_elapsed as int,
        ).len() + m.caller_name@.len() by {
            reveal_strlit("caller_name");
            assert("caller_name"@.len() == 11);
        }
    }
    proof {
        assert forall|m: MetricsJson| (#[trigger] spec_wf_report(m)) && s@ == metrics_text(m) implies s@[a9 as int] == ',' && spec_key_at(
            s@,
            a9 as int + 1,
            "description"@,
        ) && spec_string_at(s@, a9 as int + "description"@.len() + 4, m.description@) by {
            lemma_top_fields(s@, m);
            reveal_strlit("description");
            assert("description"@.len() == 11);
        }
    }
    let (description, a12) = match parse_string_field(s, a9, "description") {
        Some(h) => h,
        None => {
            proof {
                assert forall|m: MetricsJson| !((#[trigger] spec_wf_report(m)) && s@ == metrics_text(m)) by {
                    if spec_wf_report(m) && s@ == metrics_text(m) {
                        reveal_strlit("description");
                    }
                }
            }
            return None;
        },
    };
    proof {
        assert forall|m: MetricsJson| (#[trigger] spec_wf_report(m)) && s@ == metrics_text(m) implies description@ == m.description@ && a12 as int
            == 79int + m.hotpath_profiling_mode.spec_label().len() + dec_str(
            m.total_elapsed as int,
        ).len() + m.caller_name@.len() + m.description@.len() by {
            reveal_strlit("description");
            assert("description"@.len() == 11);
        }
    }
    let a15 = match parse_output_open(s, a12) {
        Some(h) => h,
        None => {
            return None;
        },
    };
    proof {
        assert forall|m: MetricsJson| (#[trigger] spec_wf_report(m)) && s@ == metrics_text(m) implies a15 == spec_output_pos(m) && spec_output_at(
            s@,
            spec_output_pos(m),
            m.hotpath_profiling_mode,
            m.data.entries@,
            m.percentiles@,
        ) by {
            lemma_top_fields(s@, m);
        }
    }
    Some((mode, total_elapsed, caller_name, description, a15))
}

/// Reads an exported report back from its JSON text. Succeeds only on a
/// well-shaped report: the five fields in their stable order, every function
/// named once, and every row holding one cell per column, so a successful
/// parse is ready for comparison. The format is round-trippable: the exact
/// text `metrics_text` spells for a well-formed report reads back as an
/// equivalent report, with the percentile list recovered from the `p<N>`
/// keys of its rows.
#[verifier::rlimit(100)]
pub fn parse_metrics(s: &str) -> (r: Option<MetricsJson>)
    ensures
        r matches Some(m) ==> {
            &&& crate::diff::spec_distinct_names(m.data.entries@)
            &&& forall|j: int|
                0 <= j < m.data.entries@.len() ==> (#[trigger] m.data.entries@[j]).1@.len()
                    == m.percentiles@.len() + 4
        },
        forall|m: MetricsJson|
            (#[trigger] spec_wf_report(m)) && s@ == metrics_text(m) ==> r is Some
                && spec_same_report(r.unwrap(), m),
{
    let n = s.unicode_len();
    let (mode, total_elapsed, caller_name, description, a15) = match parse_report_header(s) {
        Some(h) => h,
        None => {
            return None;
        },
    };
    let mut entries: Vec<(String, Vec<MetricType>)> = Vec::new();
    let mut percentiles: Vec<u8> = Vec::new();
    let after_entries: usize;
    let probe = skip_ws(s, a15);
    if probe < n && s.get_char(probe) == '}' {
        proof {
            assert forall|m: MetricsJson| (#[trigger] spec_wf_report(m)) && s@ == metrics_text(
                m,
            ) implies m.data.entries@.len() == 0 && probe + 1 == spec_output_pos(m)
                + entries_text(m.data.entries@, m.percentiles@, 0).len() + 1 by {
                lemma_top_fields(s@, m);
                if m.data.entries@.len() > 0 {
                    lemma_entry_facts(
                        s@,
                        spec_output_pos(m),
                        m.hotpath_profiling_mode,
                        m.data.entries@,
                        m.percentiles@,
                        0,
                    );
                    assert(s@[a15 as int] == '"');
                    assert(!spec_is_ws('"'));
                    assert(probe == a15);
                }
                assert(entries_text(m.data.entries@, m.percentiles@, 0).len() == 0);
                assert(s@[a15 as int] == s@.subrange(
                    spec_output_pos(m),
                    spec_output_pos(m) + entries_text(m.data.entries@, m.percentiles@, 0).len()
                        + 1,
                )[0]);
                assert((entries_text(m.data.entries@, m.percentiles@, 0) + "}"@)[0] == '}') by {
                    reveal_strlit("}");
                }
                assert(s@[a15 as int] == '}');
                assert(!spec_is_ws('}'));
                assert(probe == a15);
            }
        }
        after_entries = probe + 1;
    } else {
        let mut pos = a15;
        let mut first = true;
        proof {
            assert forall|m: MetricsJson| (#[trigger] spec_wf_report(m)) && s@ == metrics_text(
                m,
            ) implies m.data.entries@.len() > 0 by {
                lemma_top_fields(s@, m);
                if m.data.entries@.len() == 0 {
                    assert(entries_text(m.data.entries@, m.percentiles@, 0).len() == 0);
                    assert(s@[a15 as int] == s@.subrange(
                        spec_output_pos(m),
                        spec_output_pos(m) + entries_text(
                            m.data.entries@,
                            m.percentiles@,
                            0,
                        ).len() + 1,
                    )[0]);
                    assert((entries_text(m.data.entries@, m.percentiles@, 0) + "}"@)[0]
                        == '}') by {
                        reveal_strlit("}");
                    }
                    assert(s@[a15 as int] == '}');
                    assert(!spec_is_ws('}'));
                    assert(probe == a15);
                    assert(probe < n);
                }
            }
        }
        loop
            invariant_except_break
                forall|m: MetricsJson|
                    (#[trigger] spec_wf_report(m)) && s@ == metrics_text(m) ==> {
                        &&& mode == m.hotpath_profiling_mode
                        &&& entries@.len() < m.data.entries@.len()
                        &&& (forall|j: int|
                            0 <= j < entries@.len() ==> (#[trigger] entries@[j]).0@
                                == m.data.entries@[j].0@ && entries@[j].1@
                                == m.data.entries@[j].1@)
                        &&& (entries@.len() > 0 ==> percentiles@ == m.percentiles@)
                        &&& pos == spec_entry_pos(
                            spec_output_pos(m),
                            m.data.entries@,
                            m.percentiles@,
                            entries@.len() as int,
                        ) + if entries@.len() > 0 {
                            1int
                        } else {
                            0int
                        }
                        &&& spec_output_at(
                            s@,
                            spec_output_pos(m),
                            m.hotpath_profiling_mode,
                            m.data.entries@,
                            m.percentiles@,
                        )
                    },
            invariant
                pos <= n,
                n == s@.len(),
                first <==> entries@.len() == 0,
                crate::diff::spec_distinct_names(entries@),
                forall|j: int|
                    0 <= j < entries@.len() ==> (#[trigger] entries@[j]).1@.len()
                        == percentiles@.len() + 4,
            ensures
                pos <= n,
                crate::diff::spec_distinct_names(entries@),
                forall|j: int|
                    0 <= j < entries@.len() ==> (#[trigger] entries@[j]).1@.len()
                        == percentiles@.len() + 4,
                forall|m: MetricsJson|
                    (#[trigger] spec_wf_report(m)) && s@ == metrics_text(m) ==> {
                        &&& entries@.len() == m.data.entries@.len()
                        &&& (forall|j: int|
                            0 <= j < entries@.len() ==> (#[trigger] entries@[j]).0@
                                == m.data.entries@[j].0@ && entries@[j].1@
                                == m.data.entries@[j].1@)
                        &&& percentiles@ == m.percentiles@
                        &&& pos == spec_output_pos(m) + entries_text(
                            m.data.entries@,
                            m.percentiles@,
                            0,
                        ).len() + 1
                    },
            decreases n - pos,
        {
            let ghost k = entries@.len() as int;
            let (name, p1) = match parse_string_at(s, pos) {
                Some(p) => p,
                None => {
                    proof {
                        assert forall|m: MetricsJson| !((#[trigger] spec_wf_report(m)) && s@
                            == metrics_text(m)) by {
                            if spec_wf_report(m) && s@ == metrics_text(m) {
                                lemma_entry_facts(
                                    s@,
                                    spec_output_pos(m),
                                    m.hotpath_profiling_mode,
                                    m.data.entries@,
                                    m.percentiles@,
                                    k,
                                );
                                assert(spec_string_at(s@, pos as int, m.data.entries@[k].0@));
                            }
                        }
                    }
                    return None;
                },
            };
            proof {
                assert forall|m: MetricsJson| (#[trigger] spec_wf_report(m)) && s@
                    == metrics_text(m) implies name@ == m.data.entries@[k].0@ && p1 == pos
                    + name@.len() + 2 by {
                    lemma_entry_facts(
                        s@,
                        spec_output_pos(m),
                        m.hotpath_profiling_mode,
                        m.data.entries@,
                        m.percentiles@,
                        k,
                    );
                    assert(spec_string_at(s@, pos as int, m.data.entries@[k].0@));
                }
            }
            let mut dup = false;
            let mut e: usize = 0;
            while e < entries.len()
                invariant
                    e <= entries@.len(),
                    dup == exists|j: int| 0 <= j < e && (#[trigger] entries@[j]).0@ == name@,
                decreases entries@.len() - e,
            {
                if entries[e].0.eq(&name) {
                    proof {
                        assert(entries@[e as int].0@ == name@);
                    }
                    dup = true;
                }
                e = e + 1;
            }
            if dup {
                proof {
                    assert forall|m: MetricsJson| !((#[trigger] spec_wf_report(m)) && s@
                        == metrics_text(m)) by {
                        if spec_wf_report(m) && s@ == metrics_text(m) {
                            let j = choose|j: int|
                                0 <= j < entries@.len() && (#[trigger] entries@[j]).0@ == name@;
                            assert(m.data.entries@[j].0@ == m.data.entries@[k].0@);
                        }
                    }
                }
                return None;
            }
            let p2 = match expect_token(s, p1, ':') {
                Some(j) => j,
                None => {
                    proof {
                        assert forall|m: MetricsJson| !((#[trigger] spec_wf_report(m)) && s@
                            == metrics_text(m)) by {
                            if spec_wf_report(m) && s@ == metrics_text(m) {
                                lemma_entry_facts(
                                    s@,
                                    spec_output_pos(m),
                                    m.hotpath_profiling_mode,
                                    m.data.entries@,
                                    m.percentiles@,
                                    k,
                                );
                                assert(s@[p1 as int] == ':');
                            }
                        }
                    }
                    return None;
                },
            };
            let (row, row_ps, p3) = match parse_function_cells(s, p2, mode) {
                Some(t) => t,
                None => {
                    proof {
                        assert forall|m: MetricsJson| !((#[trigger] spec_wf_report(m)) && s@
                            == metrics_text(m)) by {
                            if spec_wf_report(m) && s@ == metrics_text(m) {
                                lemma_entry_facts(
                                    s@,
                                    spec_output_pos(m),
                                    m.hotpath_profiling_mode,
                                    m.data.entries@,
                                    m.percentiles@,
                                    k,
                                );
                                assert(spec_cells_at(
                                    s@,
                                    p2 as int,
                                    mode,
                                    m.data.entries@[k].1@,
                                    m.percentiles@,
                                ));
                            }
                        }
                    }
                    return None;
                },
            };
            proof {
                assert forall|m: MetricsJson| (#[trigger] spec_wf_report(m)) && s@
                    == metrics_text(m) implies row@ == m.data.entries@[k].1@ && row_ps@
                    == m.percentiles@ && p3 == spec_entry_pos(
                    spec_output_pos(m),
                    m.data.entries@,
                    m.percentiles@,
                    k + 1,
                ) by {
                    lemma_entry_facts(
                        s@,
                        spec_output_pos(m),
                        m.hotpath_profiling_mode,
                        m.data.entries@,
                        m.percentiles@,
                        k,
                    );
                    assert(spec_cells_at(
                        s@,
                        p2 as int,
                        mode,
                        m.data.entries@[k].1@,
                        m.percentiles@,
                    ));
                }
            }
            if first {
                percentiles = row_ps;
                first = false;
            } else {
                if row_ps.len() != percentiles.len() {
                    proof {
                        assert forall|m: MetricsJson| !((#[trigger] spec_wf_report(m)) && s@
                            == metrics_text(m)) by {
                            if spec_wf_report(m) && s@ == metrics_text(m) {
                                assert(row_ps@ == m.percentiles@);
                                assert(percentiles@ == m.percentiles@);
                            }
                        }
                    }
                    return None;
                }
            }
            let ghost entries_snap = entries@;
            entries.push((name, row));
            proof {
                assert forall|a: int, b: int|
                    0 <= a < b < entries@.len() implies entries@[a].0@ != entries@[b].0@ by {
                    if b < entries@.len() - 1 {
                        assert(entries@[a] == entries_snap[a] && entries@[b] == entries_snap[b]);
                    } else {
                        assert(entries@[a] == entries_snap[a]);
                    }
                }
                assert forall|j2: int|
                    0 <= j2 < entries@.len() implies (#[trigger] entries@[j2]).1@.len()
                        == percentiles@.len() + 4 by {
                    if j2 < entries@.len() - 1 {
                        assert(entries@[j2] == entries_snap[j2]);
                    } else {
                        assert(entries@[j2].1@ == row@);
                    }
                }
            }
            let p4 = skip_ws(s, p3);
            if p4 < n && s.get_char(p4) == ',' {
                pos = p4 + 1;
                proof {
                    assert forall|m: MetricsJson| (#[trigger] spec_wf_report(m)) && s@
                        == metrics_text(m) implies {
                        &&& entries@.len() < m.data.entries@.len()
                        &&& (forall|j: int|
                            0 <= j < entries@.len() ==> (#[trigger] entries@[j]).0@
                                == m.data.entries@[j].0@ && entries@[j].1@
                                == m.data.entries@[j].1@)
                        &&& (entries@.len() > 0 ==> percentiles@ == m.percentiles@)
                        &&& pos == spec_entry_pos(
                            spec_output_pos(m),
                            m.data.entries@,
                            m.percentiles@,
                            entries@.len() as int,
                        ) + 1
                    } by {
                        lemma_entry_facts(
                            s@,
                            spec_output_pos(m),
                            m.hotpath_profiling_mode,
                            m.data.entries@,
                            m.percentiles@,
                            k,
                        );
                        if k + 1 == m.data.entries@.len() {
                            assert(s@[p3 as int] == '}');
                            assert(!spec_is_ws('}'));
                            assert(p4 == p3);
                            assert(false);
                        }
                        assert(s@[p3 as int] == ',');
                        assert(!spec_is_ws(','));
                        assert(p4 == p3);
                        assert forall|j: int|
                            0 <= j < entries@.len() implies (#[trigger] entries@[j]).0@
                                == m.data.entries@[j].0@ && entries@[j].1@
                                == m.data.entries@[j].1@ by {
                            if j < entries@.len() - 1 {
                                assert(entries@[j] == entries_snap[j]);
                            } else {
                                assert(entries@[j].0@ == name@ && entries@[j].1@ == row@);
                            }
                        }
                    }
                }
            } else if p4 < n && s.get_char(p4) == '}' {
                pos = p4 + 1;
                proof {
                    assert forall|m: MetricsJson| (#[trigger] spec_wf_report(m)) && s@
                        == metrics_text(m) implies {
                        &&& entries@.len() == m.data.entries@.len()
                        &&& (forall|j: int|
                            0 <= j < entries@.len() ==> (#[trigger] entries@[j]).0@
                                == m.data.entries@[j].0@ && entries@[j].1@
                                == m.data.entries@[j].1@)
                        &&& percentiles@ == m.percentiles@
                        &&& pos == spec_output_pos(m) + entries_text(
                            m.data.entries@,
                            m.percentiles@,
                            0,
                        ).len() + 1
                    } by {
                        lemma_entry_facts(
                            s@,
                            spec_output_pos(m),
                            m.hotpath_profiling_mode,
                            m.data.entries@,
                            m.percentiles@,
                            k,
                        );
                        if k + 1 < m.data.entries@.len() {
                            assert(s@[p3 as int] == ',');
                            assert(!spec_is_ws(','));
                            assert(p4 == p3);
                            assert(false);
                        }
                        assert(s@[p3 as int] == '}');
                        assert(!spec_is_ws('}'));
                        assert(p4 == p3);
                        assert forall|j: int|
                            0 <= j < entries@.len() implies (#[trigger] entries@[j]).0@
                                == m.data.entries@[j].0@ && entries@[j].1@
                                == m.data.entries@[j].1@ by {
                            if j < entries@.len() - 1 {
                                assert(entries@[j] == entries_snap[j]);
                            } else {
                                assert(entries@[j].0@ == name@ && entries@[j].1@ == row@);
                            }
                        }
                    }
                }
                break ;
            } else {
                proof {
                    assert forall|m: MetricsJson| !((#[trigger] spec_wf_report(m)) && s@
                        == metrics_text(m)) by {
                        if spec_wf_report(m) && s@ == metrics_text(m) {
                            lemma_entry_facts(
                                s@,
                                spec_output_pos(m),
                                m.hotpath_profiling_mode,
                                m.data.entries@,
                                m.percentiles@,
                                k,
                            );
                            if k + 1 < m.data.entries@.len() {
                                assert(s@[p3 as int] == ',');
                                assert(!spec_is_ws(','));
                                assert(p4 == p3);
                            } else {
                                assert(s@[p3 as int] == '}');
                                assert(!spec_is_ws('}'));
                                assert(p4 == p3);
                            }
                            assert(p4 < n);
                        }
                    }
                }
                return None;
            }
        }
        after_entries = pos;
    }
    let end = match expect_token(s, after_entries, '}') {
        Some(j) => j,
        None => {
            proof {
                assert forall|m: MetricsJson| !((#[trigger] spec_wf_report(m)) && s@
                    == metrics_text(m)) by {
                    if spec_wf_report(m) && s@ == metrics_text(m) {
                        lemma_top_fields(s@, m);
                        assert(after_entries == spec_output_pos(m) + entries_text(
                            m.data.entries@,
                            m.percentiles@,
                            0,
                        ).len() + 1);
                        assert(s@[after_entries as int] == '}');
                    }
                }
            }
            return None;
        },
    };
    let tail = skip_ws(s, end);
    if tail != n {
        proof {
            assert forall|m: MetricsJson| !((#[trigger] spec_wf_report(m)) && s@ == metrics_text(
                m,
            )) by {
                if spec_wf_report(m) && s@ == metrics_text(m) {
                    lemma_top_fields(s@, m);
                    assert(after_entries == spec_output_pos(m) + entries_text(
                        m.data.entries@,
                        m.percentiles@,
                        0,
                    ).len() + 1);
                    assert(s@[after_entries as int] == '}');
                    assert(end == after_entries + 1);
                    assert(end == s@.len());
                    assert(tail == n);
                }
            }
        }
        return None;
    }
    let result = MetricsJson {
        hotpath_profiling_mode: mode,
        total_elapsed,
        caller_name,
        percentiles,
        description,
        data: MetricsDataJson { entries },
    };
    proof {
        assert forall|m: MetricsJson| (#[trigger] spec_wf_report(m)) && s@ == metrics_text(
            m,
        ) implies spec_same_report(result, m) by {
            lemma_top_fields(s@, m);
        }
    }
    Some(result)
}

} // verus!

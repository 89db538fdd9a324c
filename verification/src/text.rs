//! Plain-text rendering of numbers and names for reports.
//!
//! Everything here is integer arithmetic and string building; each function's
//! output is pinned down exactly by a spec-level sequence of characters.

use vstd::prelude::*;

verus! {

/// The character of one decimal digit.
pub open spec fn digit_char(d: int) -> char {
    if d == 0 {
        '0'
    } else if d == 1 {
        '1'
    } else if d == 2 {
        '2'
    } else if d == 3 {
        '3'
    } else if d == 4 {
        '4'
    } else if d == 5 {
        '5'
    } else if d == 6 {
        '6'
    } else if d == 7 {
        '7'
    } else if d == 8 {
        '8'
    } else {
        '9'
    }
}

/// The decimal digits of `n`, most significant first.
pub open spec fn dec_str(n: int) -> Seq<char>
    decreases n,
{
    if n < 10 {
        seq![digit_char(n)]
    } else {
        dec_str(n / 10).push(digit_char(n % 10))
    }
}

pub fn push_digit(s: &mut String, d: u64)
    requires
        d < 10,
    ensures
        final(s)@ == old(s)@.push(digit_char(d as int)),
{
    proof {
        reveal_strlit("0");
        reveal_strlit("1");
        reveal_strlit("2");
        reveal_strlit("3");
        reveal_strlit("4");
        reveal_strlit("5");
        reveal_strlit("6");
        reveal_strlit("7");
        reveal_strlit("8");
        reveal_strlit("9");
    }
    if d == 0 {
        s.append("0");
    } else if d == 1 {
        s.append("1");
    } else if d == 2 {
        s.append("2");
    } else if d == 3 {
        s.append("3");
    } else if d == 4 {
        s.append("4");
    } else if d == 5 {
        s.append("5");
    } else if d == 6 {
        s.append("6");
    } else if d == 7 {
        s.append("7");
    } else if d == 8 {
        s.append("8");
    } else {
        s.append("9");
    }
    proof {
        assert(s@ =~= old(s)@.push(digit_char(d as int)));
    }
}

/// Appends the decimal form of `n` to `s`.
pub fn push_u64(s: &mut String, n: u64)
    ensures
        final(s)@ == old(s)@ + dec_str(n as int),
{
    let mut digits: Vec<u64> = Vec::new();
    let mut m: u64 = n;
    while m >= 10
        invariant
            dec_str(n as int) == dec_str(m as int) + digits_suffix(digits@),
            forall|i: int| 0 <= i < digits@.len() ==> #[trigger] digits@[i] < 10,
        decreases m,
    {
        proof {
            assert(dec_str(m as int) == dec_str(m as int / 10).push(digit_char(m as int % 10)));
            assert(digits@.push(m % 10).last() == m % 10);
            assert(digits@.push(m % 10).drop_last() =~= digits@);
            assert(digits_suffix(digits@.push(m % 10)) == seq![digit_char((m % 10) as int)]
                + digits_suffix(digits@));
            assert(dec_str(m as int / 10).push(digit_char(m as int % 10)) + digits_suffix(
                digits@,
            ) =~= dec_str(m as int / 10) + digits_suffix(digits@.push(m % 10)));
        }
        digits.push(m % 10);
        m = m / 10;
    }
    push_digit(s, m);
    proof {
        assert(old(s)@.push(digit_char(m as int)) =~= old(s)@ + seq![digit_char(m as int)]);
        assert(dec_str(m as int) == seq![digit_char(m as int)]);
        assert(digits@.take(digits@.len() as int) =~= digits@);
    }
    let mut i: usize = digits.len();
    while i > 0
        invariant
            i <= digits@.len(),
            forall|j: int| 0 <= j < digits@.len() ==> #[trigger] digits@[j] < 10,
            s@ + digits_suffix(digits@.take(i as int)) == old(s)@ + dec_str(m as int)
                + digits_suffix(digits@),
            dec_str(n as int) == dec_str(m as int) + digits_suffix(digits@),
        decreases i,
    {
        i = i - 1;
        let ghost s_before = s@;
        push_digit(s, digits[i]);
        proof {
            let d = digits@[i as int];
            assert(digits@.take(i as int + 1).last() == d);
            assert(digits@.take(i as int + 1).drop_last() =~= digits@.take(i as int));
            assert(digits_suffix(digits@.take(i as int + 1)) == seq![digit_char(d as int)]
                + digits_suffix(digits@.take(i as int)));
            assert(s@ + digits_suffix(digits@.take(i as int)) =~= s_before + digits_suffix(
                digits@.take(i as int + 1),
            ));
        }
    }
    proof {
        assert(digits_suffix(digits@.take(0)) =~= Seq::<char>::empty());
        assert(s@ =~= s@ + digits_suffix(digits@.take(0)));
        assert(s@ =~= old(s)@ + dec_str(n as int));
    }
}

/// Whether a character is a decimal digit.
pub open spec fn spec_is_digit(c: char) -> bool {
    c == '0' || c == '1' || c == '2' || c == '3' || c == '4' || c == '5' || c == '6' || c == '7'
        || c == '8' || c == '9'
}

/// The value of a decimal digit character.
pub open spec fn spec_digit_val(c: char) -> int {
    if c == '0' {
        0
    } else if c == '1' {
        1
    } else if c == '2' {
        2
    } else if c == '3' {
        3
    } else if c == '4' {
        4
    } else if c == '5' {
        5
    } else if c == '6' {
        6
    } else if c == '7' {
        7
    } else if c == '8' {
        8
    } else {
        9
    }
}

/// The number a digit sequence spells, most significant first.
pub open spec fn dec_val(s: Seq<char>) -> int
    decreases s.len(),
{
    if s.len() == 0 {
        0
    } else {
        dec_val(s.drop_last()) * 10 + spec_digit_val(s.last())
    }
}

/// The rendering of a number is made of digits and reads back as the number.
pub proof fn lemma_dec_str_digits(v: int)
    requires
        0 <= v,
    ensures
        dec_str(v).len() >= 1,
        forall|k: int| 0 <= k < dec_str(v).len() ==> spec_is_digit(#[trigger] dec_str(v)[k]),
        dec_val(dec_str(v)) == v,
    decreases v,
{
    if v < 10 {
        assert(dec_str(v) == seq![digit_char(v)]);
        assert(dec_str(v).drop_last() =~= Seq::<char>::empty());
        assert(dec_val(Seq::<char>::empty()) == 0);
        assert(dec_str(v).last() == digit_char(v));
        assert(dec_val(dec_str(v)) == spec_digit_val(digit_char(v)));
        assert(spec_digit_val(digit_char(v)) == v);
    } else {
        lemma_dec_str_digits(v / 10);
        assert(dec_str(v) == dec_str(v / 10).push(digit_char(v % 10)));
        assert(dec_str(v).drop_last() =~= dec_str(v / 10));
        assert(dec_str(v).last() == digit_char(v % 10));
        assert(dec_val(dec_str(v)) == dec_val(dec_str(v / 10)) * 10 + spec_digit_val(
            digit_char(v % 10),
        ));
        assert(spec_digit_val(digit_char(v % 10)) == v % 10);
        assert((v / 10) * 10 + v % 10 == v);
        assert forall|k: int| 0 <= k < dec_str(v).len() implies spec_is_digit(
            #[trigger] dec_str(v)[k],
        ) by {
            if k < dec_str(v / 10).len() {
                assert(dec_str(v)[k] == dec_str(v / 10)[k]);
            }
        }
    }
}

/// A digit sequence is worth no less than any of its prefixes.
pub proof fn lemma_dec_val_prefix_le(s: Seq<char>, k: int)
    requires
        0 <= k <= s.len(),
    ensures
        0 <= dec_val(s.take(k)) <= dec_val(s),
        dec_val(s.take(k)) * 10 <= dec_val(s.take(k)) * 10 + 9,
    decreases s.len() - k,
{
    if k == s.len() {
        assert(s.take(k) =~= s);
        lemma_dec_val_nonneg(s);
    } else {
        lemma_dec_val_prefix_le(s, k + 1);
        assert(s.take(k + 1).drop_last() =~= s.take(k));
        assert(dec_val(s.take(k + 1)) == dec_val(s.take(k)) * 10 + spec_digit_val(
            s.take(k + 1).last(),
        ));
        lemma_dec_val_nonneg(s.take(k));
        assert(dec_val(s.take(k)) <= dec_val(s.take(k)) * 10) by (nonlinear_arith)
            requires
                dec_val(s.take(k)) >= 0,
        ;
        assert(0 <= spec_digit_val(s.take(k + 1).last()) <= 9);
    }
}

/// A digit sequence's value is never negative.
pub proof fn lemma_dec_val_nonneg(s: Seq<char>)
    ensures
        dec_val(s) >= 0,
    decreases s.len(),
{
    if s.len() > 0 {
        lemma_dec_val_nonneg(s.drop_last());
        assert(dec_val(s.drop_last()) * 10 >= 0) by (nonlinear_arith)
            requires
                dec_val(s.drop_last()) >= 0,
        ;
    }
}

/// The digit characters of a least-significant-first digit list, read back
/// most significant first.
pub open spec fn digits_suffix(digits: Seq<u64>) -> Seq<char>
    decreases digits.len(),
{
    if digits.len() == 0 {
        Seq::empty()
    } else {
        seq![digit_char(digits.last() as int)] + digits_suffix(digits.drop_last())
    }
}

/// The decimal form of `n` as a fresh string.
pub fn u64_to_string(n: u64) -> (r: String)
    ensures
        r@ == dec_str(n as int),
{
    let mut s = String::new();
    push_u64(&mut s, n);
    proof {
        assert(s@ =~= dec_str(n as int));
    }
    s
}

/// Appends the decimal form of `n` to `s`.
pub fn push_u128(s: &mut String, n: u128)
    ensures
        final(s)@ == old(s)@ + dec_str(n as int),
{
    let mut digits: Vec<u64> = Vec::new();
    let mut m: u128 = n;
    while m >= 10
        invariant
            dec_str(n as int) == dec_str(m as int) + digits_suffix(digits@),
            forall|i: int| 0 <= i < digits@.len() ==> #[trigger] digits@[i] < 10,
        decreases m,
    {
        proof {
            assert(dec_str(m as int) == dec_str(m as int / 10).push(digit_char(m as int % 10)));
            assert(digits@.push((m % 10) as u64).last() == (m % 10) as u64);
            assert(digits@.push((m % 10) as u64).drop_last() =~= digits@);
            assert(digits_suffix(digits@.push((m % 10) as u64)) == seq![
                digit_char((m % 10) as int),
            ] + digits_suffix(digits@));
            assert(dec_str(m as int / 10).push(digit_char(m as int % 10)) + digits_suffix(
                digits@,
            ) =~= dec_str(m as int / 10) + digits_suffix(digits@.push((m % 10) as u64)));
        }
        digits.push((m % 10) as u64);
        m = m / 10;
    }
    push_digit(s, m as u64);
    proof {
        assert(old(s)@.push(digit_char(m as int)) =~= old(s)@ + seq![digit_char(m as int)]);
        assert(dec_str(m as int) == seq![digit_char(m as int)]);
        assert(digits@.take(digits@.len() as int) =~= digits@);
    }
    let mut i: usize = digits.len();
    while i > 0
        invariant
            i <= digits@.len(),
            forall|j: int| 0 <= j < digits@.len() ==> #[trigger] digits@[j] < 10,
            s@ + digits_suffix(digits@.take(i as int)) == old(s)@ + dec_str(m as int)
                + digits_suffix(digits@),
            dec_str(n as int) == dec_str(m as int) + digits_suffix(digits@),
        decreases i,
    {
        i = i - 1;
        let ghost s_before = s@;
        push_digit(s, digits[i]);
        proof {
            let d = digits@[i as int];
            assert(digits@.take(i as int + 1).last() == d);
            assert(digits@.take(i as int + 1).drop_last() =~= digits@.take(i as int));
            assert(digits_suffix(digits@.take(i as int + 1)) == seq![digit_char(d as int)]
                + digits_suffix(digits@.take(i as int)));
            assert(s@ + digits_suffix(digits@.take(i as int)) =~= s_before + digits_suffix(
                digits@.take(i as int + 1),
            ));
        }
    }
    proof {
        assert(digits_suffix(digits@.take(0)) =~= Seq::<char>::empty());
        assert(s@ =~= s@ + digits_suffix(digits@.take(0)));
        assert(s@ =~= old(s)@ + dec_str(n as int));
    }
}

/// 1024 to the power `i`.
pub open spec fn pow1024(i: int) -> int
    decreases i,
{
    if i <= 0 {
        1
    } else {
        1024 * pow1024(i - 1)
    }
}

/// Which unit a byte quantity is shown in: 0 for bytes up to 4 for terabytes.
pub open spec fn bytes_unit_index(b: int) -> int {
    if b < 1024 {
        0
    } else if b < 1048576 {
        1
    } else if b < 1073741824 {
        2
    } else if b < 1099511627776 {
        3
    } else {
        4
    }
}

/// The suffix of each byte unit.
pub open spec fn bytes_unit_suffix(i: int) -> Seq<char> {
    if i == 0 {
        " B"@
    } else if i == 1 {
        " KB"@
    } else if i == 2 {
        " MB"@
    } else if i == 3 {
        " GB"@
    } else {
        " TB"@
    }
}

/// `v / d` in tenths, rounded half up.
pub open spec fn tenths_of(v: int, d: int) -> int {
    (20 * v + d) / (2 * d)
}

/// A quantity of bytes as text: whole bytes below one kilobyte, otherwise one
/// decimal place in the largest unit the value reaches.
pub open spec fn bytes_text(b: u64) -> Seq<char> {
    if b == 0 {
        "0 B"@
    } else {
        let i = bytes_unit_index(b as int);
        if i == 0 {
            dec_str(b as int) + bytes_unit_suffix(0)
        } else {
            let t = tenths_of(b as int, pow1024(i));
            dec_str(t / 10) + "."@ + seq![digit_char(t % 10)] + bytes_unit_suffix(i)
        }
    }
}

/// Renders a byte quantity for a report cell: `"0 B"`, `"512 B"`, `"1.5 KB"`,
/// `"2.0 MB"`, and so on.
pub fn format_bytes(bytes: u64) -> (r: String)
    ensures
        r@ == bytes_text(bytes),
{
    if bytes == 0 {
        return string_from("0 B");
    }
    let (p, suffix): (u64, &'static str) = if bytes < 1024 {
        (1, " B")
    } else if bytes < 1048576 {
        (1024, " KB")
    } else if bytes < 1073741824 {
        (1048576, " MB")
    } else if bytes < 1099511627776 {
        (1073741824, " GB")
    } else {
        (1099511627776, " TB")
    };
    proof {
        assert(pow1024(0) == 1);
        assert(pow1024(1) == 1024);
        assert(pow1024(2) == 1048576);
        assert(pow1024(3) == 1073741824);
        assert(pow1024(4) == 1099511627776);
    }
    let mut s = String::new();
    if bytes < 1024 {
        push_u64(&mut s, bytes);
        s.append(suffix);
        proof {
            assert(s@ =~= bytes_text(bytes));
        }
        return s;
    }
    let t: u128 = (20u128 * bytes as u128 + p as u128) / (2u128 * p as u128);
    proof {
        assert(t <= bytes) by (nonlinear_arith)
            requires
                t == (20 * bytes as int + p as int) / (2 * p as int),
                1024 <= p as int <= bytes as int,
        ;
    }
    let whole: u64 = (t / 10) as u64;
    let tenth: u64 = (t % 10) as u64;
    push_u64(&mut s, whole);
    s.append(".");
    push_digit(&mut s, tenth);
    s.append(suffix);
    proof {
        assert(s@ =~= bytes_text(bytes));
    }
    s
}

/// A fresh `String` holding the given text.
pub fn string_from(text: &str) -> (r: String)
    ensures
        r@ == text@,
{
    text.to_owned()
}

/// `v / d` in hundredths, rounded half up.
pub open spec fn hundredths_of(v: int, d: int) -> int {
    (200 * v + d) / (2 * d)
}

/// `v / d` to two decimal places.
pub open spec fn two_decimals_text(v: int, d: int) -> Seq<char> {
    let h = hundredths_of(v, d);
    dec_str(h / 100) + "."@ + seq![digit_char(h / 10 % 10)] + seq![digit_char(h % 10)]
}

/// A duration in nanoseconds as text: whole nanoseconds below one
/// microsecond, otherwise two decimal places in the largest unit reached.
pub open spec fn duration_text(ns: u64) -> Seq<char> {
    if ns < 1000 {
        dec_str(ns as int) + "ns"@
    } else if ns < 1000000 {
        two_decimals_text(ns as int, 1000) + "µs"@
    } else if ns < 1000000000 {
        two_decimals_text(ns as int, 1000000) + "ms"@
    } else {
        two_decimals_text(ns as int, 1000000000) + "s"@
    }
}

/// Renders a duration for a report cell: `"999ns"`, `"1.50µs"`, `"20.00ms"`,
/// `"1.25s"`.
pub fn format_duration(ns: u64) -> (r: String)
    ensures
        r@ == duration_text(ns),
{
    let mut s = String::new();
    if ns < 1000 {
        push_u64(&mut s, ns);
        s.append("ns");
        proof {
            assert(s@ =~= duration_text(ns));
        }
        return s;
    }
    let (d, suffix): (u64, &'static str) = if ns < 1000000 {
        (1000, "µs")
    } else if ns < 1000000000 {
        (1000000, "ms")
    } else {
        (1000000000, "s")
    };
    let h: u128 = (200u128 * ns as u128 + d as u128) / (2u128 * d as u128);
    proof {
        assert(h <= ns) by (nonlinear_arith)
            requires
                h == (200 * ns as int + d as int) / (2 * d as int),
                1000 <= d as int <= ns as int,
        ;
    }
    let whole: u64 = (h / 100) as u64;
    let frac: u64 = (h % 100) as u64;
    push_u64(&mut s, whole);
    s.append(".");
    push_digit(&mut s, frac / 10);
    push_digit(&mut s, frac % 10);
    s.append(suffix);
    proof {
        assert(s@ =~= duration_text(ns));
    }
    s
}

/// How long ago a timestamp lies, in coarse units.
pub open spec fn time_ago_text(nanos_ago: u64) -> Seq<char> {
    if nanos_ago < 1000000000 {
        "now"@
    } else if nanos_ago < 60000000000 {
        dec_str(nanos_ago as int / 1000000000) + "s ago"@
    } else if nanos_ago < 3600000000000 {
        dec_str(nanos_ago as int / 60000000000) + "m ago"@
    } else {
        dec_str(nanos_ago as int / 3600000000000) + "h ago"@
    }
}

/// Renders how long ago a sample arrived: `"now"`, `"5s ago"`, `"2m ago"`,
/// `"1h ago"`.
pub fn format_time_ago(nanos_ago: u64) -> (r: String)
    ensures
        r@ == time_ago_text(nanos_ago),
{
    let mut s = String::new();
    if nanos_ago < 1000000000 {
        s.append("now");
        proof {
            assert(s@ =~= time_ago_text(nanos_ago));
        }
        return s;
    }
    let (d, suffix): (u64, &'static str) = if nanos_ago < 60000000000 {
        (1000000000, "s ago")
    } else if nanos_ago < 3600000000000 {
        (60000000000, "m ago")
    } else {
        (3600000000000, "h ago")
    };
    push_u64(&mut s, nanos_ago / d);
    s.append(suffix);
    proof {
        assert(s@ =~= time_ago_text(nanos_ago));
    }
    s
}

/// The positions where `::` separators start, scanning left to right without
/// overlap, from position `i` on.
pub open spec fn sep_positions(s: Seq<char>, i: int) -> Seq<int>
    decreases s.len() - i,
    when 0 <= i
{
    if i + 1 >= s.len() {
        Seq::empty()
    } else if s[i] == ':' && s[i + 1] == ':' {
        seq![i] + sep_positions(s, i + 2)
    } else {
        sep_positions(s, i + 1)
    }
}

/// A function name shortened to its last two `::`-separated segments.
pub open spec fn short_name(s: Seq<char>) -> Seq<char> {
    let ps = sep_positions(s, 0);
    if ps.len() >= 2 {
        s.subrange(ps[ps.len() - 2] + 2, s.len() as int)
    } else {
        s
    }
}

/// Shortens a fully qualified function name to its last two path segments,
/// so `a::b::c` is shown as `b::c`; shorter names are kept whole.
pub fn format_function_name(function_name: &str) -> (r: String)
    ensures
        r@ == short_name(function_name@),
{
    let n = function_name.unicode_len();
    let ghost sv = function_name@;
    let mut prev: Option<usize> = None;
    let mut last: Option<usize> = None;
    let ghost mut found: Seq<int> = Seq::empty();
    let mut i: usize = 0;
    let scan_end: usize = if n == 0 {
        0
    } else {
        n - 1
    };
    while i < scan_end
        invariant
            n == sv.len(),
            sv == function_name@,
            scan_end == if n == 0 { 0int } else { n - 1 },
            i <= n,
            sep_positions(sv, 0) == found + sep_positions(sv, i as int),
            found.len() >= 2 ==> prev == Some((found[found.len() - 2]) as usize) && found[
                found.len() - 2
            ] + 2 <= sv.len(),
            found.len() >= 1 ==> last == Some((found[found.len() - 1]) as usize),
            found.len() == 1 ==> prev.is_none(),
            found.len() == 0 ==> prev.is_none() && last.is_none(),
            forall|k: int| 0 <= k < found.len() ==> 0 <= #[trigger] found[k] && found[k] + 2 <= sv.len(),
        decreases n - i,
    {
        let c1 = function_name.get_char(i);
        let c2 = function_name.get_char(i + 1);
        if c1 == ':' && c2 == ':' {
            proof {
                assert(sep_positions(sv, i as int) == seq![i as int] + sep_positions(
                    sv,
                    i as int + 2,
                ));
                assert(found + sep_positions(sv, i as int) =~= (found.push(i as int))
                    + sep_positions(sv, i as int + 2));
            }
            prev = last;
            last = Some(i);
            proof {
                found = found.push(i as int);
            }
            i = i + 2;
        } else {
            proof {
                assert(sep_positions(sv, i as int) == sep_positions(sv, i as int + 1));
            }
            i = i + 1;
        }
    }
    proof {
        assert(sep_positions(sv, i as int) =~= Seq::<int>::empty());
        assert(sep_positions(sv, 0) =~= found);
    }
    match prev {
        Some(p) => {
            let piece = function_name.substring_char(p + 2, n);
            let r = piece.to_owned();
            proof {
                assert(r@ =~= short_name(sv));
            }
            r
        },
        None => {
            let r = function_name.to_owned();
            proof {
                assert(found.len() < 2);
            }
            r
        },
    }
}

} // verus!

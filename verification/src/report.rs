//! The CSV reports of the three tests: a header line, then the values with
//! times in milliseconds or seconds and rates in megabits per second, each
//! rounded to the precision of the report. The values are exact (integer
//! nanoseconds and bytes, exact fractions for means and rates) and are
//! rounded once, on the exact value, ties to even.

use vstd::prelude::*;
use crate::csv::{csv_line, lemma_csv_line_round_trip, split_fields, write_csv_header, write_csv_row};
use crate::decimal::{
    decimal_digits, decimal_text, digits_value, fixed_text, format_fixed, is_digit,
    lemma_decimal_digits_value, lemma_digits_are_digits, lemma_fixed_text_shows, pow10,
    shows_fixed,
};
use crate::latency::LatencyStats;
use crate::stats::Fraction;
use crate::throughput::ThroughputSample;

verus! {

/// Nanoseconds in a millisecond.
pub const NANOS_PER_MILLI: u64 = 1_000_000;

/// Nanoseconds in a second.
pub const NANOS_PER_SEC: u64 = 1_000_000_000;

/// A time in nanoseconds shown in milliseconds with two decimals.
pub open spec fn millis_text(ns: u64) -> Seq<char> {
    fixed_text(ns as nat, 1_000_000, 2)
}

/// A time in nanoseconds shown in seconds with one decimal.
pub open spec fn seconds_text(ns: u64) -> Seq<char> {
    fixed_text(ns as nat, 1_000_000_000, 1)
}

/// The mean rate of `total_bytes` over `elapsed_ns`, in megabits per
/// second with two decimals: `total_bytes * 8 / 10^6 / (elapsed_ns / 10^9)`,
/// which is `total_bytes * 8000 / elapsed_ns`. Over no time at all the rate
/// is infinite, or undefined when nothing was transferred either.
pub open spec fn mbps_text(total_bytes: u64, elapsed_ns: u64) -> Seq<char> {
    if elapsed_ns == 0 {
        if total_bytes == 0 {
            "NaN"@
        } else {
            "inf"@
        }
    } else {
        fixed_text(total_bytes as nat * 8000, elapsed_ns as nat, 2)
    }
}

/// A fraction of nanoseconds shown in milliseconds with two decimals; a
/// fraction over zero is infinite, or undefined when its numerator is zero
/// too.
pub open spec fn fraction_millis_text(f: Fraction) -> Seq<char> {
    if f.den == 0 {
        if f.num == 0 {
            "NaN"@
        } else {
            "inf"@
        }
    } else {
        fixed_text(f.num as nat, f.den as nat * 1_000_000, 2)
    }
}

/// The header of the latency report.
pub open spec fn latency_header() -> Seq<Seq<char>> {
    seq!["host"@, "port"@, "avg_ms"@, "min_ms"@, "max_ms"@, "jitter_ms"@]
}

/// The values of the latency report.
pub open spec fn latency_fields(host: Seq<char>, port: u16, stats: LatencyStats) -> Seq<Seq<char>> {
    seq![
        host,
        decimal_digits(port as nat),
        fraction_millis_text(stats.avg_ns),
        millis_text(stats.min_ns),
        millis_text(stats.max_ns),
        fraction_millis_text(stats.jitter_ns),
    ]
}

/// The header of a download or upload report.
pub open spec fn samples_header() -> Seq<Seq<char>> {
    seq!["seconds_elapsed"@, "mbps"@]
}

/// The values of one sample.
pub open spec fn sample_fields(s: ThroughputSample) -> Seq<Seq<char>> {
    seq![seconds_text(s.elapsed_ns), mbps_text(s.total_bytes, s.elapsed_ns)]
}

/// One line per sample, in order.
pub open spec fn sample_lines(samples: Seq<ThroughputSample>) -> Seq<char>
    decreases samples.len(),
{
    if samples.len() == 0 {
        seq![]
    } else {
        sample_lines(samples.drop_last()) + csv_line(sample_fields(samples.last()))
    }
}

/// A time in nanoseconds as milliseconds with two decimals.
pub fn millis(ns: u64) -> (s: String)
    ensures
        s@ == millis_text(ns),
{
    assert(pow10(2) == 100) by {
        reveal_with_fuel(pow10, 3);
    }
    format_fixed(ns as u128, NANOS_PER_MILLI as u128, 2)
}

/// A fraction of nanoseconds as milliseconds with two decimals.
pub fn fraction_millis(f: Fraction) -> (s: String)
    ensures
        s@ == fraction_millis_text(f),
{
    if f.den == 0 {
        if f.num == 0 {
            String::from_str("NaN")
        } else {
            String::from_str("inf")
        }
    } else {
        assert(pow10(2) == 100) by {
            reveal_with_fuel(pow10, 3);
        }
        assert(f.den * 1_000_000 * 100 <= u128::MAX) by (nonlinear_arith)
            requires
                f.den <= u64::MAX,
        ;
        format_fixed(f.num, f.den as u128 * NANOS_PER_MILLI as u128, 2)
    }
}

/// A time in nanoseconds as seconds with one decimal.
pub fn seconds(ns: u64) -> (s: String)
    ensures
        s@ == seconds_text(ns),
{
    assert(pow10(1) == 10) by {
        reveal_with_fuel(pow10, 2);
    }
    format_fixed(ns as u128, NANOS_PER_SEC as u128, 1)
}

/// The mean rate of a transfer in megabits per second with two decimals.
pub fn mbps(total_bytes: u64, elapsed_ns: u64) -> (s: String)
    ensures
        s@ == mbps_text(total_bytes, elapsed_ns),
{
    if elapsed_ns == 0 {
        if total_bytes == 0 {
            String::from_str("NaN")
        } else {
            String::from_str("inf")
        }
    } else {
        assert(pow10(2) == 100) by {
            reveal_with_fuel(pow10, 3);
        }
        assert(elapsed_ns * 100 <= u128::MAX) by (nonlinear_arith)
            requires
                elapsed_ns <= u64::MAX,
        ;
        format_fixed(total_bytes as u128 * 8000, elapsed_ns as u128, 2)
    }
}

/// The latency report: the header line, then one line with the host, the
/// port and the mean, minimum, maximum and jitter in milliseconds.
pub fn latency_report(host: &str, port: u16, stats: &LatencyStats) -> (s: String)
    ensures
        s@ == csv_line(latency_header()) + csv_line(latency_fields(host@, port, *stats)),
{
    let mut s = String::new();
    let headers = vec!["host", "port", "avg_ms", "min_ms", "max_ms", "jitter_ms"];
    write_csv_header(&mut s, headers.as_slice());
    let values = vec![
        String::from_str(host),
        decimal_text(port as u128),
        fraction_millis(stats.avg_ns),
        millis(stats.min_ns),
        millis(stats.max_ns),
        fraction_millis(stats.jitter_ns),
    ];
    write_csv_row(&mut s, values.as_slice());
    proof {
        assert(headers@.map_values(|h: &str| h@) =~= latency_header());
        assert(values@.map_values(|v: String| v@) =~= latency_fields(host@, port, *stats));
    }
    s
}

/// The report of a download or upload test: the header line, then one line
/// per sample with the elapsed seconds and the mean rate so far.
pub fn samples_report(samples: &[ThroughputSample]) -> (s: String)
    ensures
        s@ == csv_line(samples_header()) + sample_lines(samples@),
{
    let mut s = String::new();
    let headers = vec!["seconds_elapsed", "mbps"];
    write_csv_header(&mut s, headers.as_slice());
    proof {
        assert(headers@.map_values(|h: &str| h@) =~= samples_header());
    }
    let ghost start = s@;
    let n = samples.len();
    let mut i: usize = 0;
    while i < n
        invariant
            i <= n,
            n == samples@.len(),
            s@ == start + sample_lines(samples@.take(i as int)),
        decreases n - i,
    {
        let sample = samples[i];
        let values = vec![seconds(sample.elapsed_ns), mbps(sample.total_bytes, sample.elapsed_ns)];
        write_csv_row(&mut s, values.as_slice());
        proof {
            let t = samples@.take(i + 1);
            assert(t.drop_last() =~= samples@.take(i as int));
            assert(t.last() == sample);
            assert(values@.map_values(|v: String| v@) =~= sample_fields(sample));
            assert(s@ =~= start + sample_lines(t));
        }
        i = i + 1;
    }
    assert(samples@.take(n as int) =~= samples@);
    s
}

/// The shape of a report value with `places` decimals: digits around a
/// point followed by exactly `places` digits, with no leading zero before
/// the point but a lone "0"; its digits without the point denote `v`.
pub open spec fn decimal_shape(t: Seq<char>, places: nat) -> bool {
    &&& t.len() >= places + 2
    &&& t[t.len() - places - 1] == '.'
    &&& forall|i: int| 0 <= i < t.len() && i != t.len() - places - 1 ==> is_digit(#[trigger] t[i])
    &&& (t[0] == '0' ==> t.len() == places + 2)
}

/// The number that a report value with `places` decimals shows, in units
/// of its last place.
pub open spec fn shown_units(t: Seq<char>, places: nat) -> nat {
    digits_value(t.remove(t.len() - places - 1))
}

proof fn lemma_shows(num: nat, den: nat, places: nat)
    requires
        den > 0,
        places > 0,
    ensures
        decimal_shape(fixed_text(num, den, places), places),
        2 * num * pow10(places) <= 2 * shown_units(fixed_text(num, den, places), places) * den
            + den,
        2 * shown_units(fixed_text(num, den, places), places) * den <= 2 * num * pow10(places)
            + den,
{
    lemma_fixed_text_shows(num, den, places);
    let t = fixed_text(num, den, places);
    assert(shows_fixed(t, places, num, den));
}

/// A time shown in milliseconds is correctly rounded to the hundredth: the
/// shown value `v` hundredths is within half a hundredth of `ns / 10^6`
/// milliseconds, so a carry out of the hundredths reaches the whole
/// milliseconds.
pub proof fn lemma_millis_rounded(ns: u64)
    ensures
        decimal_shape(millis_text(ns), 2),
        2 * ns <= 2 * shown_units(millis_text(ns), 2) * 10_000 + 10_000,
        2 * shown_units(millis_text(ns), 2) * 10_000 <= 2 * ns + 10_000,
{
    assert(pow10(2) == 100) by {
        reveal_with_fuel(pow10, 3);
    }
    lemma_shows(ns as nat, 1_000_000, 2);
}

/// A time shown in seconds is correctly rounded to the tenth: the shown
/// value `v` tenths is within half a tenth of `ns / 10^9` seconds.
pub proof fn lemma_seconds_rounded(ns: u64)
    ensures
        decimal_shape(seconds_text(ns), 1),
        2 * ns <= 2 * shown_units(seconds_text(ns), 1) * 100_000_000 + 100_000_000,
        2 * shown_units(seconds_text(ns), 1) * 100_000_000 <= 2 * ns + 100_000_000,
{
    assert(pow10(1) == 10) by {
        reveal_with_fuel(pow10, 2);
    }
    lemma_shows(ns as nat, 1_000_000_000, 1);
}

/// A rate shown in megabits per second is correctly rounded to the
/// hundredth: the shown value `v` hundredths is within half a hundredth of
/// `total_bytes * 8 / 10^6` megabits over `elapsed_ns / 10^9` seconds.
/// Over no time the rate is "inf", or "NaN" when nothing was transferred.
pub proof fn lemma_mbps_rounded(total_bytes: u64, elapsed_ns: u64)
    ensures
        elapsed_ns > 0 ==> decimal_shape(mbps_text(total_bytes, elapsed_ns), 2),
        elapsed_ns > 0 ==> 2 * (total_bytes * 800_000) <= 2 * shown_units(
            mbps_text(total_bytes, elapsed_ns),
            2,
        ) * elapsed_ns + elapsed_ns,
        elapsed_ns > 0 ==> 2 * shown_units(mbps_text(total_bytes, elapsed_ns), 2) * elapsed_ns
            <= 2 * (total_bytes * 800_000) + elapsed_ns,
        elapsed_ns == 0 && total_bytes == 0 ==> mbps_text(total_bytes, elapsed_ns) == "NaN"@,
        elapsed_ns == 0 && total_bytes > 0 ==> mbps_text(total_bytes, elapsed_ns) == "inf"@,
{
    if elapsed_ns > 0 {
        assert(pow10(2) == 100) by {
            reveal_with_fuel(pow10, 3);
        }
        let num = total_bytes as nat * 8000;
        lemma_shows(num, elapsed_ns as nat, 2);
        assert(2 * num * 100 == 2 * (total_bytes * 800_000)) by (nonlinear_arith)
            requires
                num == total_bytes * 8000,
        ;
    }
}

/// A fraction of nanoseconds shown in milliseconds is correctly rounded to
/// the hundredth: the shown value `v` hundredths is within half a
/// hundredth of `num / den / 10^6` milliseconds. Over a zero denominator
/// it is "inf", or "NaN" when the numerator is zero too.
pub proof fn lemma_fraction_millis_rounded(f: Fraction)
    ensures
        f.den > 0 ==> decimal_shape(fraction_millis_text(f), 2),
        f.den > 0 ==> 2 * f.num * 100 <= 2 * shown_units(fraction_millis_text(f), 2) * (f.den
            * 1_000_000) + f.den * 1_000_000,
        f.den > 0 ==> 2 * shown_units(fraction_millis_text(f), 2) * (f.den * 1_000_000) <= 2
            * f.num * 100 + f.den * 1_000_000,
        f.den == 0 && f.num == 0 ==> fraction_millis_text(f) == "NaN"@,
        f.den == 0 && f.num > 0 ==> fraction_millis_text(f) == "inf"@,
{
    if f.den > 0 {
        assert(pow10(2) == 100) by {
            reveal_with_fuel(pow10, 3);
        }
        lemma_shows(f.num as nat, f.den as nat * 1_000_000, 2);
    }
}

proof fn lemma_shaped_has_no_separator(t: Seq<char>, places: nat)
    requires
        decimal_shape(t, places),
    ensures
        !t.contains(','),
        !t.contains('\n'),
{
    if t.contains(',') {
        let i = choose|i: int| 0 <= i < t.len() && t[i] == ',';
        if i != t.len() - places - 1 {
            assert(is_digit(t[i]));
        }
    }
    if t.contains('\n') {
        let i = choose|i: int| 0 <= i < t.len() && t[i] == '\n';
        if i != t.len() - places - 1 {
            assert(is_digit(t[i]));
        }
    }
}

proof fn lemma_port_field(port: u16)
    ensures
        digits_value(decimal_digits(port as nat)) == port,
        !decimal_digits(port as nat).contains(','),
        !decimal_digits(port as nat).contains('\n'),
{
    lemma_decimal_digits_value(port as nat);
    lemma_digits_are_digits(port as nat, 0);
    let d = decimal_digits(port as nat);
    if d.contains(',') {
        let i = choose|i: int| 0 <= i < d.len() && d[i] == ',';
        assert(is_digit(d[i]));
    }
    if d.contains('\n') {
        let i = choose|i: int| 0 <= i < d.len() && d[i] == '\n';
        assert(is_digit(d[i]));
    }
}

/// The data line of the latency report reads back as its six columns, in
/// order: the host, the port, then the mean, minimum, maximum and jitter,
/// each shown in milliseconds to within half a hundredth of the value.
pub proof fn lemma_latency_line_reads_back(host: Seq<char>, port: u16, stats: LatencyStats)
    requires
        !host.contains(','),
        !host.contains('\n'),
        stats.avg_ns.den > 0,
        stats.jitter_ns.den > 0,
    ensures
        ({
            let fs = split_fields(csv_line(latency_fields(host, port, stats)).drop_last());
            &&& fs.len() == 6
            &&& fs[0] == host
            &&& digits_value(fs[1]) == port
            &&& decimal_shape(fs[2], 2) && decimal_shape(fs[3], 2)
            &&& decimal_shape(fs[4], 2) && decimal_shape(fs[5], 2)
            &&& 2 * stats.avg_ns.num * 100 <= 2 * shown_units(fs[2], 2) * (stats.avg_ns.den
                * 1_000_000) + stats.avg_ns.den * 1_000_000
            &&& 2 * shown_units(fs[2], 2) * (stats.avg_ns.den * 1_000_000) <= 2
                * stats.avg_ns.num * 100 + stats.avg_ns.den * 1_000_000
            &&& 2 * stats.min_ns <= 2 * shown_units(fs[3], 2) * 10_000 + 10_000
            &&& 2 * shown_units(fs[3], 2) * 10_000 <= 2 * stats.min_ns + 10_000
            &&& 2 * stats.max_ns <= 2 * shown_units(fs[4], 2) * 10_000 + 10_000
            &&& 2 * shown_units(fs[4], 2) * 10_000 <= 2 * stats.max_ns + 10_000
            &&& 2 * stats.jitter_ns.num * 100 <= 2 * shown_units(fs[5], 2) * (
            stats.jitter_ns.den * 1_000_000) + stats.jitter_ns.den * 1_000_000
            &&& 2 * shown_units(fs[5], 2) * (stats.jitter_ns.den * 1_000_000) <= 2
                * stats.jitter_ns.num * 100 + stats.jitter_ns.den * 1_000_000
        }),
{
    let fields = latency_fields(host, port, stats);
    lemma_fraction_millis_rounded(stats.avg_ns);
    lemma_fraction_millis_rounded(stats.jitter_ns);
    lemma_millis_rounded(stats.min_ns);
    lemma_millis_rounded(stats.max_ns);
    lemma_port_field(port);
    lemma_shaped_has_no_separator(fields[2], 2);
    lemma_shaped_has_no_separator(fields[3], 2);
    lemma_shaped_has_no_separator(fields[4], 2);
    lemma_shaped_has_no_separator(fields[5], 2);
    assert forall|i: int| 0 <= i < fields.len() implies !(#[trigger] fields[i]).contains(',') by {
    }
    assert forall|i: int| 0 <= i < fields.len() implies !(#[trigger] fields[i]).contains('\n') by {
    }
    lemma_csv_line_round_trip(fields);
}

/// Each line of a download or upload report reads back as its two columns:
/// the elapsed time in seconds to within half a tenth, and the mean rate so
/// far in megabits per second to within half a hundredth.
pub proof fn lemma_sample_line_reads_back(sample: ThroughputSample)
    requires
        sample.elapsed_ns > 0,
    ensures
        ({
            let fs = split_fields(csv_line(sample_fields(sample)).drop_last());
            &&& fs.len() == 2
            &&& decimal_shape(fs[0], 1) && decimal_shape(fs[1], 2)
            &&& 2 * sample.elapsed_ns <= 2 * shown_units(fs[0], 1) * 100_000_000 + 100_000_000
            &&& 2 * shown_units(fs[0], 1) * 100_000_000 <= 2 * sample.elapsed_ns + 100_000_000
            &&& 2 * (sample.total_bytes * 800_000) <= 2 * shown_units(fs[1], 2)
                * sample.elapsed_ns + sample.elapsed_ns
            &&& 2 * shown_units(fs[1], 2) * sample.elapsed_ns <= 2 * (sample.total_bytes
                * 800_000) + sample.elapsed_ns
        }),
{
    let fields = sample_fields(sample);
    lemma_seconds_rounded(sample.elapsed_ns);
    lemma_mbps_rounded(sample.total_bytes, sample.elapsed_ns);
    lemma_shaped_has_no_separator(fields[0], 1);
    lemma_shaped_has_no_separator(fields[1], 2);
    assert forall|i: int| 0 <= i < fields.len() implies !(#[trigger] fields[i]).contains(',') by {
    }
    assert forall|i: int| 0 <= i < fields.len() implies !(#[trigger] fields[i]).contains('\n') by {
    }
    lemma_csv_line_round_trip(fields);
}

/// A report has one line per sample, in order: the lines of a list of
/// samples followed by more are the lines of the first followed by those of
/// the rest, and one sample has the one line of its values.
pub proof fn lemma_sample_lines_concat(a: Seq<ThroughputSample>, b: Seq<ThroughputSample>, x: ThroughputSample)
    ensures
        sample_lines(a + b) == sample_lines(a) + sample_lines(b),
        sample_lines(seq![x]) == csv_line(sample_fields(x)),
    decreases b.len(),
{
    assert(seq![x].drop_last() =~= Seq::<ThroughputSample>::empty());
    assert(sample_lines(seq![x].drop_last()) == Seq::<char>::empty());
    assert(seq![x].last() == x);
    assert(Seq::<char>::empty() + csv_line(sample_fields(x)) =~= csv_line(sample_fields(x)));
    if b.len() == 0 {
        assert(a + b =~= a);
        assert(sample_lines(a) + Seq::<char>::empty() =~= sample_lines(a));
    } else {
        lemma_sample_lines_concat(a, b.drop_last(), x);
        assert((a + b).drop_last() =~= a + b.drop_last());
        assert((a + b).last() == b.last());
        assert(sample_lines(a) + sample_lines(b.drop_last()) + csv_line(sample_fields(b.last()))
            =~= sample_lines(a) + (sample_lines(b.drop_last()) + csv_line(sample_fields(b.last()))));
    }
}

} // verus!

//! Summary statistics of round-trip times: mean, minimum, maximum and the
//! mean absolute difference of consecutive samples (RFC 5481 jitter).

use vstd::prelude::*;
use vstd::arithmetic::mul::lemma_mul_inequality;

verus! {

/// The sum of the samples.
pub open spec fn seq_sum(s: Seq<u64>) -> nat
    decreases s.len(),
{
    if s.len() == 0 {
        0
    } else {
        seq_sum(s.drop_last()) + s.last() as nat
    }
}

/// The smallest sample (0 for no samples).
pub open spec fn seq_min(s: Seq<u64>) -> u64
    decreases s.len(),
{
    if s.len() == 0 {
        0
    } else if s.len() == 1 {
        s[0]
    } else {
        let m = seq_min(s.drop_last());
        if s.last() < m {
            s.last()
        } else {
            m
        }
    }
}

/// The largest sample (0 for no samples).
pub open spec fn seq_max(s: Seq<u64>) -> u64
    decreases s.len(),
{
    if s.len() == 0 {
        0
    } else if s.len() == 1 {
        s[0]
    } else {
        let m = seq_max(s.drop_last());
        if s.last() > m {
            s.last()
        } else {
            m
        }
    }
}

/// `|a - b|`.
pub open spec fn abs_diff(a: u64, b: u64) -> nat {
    if a >= b {
        (a - b) as nat
    } else {
        (b - a) as nat
    }
}

/// The sum of the absolute differences of consecutive samples.
pub open spec fn delta_sum(s: Seq<u64>) -> nat
    decreases s.len(),
{
    if s.len() < 2 {
        0
    } else {
        delta_sum(s.drop_last()) + abs_diff(s[s.len() - 1], s[s.len() - 2])
    }
}

/// A non-negative fraction `num / den`.
#[derive(Clone, Copy, Debug, PartialEq, Eq, Structural)]
pub struct Fraction {
    pub num: u128,
    pub den: u64,
}

/// The denominator of the mean: the number of samples (1 for no samples,
/// whose mean is 0).
pub open spec fn mean_den(s: Seq<u64>) -> nat {
    if s.len() == 0 {
        1
    } else {
        s.len()
    }
}

/// The denominator of the jitter: the number of consecutive pairs (1 for
/// fewer than two samples, whose jitter is 0).
pub open spec fn jitter_den(s: Seq<u64>) -> nat {
    if s.len() < 2 {
        1
    } else {
        (s.len() - 1) as nat
    }
}

/// The mean of the samples is `seq_sum(s) / mean_den(s)`, and the jitter,
/// the mean absolute difference of consecutive samples, is
/// `delta_sum(s) / jitter_den(s)`; `f` is the given one of them.
pub open spec fn is_mean(f: Fraction, s: Seq<u64>) -> bool {
    f.num == seq_sum(s) && f.den == mean_den(s)
}

/// See `is_mean`.
pub open spec fn is_jitter(f: Fraction, s: Seq<u64>) -> bool {
    f.num == delta_sum(s) && f.den == jitter_den(s)
}

proof fn lemma_min_max(s: Seq<u64>)
    requires
        s.len() > 0,
    ensures
        forall|i: int| 0 <= i < s.len() ==> seq_min(s) <= #[trigger] s[i] <= seq_max(s),
        s.contains(seq_min(s)),
        s.contains(seq_max(s)),
    decreases s.len(),
{
    if s.len() > 1 {
        lemma_min_max(s.drop_last());
        assert forall|i: int| 0 <= i < s.len() implies seq_min(s) <= #[trigger] s[i] <= seq_max(
            s,
        ) by {
            if i < s.len() - 1 {
                assert(s[i] == s.drop_last()[i]);
            }
        }
        let a = choose|i: int| 0 <= i < s.drop_last().len() && s.drop_last()[i] == seq_min(s.drop_last());
        let b = choose|i: int| 0 <= i < s.drop_last().len() && s.drop_last()[i] == seq_max(s.drop_last());
        assert(s[a] == s.drop_last()[a]);
        assert(s[b] == s.drop_last()[b]);
        assert(s[s.len() - 1] == s.last());
    } else {
        assert(s[0] == seq_min(s));
    }
}

proof fn lemma_sum_bounds(s: Seq<u64>)
    requires
        s.len() > 0,
    ensures
        s.len() * seq_min(s) <= seq_sum(s) <= s.len() * seq_max(s),
    decreases s.len(),
{
    if s.len() == 1 {
        assert(seq_sum(s.drop_last()) == 0);
        assert(s.last() == s[0]);
        assert(seq_sum(s) == s[0]);
    } else {
        let t = s.drop_last();
        lemma_sum_bounds(t);
        lemma_min_max(s);
        lemma_min_max(t);
        let n = t.len() as int;
        assert(seq_min(s) <= seq_min(t));
        assert(seq_max(t) <= seq_max(s));
        lemma_mul_inequality(seq_min(s) as int, seq_min(t) as int, n);
        lemma_mul_inequality(seq_max(t) as int, seq_max(s) as int, n);
        assert(s[s.len() - 1] == s.last());
        assert(seq_min(s) <= s.last() <= seq_max(s));
        assert(s.len() * seq_min(s) == n * seq_min(s) + seq_min(s)) by (nonlinear_arith)
            requires
                s.len() == n + 1,
        ;
        assert(s.len() * seq_max(s) == n * seq_max(s) + seq_max(s)) by (nonlinear_arith)
            requires
                s.len() == n + 1,
        ;
        assert(seq_min(t) * n == n * seq_min(t)) by (nonlinear_arith);
        assert(seq_max(t) * n == n * seq_max(t)) by (nonlinear_arith);
        assert(seq_min(s) * n == n * seq_min(s)) by (nonlinear_arith);
        assert(seq_max(s) * n == n * seq_max(s)) by (nonlinear_arith);
    }
}

proof fn lemma_delta_bound(s: Seq<u64>)
    requires
        s.len() > 0,
    ensures
        delta_sum(s) <= (s.len() - 1) * (seq_max(s) - seq_min(s)),
    decreases s.len(),
{
    if s.len() >= 2 {
        let t = s.drop_last();
        lemma_delta_bound(t);
        lemma_min_max(s);
        lemma_min_max(t);
        assert(seq_min(s) <= seq_min(t) && seq_max(t) <= seq_max(s));
        let n = t.len() - 1;
        lemma_mul_inequality(
            (seq_max(t) - seq_min(t)) as int,
            (seq_max(s) - seq_min(s)) as int,
            n as int,
        );
        assert(s[s.len() - 2] == t[t.len() - 1]);
        assert(abs_diff(s[s.len() - 1], s[s.len() - 2]) <= seq_max(s) - seq_min(s));
        assert((s.len() - 1) * (seq_max(s) - seq_min(s)) == n * (seq_max(s) - seq_min(s)) + (
        seq_max(s) - seq_min(s))) by (nonlinear_arith)
            requires
                s.len() - 1 == n + 1,
        ;
        assert((seq_max(t) - seq_min(t)) * n == n * (seq_max(t) - seq_min(t))) by (
        nonlinear_arith);
        assert((seq_max(s) - seq_min(s)) * n == n * (seq_max(s) - seq_min(s))) by (
        nonlinear_arith);
    }
}

/// For a non-empty list of samples: every sample lies between the minimum
/// and the maximum, both of which are samples; the mean lies between them
/// too; and the jitter is at most the spread `max - min`.
pub proof fn lemma_stats_bounds(s: Seq<u64>)
    requires
        s.len() > 0,
    ensures
        forall|i: int| 0 <= i < s.len() ==> seq_min(s) <= #[trigger] s[i] <= seq_max(s),
        s.contains(seq_min(s)),
        s.contains(seq_max(s)),
        seq_min(s) * mean_den(s) <= seq_sum(s) <= seq_max(s) * mean_den(s),
        delta_sum(s) <= (seq_max(s) - seq_min(s)) * jitter_den(s),
{
    lemma_min_max(s);
    lemma_sum_bounds(s);
    lemma_delta_bound(s);
    let n = s.len() as int;
    assert(n * seq_min(s) == seq_min(s) * n) by (nonlinear_arith);
    assert(n * seq_max(s) == seq_max(s) * n) by (nonlinear_arith);
    let w = seq_max(s) - seq_min(s);
    assert((n - 1) * w == w * (n - 1)) by (nonlinear_arith);
    if n < 2 {
        assert(delta_sum(s) == 0);
    }
}

proof fn lemma_sum_remove(t: Seq<u64>, j: int)
    requires
        0 <= j < t.len(),
    ensures
        seq_sum(t) == t[j] + seq_sum(t.remove(j)),
    decreases t.len(),
{
    if j == t.len() - 1 {
        assert(t.remove(j) =~= t.drop_last());
    } else {
        lemma_sum_remove(t.drop_last(), j);
        assert(t.remove(j).drop_last() =~= t.drop_last().remove(j));
        assert(t.remove(j).last() == t.last());
        assert(t.drop_last()[j] == t[j]);
    }
}

proof fn lemma_sum_permutation(s: Seq<u64>, t: Seq<u64>)
    requires
        s.to_multiset() == t.to_multiset(),
    ensures
        seq_sum(s) == seq_sum(t),
    decreases s.len(),
{
    broadcast use vstd::seq_lib::group_to_multiset_ensures;

    assert(s.len() == s.to_multiset().len() && t.len() == t.to_multiset().len());
    if s.len() == 0 {
        assert(t.len() == 0);
    } else {
        let x = s.last();
        let d = s.drop_last();
        assert(d.push(x) =~= s);
        assert(t.to_multiset().count(x) > 0);
        assert(t.contains(x));
        let j = choose|j: int| 0 <= j < t.len() && t[j] == x;
        assert(t.remove(j).to_multiset() =~= d.to_multiset());
        lemma_sum_permutation(d, t.remove(j));
        lemma_sum_remove(t, j);
    }
}

proof fn lemma_min_max_permutation(s: Seq<u64>, t: Seq<u64>)
    requires
        s.to_multiset() == t.to_multiset(),
    ensures
        seq_min(s) == seq_min(t),
        seq_max(s) == seq_max(t),
{
    broadcast use vstd::seq_lib::group_to_multiset_ensures;

    assert(s.len() == s.to_multiset().len() && t.len() == t.to_multiset().len());
    if s.len() == 0 {
        assert(t.len() == 0);
    } else {
        assert(t.len() > 0);
        lemma_min_max(s);
        lemma_min_max(t);
        assert(s.to_multiset().count(seq_min(s)) > 0 && s.to_multiset().count(seq_max(s)) > 0);
        assert(t.to_multiset().count(seq_min(t)) > 0 && t.to_multiset().count(seq_max(t)) > 0);
        assert(t.to_multiset().count(seq_min(s)) > 0 && t.to_multiset().count(seq_max(s)) > 0);
        assert(s.to_multiset().count(seq_min(t)) > 0 && s.to_multiset().count(seq_max(t)) > 0);
        assert(t.contains(seq_min(s)));
        assert(t.contains(seq_max(s)));
        assert(s.contains(seq_min(t)));
        assert(s.contains(seq_max(t)));
        let a = choose|i: int| 0 <= i < t.len() && t[i] == seq_min(s);
        let b = choose|i: int| 0 <= i < t.len() && t[i] == seq_max(s);
        let c = choose|i: int| 0 <= i < s.len() && s[i] == seq_min(t);
        let d = choose|i: int| 0 <= i < s.len() && s[i] == seq_max(t);
        assert(seq_min(t) <= t[a] && t[b] <= seq_max(t));
        assert(seq_min(s) <= s[c] && s[d] <= seq_max(s));
    }
}

/// The mean, the minimum and the maximum depend only on which samples
/// there are, not on their order: two lists holding the same samples, each
/// as often, have the same sum, count, minimum and maximum.
pub proof fn lemma_stats_order_free(s: Seq<u64>, t: Seq<u64>)
    requires
        s.to_multiset() == t.to_multiset(),
    ensures
        seq_sum(s) == seq_sum(t),
        mean_den(s) == mean_den(t),
        seq_min(s) == seq_min(t),
        seq_max(s) == seq_max(t),
{
    broadcast use vstd::seq_lib::group_to_multiset_ensures;

    assert(s.len() == s.to_multiset().len() && t.len() == t.to_multiset().len());
    lemma_sum_permutation(s, t);
    lemma_min_max_permutation(s, t);
}

proof fn lemma_delta_sum_first(s: Seq<u64>)
    requires
        s.len() >= 2,
    ensures
        delta_sum(s) == abs_diff(s[1], s[0]) + delta_sum(s.drop_first()),
    decreases s.len(),
{
    if s.len() == 2 {
        assert(delta_sum(s.drop_last()) == 0);
        assert(delta_sum(s.drop_first()) == 0);
    } else {
        let d = s.drop_last();
        lemma_delta_sum_first(d);
        assert(d.drop_first() =~= s.drop_first().drop_last());
        let f = s.drop_first();
        assert(f[f.len() - 1] == s[s.len() - 1]);
        assert(f[f.len() - 2] == s[s.len() - 2]);
        assert(d[1] == s[1] && d[0] == s[0]);
    }
}

proof fn lemma_delta_sum_reverse(s: Seq<u64>)
    ensures
        delta_sum(s.reverse()) == delta_sum(s),
    decreases s.len(),
{
    if s.len() >= 2 {
        let r = s.reverse();
        lemma_delta_sum_reverse(s.drop_first());
        assert(r.drop_last() =~= s.drop_first().reverse());
        assert(r[r.len() - 1] == s[0]);
        assert(r[r.len() - 2] == s[1]);
        lemma_delta_sum_first(s);
    }
}

/// Taking the samples in reverse order changes none of the statistics:
/// the mean, the minimum, the maximum and the jitter stay the same.
pub proof fn lemma_stats_reverse(s: Seq<u64>)
    ensures
        seq_sum(s.reverse()) == seq_sum(s),
        mean_den(s.reverse()) == mean_den(s),
        seq_min(s.reverse()) == seq_min(s),
        seq_max(s.reverse()) == seq_max(s),
        delta_sum(s.reverse()) == delta_sum(s),
        jitter_den(s.reverse()) == jitter_den(s),
{
    s.lemma_reverse_to_multiset();
    lemma_stats_order_free(s.reverse(), s);
    lemma_delta_sum_reverse(s);
}

/// Adding the same amount `c` to every sample shifts the minimum, the
/// maximum and the mean by `c` and leaves the jitter unchanged.
pub proof fn lemma_stats_shift(s: Seq<u64>, t: Seq<u64>, c: u64)
    requires
        t.len() == s.len(),
        forall|i: int| 0 <= i < s.len() ==> #[trigger] t[i] == s[i] + c,
    ensures
        s.len() > 0 ==> seq_min(t) == seq_min(s) + c,
        s.len() > 0 ==> seq_max(t) == seq_max(s) + c,
        seq_sum(t) == seq_sum(s) + s.len() * c,
        mean_den(t) == mean_den(s),
        delta_sum(t) == delta_sum(s),
        jitter_den(t) == jitter_den(s),
    decreases s.len(),
{
    if s.len() > 0 {
        let sd = s.drop_last();
        let td = t.drop_last();
        assert forall|i: int| 0 <= i < sd.len() implies #[trigger] td[i] == sd[i] + c by {
            assert(td[i] == t[i] && sd[i] == s[i]);
        }
        lemma_stats_shift(sd, td, c);
        let n = s.len() as int;
        assert(t.last() == s.last() + c) by {
            assert(t[n - 1] == s[n - 1] + c);
        }
        assert((n - 1) * c + c == n * c) by (nonlinear_arith);
        if s.len() >= 2 {
            assert(t[n - 2] == s[n - 2] + c);
        } else {
            assert(t[0] == s[0] + c);
        }
    }
}

/// The sum adds up every sample once: over a concatenation it is the sum of
/// the two sums, and over one sample it is that sample.
pub proof fn lemma_sum_concat(a: Seq<u64>, b: Seq<u64>, x: u64)
    ensures
        seq_sum(a + b) == seq_sum(a) + seq_sum(b),
        seq_sum(seq![x]) == x,
    decreases b.len(),
{
    assert(seq![x].drop_last() =~= Seq::<u64>::empty());
    assert(seq_sum(seq![x].drop_last()) == 0);
    assert(seq![x].last() == x);
    if b.len() == 0 {
        assert(a + b =~= a);
    } else {
        lemma_sum_concat(a, b.drop_last(), x);
        assert((a + b).drop_last() =~= a + b.drop_last());
        assert((a + b).last() == b.last());
    }
}

/// The jitter's numerator adds the absolute difference of every pair of
/// consecutive samples once: one sample has none, and joining two runs adds
/// the difference across the seam.
pub proof fn lemma_delta_sum_concat(a: Seq<u64>, b: Seq<u64>, x: u64)
    requires
        a.len() > 0,
        b.len() > 0,
    ensures
        delta_sum(seq![x]) == 0,
        delta_sum(a + b) == delta_sum(a) + (if b[0] >= a.last() {
            b[0] - a.last()
        } else {
            a.last() - b[0]
        }) + delta_sum(b),
    decreases b.len(),
{
    let ab = a + b;
    if b.len() == 1 {
        assert(ab.drop_last() =~= a);
        assert(ab[ab.len() - 1] == b[0]);
        assert(ab[ab.len() - 2] == a.last());
        assert(delta_sum(b) == 0);
    } else {
        let bd = b.drop_last();
        lemma_delta_sum_concat(a, bd, x);
        assert(ab.drop_last() =~= a + bd);
        assert(ab[ab.len() - 1] == b[b.len() - 1]);
        assert(ab[ab.len() - 2] == b[b.len() - 2]);
        assert(bd[0] == b[0]);
        assert(bd[bd.len() - 1] == b[b.len() - 2]);
    }
}

/// The mean is over all the samples and the jitter over all the pairs of
/// consecutive samples.
pub proof fn lemma_stat_denominators(s: Seq<u64>)
    ensures
        s.len() >= 1 ==> mean_den(s) == s.len(),
        s.len() >= 2 ==> jitter_den(s) + 1 == s.len(),
        s.len() < 2 ==> delta_sum(s) == 0,
{
}

/// Mean, minimum, maximum and jitter of the samples, in the unit of the
/// samples; all four are 0 when there are no samples. The mean and the
/// jitter are exact fractions.
pub fn compute_stats(samples: &[u64]) -> (r: (Fraction, u64, u64, Fraction))
    ensures
        is_mean(r.0, samples@),
        r.1 == seq_min(samples@),
        r.2 == seq_max(samples@),
        is_jitter(r.3, samples@),
{
    let n = samples.len();
    if n == 0 {
        return (Fraction { num: 0, den: 1 }, 0, 0, Fraction { num: 0, den: 1 });
    }
    let mut sum: u128 = samples[0] as u128;
    let mut lo: u64 = samples[0];
    let mut hi: u64 = samples[0];
    let mut deltas: u128 = 0;
    let mut i: usize = 1;
    proof {
        assert(samples@.take(1).drop_last().len() == 0);
        assert(seq_sum(samples@.take(1).drop_last()) == 0);
        assert(samples@.take(1).last() == samples@[0]);
    }
    while i < n
        invariant
            1 <= i <= n,
            n == samples@.len(),
            sum == seq_sum(samples@.take(i as int)),
            sum <= i * 0xffff_ffff_ffff_ffffu128,
            lo == seq_min(samples@.take(i as int)),
            hi == seq_max(samples@.take(i as int)),
            deltas == delta_sum(samples@.take(i as int)),
            deltas <= i * 0xffff_ffff_ffff_ffffu128,
        decreases n - i,
    {
        let x = samples[i];
        let prev = samples[i - 1];
        proof {
            let t = samples@.take(i + 1);
            assert(t.drop_last() =~= samples@.take(i as int));
            assert(t.last() == x);
            assert(t[t.len() - 2] == prev);
        }
        sum = sum + x as u128;
        if x < lo {
            lo = x;
        }
        if x > hi {
            hi = x;
        }
        if x >= prev {
            deltas = deltas + (x - prev) as u128;
        } else {
            deltas = deltas + (prev - x) as u128;
        }
        i = i + 1;
    }
    proof {
        assert(samples@.take(n as int) =~= samples@);
    }
    let jitter_den: u64 = if n > 1 {
        (n - 1) as u64
    } else {
        1
    };
    (Fraction { num: sum, den: n as u64 }, lo, hi, Fraction { num: deltas, den: jitter_den })
}

} // verus!

//! Exact decimal rendering of non-negative integers and of fractions
//! `num / den` with a fixed number of decimal places.

use vstd::prelude::*;
use vstd::arithmetic::div_mod::{
    lemma_div_is_ordered_by_denominator, lemma_fundamental_div_mod,
    lemma_fundamental_div_mod_converse, lemma_mod_breakdown,
};

verus! {

/// The character of the decimal digit `d` (`d < 10`).
pub open spec fn digit_char(d: nat) -> char {
    (d + 48) as char
}

/// Ten to the power `p`.
pub open spec fn pow10(p: nat) -> nat
    decreases p,
{
    if p == 0 {
        1
    } else {
        10 * pow10((p - 1) as nat)
    }
}

/// The decimal digits of `n`, most significant first, with no leading
/// zero ("0" for zero).
pub open spec fn decimal_digits(n: nat) -> Seq<char>
    decreases n,
{
    if n < 10 {
        seq![digit_char(n)]
    } else {
        decimal_digits(n / 10).push(digit_char(n % 10))
    }
}

/// The last `width` decimal digits of `n`, with leading zeros where `n`
/// has fewer digits.
pub open spec fn padded_digits(n: nat, width: nat) -> Seq<char>
    decreases width,
{
    if width == 0 {
        seq![]
    } else {
        padded_digits(n / 10, (width - 1) as nat).push(digit_char(n % 10))
    }
}

/// `a / b` rounded to the nearest integer; an exact tie goes to the even
/// neighbour.
pub open spec fn round_half_even(a: nat, b: nat) -> nat {
    let q = a / b;
    let r = a % b;
    if 2 * r > b {
        q + 1
    } else if 2 * r < b {
        q
    } else if q % 2 == 0 {
        q
    } else {
        q + 1
    }
}

/// The text of `num / den` rounded (ties to even) to `places` decimal
/// places: the integer part, then, when `places > 0`, a point and exactly
/// `places` fractional digits.
pub open spec fn fixed_text(num: nat, den: nat, places: nat) -> Seq<char> {
    let r = round_half_even(num * pow10(places), den);
    if places == 0 {
        decimal_digits(r)
    } else {
        decimal_digits(r / pow10(places)) + seq!['.'] + padded_digits(r, places)
    }
}

/// The number that a string of decimal digits denotes.
pub open spec fn digits_value(s: Seq<char>) -> nat
    decreases s.len(),
{
    if s.len() == 0 {
        0
    } else {
        10 * digits_value(s.drop_last()) + ((s.last() as nat) - 48) as nat
    }
}

/// Appends one character to a string (`String::push`).
#[verifier::external_body]
pub(crate) fn push_char(s: &mut String, c: char)
    ensures
        final(s)@ == old(s)@.push(c),
{
    s.push(c);
}

/// The character of the decimal digit `d`.
fn digit(d: u8) -> (c: char)
    requires
        d < 10,
    ensures
        c == digit_char(d as nat),
{
    (d + 48) as char
}

/// Appends the decimal digits of `n`.
fn append_decimal(out: &mut String, n: u128)
    ensures
        final(out)@ == old(out)@ + decimal_digits(n as nat),
    decreases n,
{
    if n >= 10 {
        append_decimal(out, n / 10);
    }
    push_char(out, digit((n % 10) as u8));
}

/// Appends the last `width` decimal digits of `n`, zero padded.
fn append_padded(out: &mut String, n: u128, width: u32)
    ensures
        final(out)@ == old(out)@ + padded_digits(n as nat, width as nat),
    decreases width,
{
    if width > 0 {
        append_padded(out, n / 10, width - 1);
        push_char(out, digit((n % 10) as u8));
    }
}

/// The decimal text of `n`.
pub fn decimal_text(n: u128) -> (s: String)
    ensures
        s@ == decimal_digits(n as nat),
{
    let mut s = String::new();
    append_decimal(&mut s, n);
    s
}

proof fn lemma_pow10_positive(p: nat)
    ensures
        pow10(p) >= 1,
    decreases p,
{
    if p > 0 {
        lemma_pow10_positive((p - 1) as nat);
    }
}

proof fn lemma_pow10_monotone(p: nat, q: nat)
    requires
        p <= q,
    ensures
        pow10(p) <= pow10(q),
    decreases q,
{
    if p < q {
        lemma_pow10_monotone(p, (q - 1) as nat);
        lemma_pow10_positive((q - 1) as nat);
    }
}

/// Ten to the power `p`.
fn pow10_u128(p: u32) -> (r: u128)
    requires
        pow10(p as nat) <= u128::MAX,
    ensures
        r == pow10(p as nat),
{
    let mut r: u128 = 1;
    let mut i: u32 = 0;
    while i < p
        invariant
            i <= p,
            pow10(p as nat) <= u128::MAX,
            r == pow10(i as nat),
        decreases p - i,
    {
        proof {
            lemma_pow10_monotone((i + 1) as nat, p as nat);
        }
        r = r * 10;
        i = i + 1;
    }
    r
}

/// The last `width` digits of `n` are those of `n % 10^width`.
proof fn lemma_padded_digits_mod(n: nat, width: nat)
    ensures
        padded_digits(n, width) == padded_digits(n % pow10(width), width),
    decreases width,
{
    if width > 0 {
        let w1 = (width - 1) as nat;
        let p1 = pow10(w1);
        lemma_pow10_positive(w1);
        let m = n % pow10(width);
        lemma_mod_breakdown(n as int, 10, p1 as int);
        // m == 10 * ((n / 10) % p1) + n % 10
        lemma_fundamental_div_mod_converse(m as int, 10, ((n / 10) % p1) as int, (n % 10) as int);
        lemma_padded_digits_mod(n / 10, w1);
        lemma_padded_digits_mod(m / 10, w1);
        lemma_mod_mod_same((n / 10) as int, p1 as int);
    }
}

proof fn lemma_mod_mod_same(a: int, m: int)
    requires
        a >= 0,
        m > 0,
    ensures
        (a % m) % m == a % m,
{
    lemma_fundamental_div_mod_converse(a % m, m, 0, a % m);
}

/// Splitting `num * 10^places / den` at the integer part of `num / den`:
/// the rounded value is `(num / den) * 10^places` plus the rounded scaled
/// remainder, where ties go by the parity of the whole quotient.
proof fn lemma_round_split(num: nat, den: nat, p: nat)
    requires
        den > 0,
    ensures
        ({
            let pp = pow10(p);
            let q0 = num / den;
            let r0 = num % den;
            let q1 = (r0 * pp) / den;
            let r1 = (r0 * pp) % den;
            let odd = if p == 0 { q0 % 2 == 1 } else { q1 % 2 == 1 };
            let up = 2 * r1 > den || (2 * r1 == den && odd);
            &&& q1 < pp
            &&& round_half_even(num * pp, den) == q0 * pp + (if up { q1 + 1 } else { q1 })
        }),
{
    let pp = pow10(p);
    lemma_pow10_positive(p);
    let q0 = num / den;
    let r0 = num % den;
    lemma_fundamental_div_mod(num as int, den as int);
    let sc = r0 * pp;
    let q1 = sc / den;
    let r1 = sc % den;
    lemma_fundamental_div_mod(sc as int, den as int);
    assert(sc < den * pp) by (nonlinear_arith)
        requires
            r0 < den,
            pp >= 1,
            sc == r0 * pp,
    ;
    assert(q1 < pp) by (nonlinear_arith)
        requires
            sc == den * q1 + r1,
            r1 >= 0,
            sc < den * pp,
            den > 0,
    ;
    let a = num * pp;
    assert(a == (q0 * pp + q1) * den + r1) by (nonlinear_arith)
        requires
            num == den * q0 + r0,
            sc == r0 * pp,
            sc == den * q1 + r1,
            a == num * pp,
    ;
    lemma_fundamental_div_mod_converse(a as int, den as int, (q0 * pp + q1) as int, r1 as int);
    if p > 0 {
        let p1 = pow10((p - 1) as nat);
        assert(pp == 10 * p1);
        let k = q0 * 5 * p1;
        assert(q0 * pp == 2 * k) by (nonlinear_arith)
            requires
                pp == 10 * p1,
                k == q0 * 5 * p1,
        ;
        lemma_fundamental_div_mod_converse(
            (2 * k + q1) as int,
            2,
            (k + q1 / 2) as int,
            (q1 % 2) as int,
        );
    } else {
        assert(pp == 1);
        assert(q1 == 0) by (nonlinear_arith)
            requires
                q1 < pp,
                pp == 1,
                q1 >= 0,
        ;
        assert(q0 * pp + q1 == q0) by (nonlinear_arith)
            requires
                pp == 1,
                q1 == 0,
        ;
    }
}

/// The text of `num / den` rounded to `places` decimal places. Rounding is
/// done on the exact fraction, and an exact tie goes to the even neighbour;
/// this can differ in the last digit from formatting a floating-point
/// approximation of the same value, whose binary rounding may put it just
/// above or below the tie.
pub fn format_fixed(num: u128, den: u128, places: u32) -> (s: String)
    requires
        den > 0,
        den * pow10(places as nat) <= u128::MAX,
    ensures
        s@ == fixed_text(num as nat, den as nat, places as nat),
{
    proof {
        lemma_pow10_positive(places as nat);
        assert(pow10(places as nat) <= den * pow10(places as nat)) by (nonlinear_arith)
            requires
                den >= 1,
                pow10(places as nat) >= 1,
        ;
    }
    let p10 = pow10_u128(places);
    let q0 = num / den;
    let r0 = num % den;
    proof {
        assert(r0 * p10 < den * p10) by (nonlinear_arith)
            requires
                r0 < den,
                p10 >= 1,
        ;
        lemma_round_split(num as nat, den as nat, places as nat);
        lemma_fundamental_div_mod(num as int, den as int);
        if den >= 2 {
            lemma_div_is_ordered_by_denominator(num as int, 2, den as int);
        }
    }
    let scaled = r0 * p10;
    let q1 = scaled / den;
    let r1 = scaled % den;
    proof {
        if r0 == 0 {
            assert(scaled == 0);
            lemma_fundamental_div_mod_converse(scaled as int, den as int, 0, 0);
            assert(q1 == 0 && r1 == 0);
        }
        assert(q1 < p10);
    }
    let odd = if places == 0 {
        q0 % 2 == 1
    } else {
        q1 % 2 == 1
    };
    let up = r1 > den - r1 || (r1 == den - r1 && odd);
    let frac: u128 = if up {
        q1 + 1
    } else {
        q1
    };
    let ghost rounded: nat = (q0 * p10 + frac) as nat;
    assert(rounded == round_half_even(num as nat * pow10(places as nat), den as nat));
    let (int_part, frac) = if frac == p10 {
        proof {
            // rounding up past the last fractional digit needs a remainder,
            // so `den >= 2` and `q0 < u128::MAX`
            assert(r0 > 0);
        }
        (q0 + 1, 0u128)
    } else {
        (q0, frac)
    };
    proof {
        assert(rounded == int_part * p10 + frac) by (nonlinear_arith)
            requires
                rounded == q0 * p10 + (if int_part == q0 { frac } else { p10 }),
                int_part == q0 || (int_part == q0 + 1 && frac == 0),
        ;
        lemma_fundamental_div_mod_converse(rounded as int, p10 as int, int_part as int, frac as int);
        lemma_padded_digits_mod(rounded, places as nat);
        lemma_padded_digits_mod(frac as nat, places as nat);
        lemma_fundamental_div_mod_converse(frac as int, p10 as int, 0, frac as int);
    }
    let mut s = String::new();
    if places == 0 {
        append_decimal(&mut s, int_part);
    } else {
        append_decimal(&mut s, int_part);
        push_char(&mut s, '.');
        append_padded(&mut s, frac, places);
    }
    s
}

proof fn lemma_digit_value(d: nat)
    requires
        d < 10,
    ensures
        (digit_char(d) as nat) - 48 == d,
{
}

/// Appending a string of digits shifts the value of the string before it
/// by one decimal place per appended digit.
proof fn lemma_digits_value_concat(a: Seq<char>, b: Seq<char>)
    ensures
        digits_value(a + b) == digits_value(a) * pow10(b.len()) + digits_value(b),
    decreases b.len(),
{
    if b.len() == 0 {
        assert(a + b =~= a);
        assert(digits_value(b) == 0);
        assert(pow10(0) == 1);
        assert(digits_value(a) * 1 == digits_value(a));
    } else {
        let b0 = b.drop_last();
        lemma_digits_value_concat(a, b0);
        assert((a + b).drop_last() =~= a + b0);
        assert((a + b).last() == b.last());
        let va = digits_value(a);
        let p = pow10(b0.len());
        let d = (((b.last() as nat) - 48) as nat);
        assert(pow10(b.len()) == 10 * p);
        assert(digits_value(b) == 10 * digits_value(b0) + d);
        assert(digits_value(a + b) == 10 * digits_value(a + b0) + d);
        assert(10 * (va * p + digits_value(b0)) == va * (10 * p) + 10 * digits_value(b0))
            by (nonlinear_arith);
    }
}

/// The decimal text of `n` denotes `n`, and starts with a zero only when it
/// is "0".
pub proof fn lemma_decimal_digits_value(n: nat)
    ensures
        digits_value(decimal_digits(n)) == n,
        decimal_digits(n).len() >= 1,
        decimal_digits(n)[0] == '0' ==> n == 0,
    decreases n,
{
    if n < 10 {
        lemma_digit_value(n);
        let s = seq![digit_char(n)];
        assert(s.drop_last() =~= Seq::<char>::empty());
        assert(digits_value(s.drop_last()) == 0);
        assert(s.last() == digit_char(n));
    } else {
        lemma_decimal_digits_value(n / 10);
        lemma_digit_value(n % 10);
        let s = decimal_digits(n / 10);
        assert(s.push(digit_char(n % 10)).drop_last() =~= s);
        assert(s.push(digit_char(n % 10))[0] == s[0]);
    }
}

/// The padded text has exactly `width` digits and denotes the last `width`
/// digits of `n`.
pub proof fn lemma_padded_digits_value(n: nat, width: nat)
    ensures
        padded_digits(n, width).len() == width,
        digits_value(padded_digits(n, width)) == n % pow10(width),
    decreases width,
{
    if width > 0 {
        lemma_padded_digits_value(n / 10, (width - 1) as nat);
        lemma_digit_value(n % 10);
        lemma_pow10_positive((width - 1) as nat);
        let s = padded_digits(n / 10, (width - 1) as nat);
        assert(s.push(digit_char(n % 10)).drop_last() =~= s);
        lemma_mod_breakdown(n as int, 10, pow10((width - 1) as nat) as int);
    }
}

/// Rounding to nearest is off by at most half a unit.
pub proof fn lemma_round_half_even_error(a: nat, b: nat)
    requires
        b > 0,
    ensures
        2 * a <= 2 * round_half_even(a, b) * b + b,
        2 * round_half_even(a, b) * b <= 2 * a + b,
{
    lemma_fundamental_div_mod(a as int, b as int);
    let q = a / b;
    let r = a % b;
    assert((q + 1) * b == q * b + b) by (nonlinear_arith);
    assert(2 * (q + 1) * b == 2 * (q * b) + 2 * b) by (nonlinear_arith);
    assert(2 * q * b == 2 * (q * b)) by (nonlinear_arith);
    assert(b * q == q * b) by (nonlinear_arith);
}

/// The digits of a fixed-point text, read without the point, denote the
/// rounded value `num * 10^places / den`, and exactly `places` of them
/// follow the point.
pub proof fn lemma_fixed_text_value(num: nat, den: nat, places: nat)
    requires
        den > 0,
        places > 0,
    ensures
        ({
            let r = round_half_even(num * pow10(places), den);
            &&& fixed_text(num, den, places) == decimal_digits(r / pow10(places)) + seq!['.']
                + padded_digits(r, places)
            &&& padded_digits(r, places).len() == places
            &&& digits_value(decimal_digits(r / pow10(places)) + padded_digits(r, places)) == r
        }),
{
    let r = round_half_even(num * pow10(places), den);
    let p = pow10(places);
    lemma_pow10_positive(places);
    lemma_decimal_digits_value(r / p);
    lemma_padded_digits_value(r, places);
    lemma_digits_value_concat(decimal_digits(r / p), padded_digits(r, places));
    lemma_fundamental_div_mod(r as int, p as int);
    assert((r / p) * p == p * (r / p)) by (nonlinear_arith);
}

/// A decimal digit character, '0' to '9'.
pub open spec fn is_digit(c: char) -> bool {
    48 <= (c as u32) && (c as u32) <= 57
}

/// Decimal and padded texts are made of digits only.
pub proof fn lemma_digits_are_digits(n: nat, width: nat)
    ensures
        forall|i: int| 0 <= i < decimal_digits(n).len() ==> is_digit(#[trigger] decimal_digits(n)[i]),
        forall|i: int|
            0 <= i < padded_digits(n, width).len() ==> is_digit(#[trigger] padded_digits(n, width)[i]),
    decreases n + width,
{
    if n >= 10 {
        lemma_digits_are_digits(n / 10, width);
        let d = decimal_digits(n / 10);
        assert forall|i: int| 0 <= i < decimal_digits(n).len() implies is_digit(
            #[trigger] decimal_digits(n)[i],
        ) by {
            if i < d.len() {
                assert(decimal_digits(n)[i] == d[i]);
            }
        }
    }
    if width > 0 {
        lemma_digits_are_digits(n / 10, (width - 1) as nat);
        let p = padded_digits(n / 10, (width - 1) as nat);
        assert forall|i: int| 0 <= i < padded_digits(n, width).len() implies is_digit(
            #[trigger] padded_digits(n, width)[i],
        ) by {
            if i < p.len() {
                assert(padded_digits(n, width)[i] == p[i]);
            }
        }
    }
}

/// `t` is a fixed-point text with `places` decimals that shows `num / den`
/// to within half a unit of its last place: digits, a point, exactly
/// `places` digits, no leading zero before the point but a lone "0", and
/// the digits read without the point denote a value `v` with
/// `|v / 10^places - num / den| <= 1 / (2 * 10^places)`.
pub open spec fn shows_fixed(t: Seq<char>, places: nat, num: nat, den: nat) -> bool {
    let k = t.len() - places - 1;
    &&& t.len() >= places + 2
    &&& t[k] == '.'
    &&& forall|i: int| 0 <= i < t.len() && i != k ==> is_digit(#[trigger] t[i])
    &&& (t[0] == '0' ==> k == 1)
    &&& 2 * num * pow10(places) <= 2 * digits_value(t.remove(k)) * den + den
    &&& 2 * digits_value(t.remove(k)) * den <= 2 * num * pow10(places) + den
}

/// Fixed-point text shows its fraction correctly rounded: to within half a
/// unit of the last decimal place, with exactly `places` decimals.
pub proof fn lemma_fixed_text_shows(num: nat, den: nat, places: nat)
    requires
        den > 0,
        places > 0,
    ensures
        shows_fixed(fixed_text(num, den, places), places, num, den),
{
    let p = pow10(places);
    lemma_pow10_positive(places);
    let r = round_half_even(num * p, den);
    lemma_fixed_text_value(num, den, places);
    let d = decimal_digits(r / p);
    let f = padded_digits(r, places);
    let t = fixed_text(num, den, places);
    lemma_decimal_digits_value(r / p);
    lemma_digits_are_digits(r / p, places);
    lemma_digits_are_digits(r, places);
    let k = d.len() as int;
    assert(t.len() - places - 1 == k);
    assert(t.remove(k) =~= d + f);
    assert forall|i: int| 0 <= i < t.len() && i != k implies is_digit(#[trigger] t[i]) by {
        if i < k {
            assert(t[i] == d[i]);
        } else {
            assert(t[i] == f[i - k - 1]);
        }
    }
    assert(t[0] == d[0]);
    if d[0] == '0' {
        assert(r / p == 0);
        assert(decimal_digits(0) == seq![digit_char(0)]);
    }
    lemma_round_half_even_error(num * p, den);
    assert(2 * num * p == 2 * (num * p)) by (nonlinear_arith);
    assert(2 * r * den == 2 * round_half_even(num * p, den) * den);
}

} // verus!

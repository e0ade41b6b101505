//! The arithmetic of Bootstring with Punycode's parameters (RFC 3492, sections
//! 3.3, 5 and 6.1): digits, generalized variable-length integers and the
//! adaptation of the bias.

use vstd::arithmetic::div_mod::lemma_div_denominator;
use vstd::arithmetic::power::{lemma_pow0, lemma_pow1, lemma_pow_adds, lemma_pow_positive, pow};
use vstd::prelude::*;

verus! {

/// Number of digit values.
pub const BASE: u64 = 36;

/// Smallest threshold of a digit position.
pub const TMIN: u64 = 1;

/// Largest threshold of a digit position.
pub const TMAX: u64 = 26;

/// Skew of the bias adaptation.
pub const SKEW: u64 = 38;

/// Damping of the first bias adaptation.
pub const DAMP: u64 = 700;

/// Bias before the first delta.
pub const INITIAL_BIAS: u64 = 72;

/// First value that is not a basic code point.
pub const INITIAL_N: u64 = 128;

/// Appends one character to a string (`String::push` of std).
pub assume_specification[ String::push ](s: &mut String, ch: char)
    ensures
        final(s)@ == old(s)@.push(ch),
;

/// The character of digit `d`: `a` to `z` for 0 to 25, `0` to `9` for 26 to 35.
pub open spec fn digit_char(d: int) -> char {
    if d < 26 {
        ('a' as int + d) as char
    } else {
        ('0' as int + (d - 26)) as char
    }
}

/// The threshold of the digit position `k` (36, 72, 108, ...) under `bias`.
pub open spec fn threshold(k: int, bias: int) -> int {
    if k <= bias {
        TMIN as int
    } else if k >= bias + TMAX {
        TMAX as int
    } else {
        k - bias
    }
}

/// What is left of `q` after the digit of a position with threshold `t`.
pub open spec fn digit_rest(q: int, t: int) -> int {
    (q - t) / (BASE - t)
}

/// The digits of the integer `q` from digit position `k` on, least significant
/// first: the last digit is the only one below its threshold.
pub open spec fn delta_digits(q: int, k: int, bias: int) -> Seq<char>
    decreases q,
{
    let t = threshold(k, bias);
    if q < t {
        seq![digit_char(q)]
    } else {
        proof {
            lemma_digit_rest(q, t);
        }
        seq![digit_char(t + (q - t) % (BASE - t))] + delta_digits(
            digit_rest(q, t),
            k + BASE,
            bias,
        )
    }
}

/// The scaling loop of the bias adaptation, from scaled delta `delta` and
/// accumulated bias `k` on.
pub open spec fn adapt_scale(delta: int, k: int) -> int
    decreases delta,
{
    if delta > ((BASE - TMIN) * TMAX) / 2 {
        proof {
            assert(BASE - TMIN == 35);
        }
        adapt_scale(delta / (BASE - TMIN), k + BASE)
    } else {
        k + ((BASE - TMIN + 1) * delta) / (delta + SKEW)
    }
}

/// The bias that follows a delta: `num_points` code points are encoded so far,
/// and `first_time` holds for the first delta.
pub open spec fn adapted_bias(delta: int, num_points: int, first_time: bool) -> int {
    let damped = if first_time {
        delta / DAMP as int
    } else {
        delta / 2
    };
    adapt_scale(damped + damped / num_points, 0)
}

/// What the bias adaptation divides: the damped delta, and its share of one code point.
pub open spec fn scaled_delta(delta: int, num_points: int, first_time: bool) -> int {
    let damped = if first_time {
        delta / 700
    } else {
        delta / 2
    };
    damped + damped / num_points
}

/// Whether `k` is the least number of divisions by 35 that bring `d` down to 455.
pub open spec fn is_division_count(d: int, k: nat) -> bool {
    &&& d / pow(35, k) <= 455
    &&& forall|j: nat| j < k ==> #[trigger] (d / pow(35, j)) > 455
}

/// The bias that `k` divisions of `d` by 35 lead to.
pub open spec fn bias_after(d: int, k: nat) -> int {
    36 * k + (36 * (d / pow(35, k))) / (d / pow(35, k) + 38)
}

proof fn lemma_adapt_scale(d: int, k: int) -> (count: nat)
    requires
        0 <= d,
    ensures
        is_division_count(d, count),
        adapt_scale(d, k) == k + bias_after(d, count),
    decreases d,
{
    lemma_pow0(35);
    assert(d / 1 == d);
    assert(((BASE - TMIN) * TMAX) / 2 == 455) by {
        assert(BASE - TMIN == 35);
    }
    if d > 455 {
        let rest = d / 35;
        let count = lemma_adapt_scale(rest, k + 36);
        assert forall|j: nat| rest / pow(35, j) == d / #[trigger] pow(35, j + 1) by {
            lemma_pow1(35);
            lemma_pow_adds(35, 1, j);
            lemma_pow_positive(35, j);
            lemma_div_denominator(d, 35, pow(35, j));
        }
        assert(rest / pow(35, count) == d / pow(35, count + 1));
        assert forall|j: nat| j < count + 1 implies #[trigger] (d / pow(35, j)) > 455 by {
            if j > 0 {
                assert(rest / pow(35, (j - 1) as nat) == d / pow(35, (j - 1) as nat + 1));
            }
        }
        count + 1
    } else {
        0
    }
}

/// The bias adaptation of RFC 3492, section 6.1: the scaled delta is divided by 35 as often
/// as it takes to bring it down to 455, and no more often. Each division adds 36 to the bias,
/// and so does the rest, in the proportion of itself to itself and 38.
pub proof fn bias_is_that_of_the_rfc(delta: int, num_points: int, first_time: bool)
    requires
        0 <= delta,
        0 < num_points,
    ensures
        exists|k: nat|
            is_division_count(scaled_delta(delta, num_points, first_time), k) && adapted_bias(
                delta,
                num_points,
                first_time,
            ) == #[trigger] bias_after(scaled_delta(delta, num_points, first_time), k),
{
    let damped = if first_time {
        delta / 700
    } else {
        delta / 2
    };
    assert(0 <= damped / num_points) by (nonlinear_arith)
        requires
            0 <= damped,
            0 < num_points,
    ;
    let count = lemma_adapt_scale(scaled_delta(delta, num_points, first_time), 0);
}

/// The bias is fixed by that: no two numbers of divisions fit.
pub proof fn bias_is_determined(d: int, j: nat, k: nat)
    requires
        is_division_count(d, j),
        is_division_count(d, k),
    ensures
        j == k,
{
    if j < k {
        assert(d / pow(35, j) > 455);
    } else if k < j {
        assert(d / pow(35, k) > 455);
    }
}

/// The threshold of a digit position is the distance of the position from the bias, brought
/// into the range from 1 to 26.
pub proof fn threshold_is_clamped_distance(k: int, bias: int)
    ensures
        1 <= threshold(k, bias) <= 26,
        1 <= k - bias <= 26 ==> threshold(k, bias) == k - bias,
        k - bias < 1 ==> threshold(k, bias) == 1,
        k - bias > 26 ==> threshold(k, bias) == 26,
{
}

/// A digit with a threshold from 1 to 26 leaves at most a tenth of the integer.
pub proof fn lemma_digit_rest(q: int, t: int)
    requires
        1 <= t <= 26,
        t <= q,
    ensures
        0 <= digit_rest(q, t),
        10 * digit_rest(q, t) <= q - t,
        digit_rest(q, t) * (BASE - t) + (q - t) % (BASE - t) == q - t,
        0 <= (q - t) % (BASE - t) < BASE - t,
{
    let d = BASE - t;
    let x = q - t;
    let r = x / d;
    vstd::arithmetic::div_mod::lemma_fundamental_div_mod(x, d);
    vstd::arithmetic::div_mod::lemma_mod_bound(x, d);
    vstd::arithmetic::div_mod::lemma_div_pos_is_pos(x, d);
    assert(d * r == r * d) by (nonlinear_arith);
    assert(10 * r <= r * d) by (nonlinear_arith)
        requires
            10 <= d,
            0 <= r,
    ;
}

/// Maps a Bootstring digit to its character: 0 to 25 give `a` to `z`, 26 to 35
/// give `0` to `9`.
pub fn digit_to_char(d: u64) -> (c: char)
    requires
        d < BASE,
    ensures
        c == digit_char(d as int),
        c as int == (if d < 26 {
            97 + d
        } else {
            22 + d
        }),
{
    if d < 26 {
        (97u8 + d as u8) as char
    } else {
        (48u8 + (d - 26) as u8) as char
    }
}

/// The bias adaptation of RFC 3492, section 6.1.
pub fn adapt(delta: u64, num_points: u64, first_time: bool) -> (bias: u64)
    requires
        num_points > 0,
    ensures
        bias == adapted_bias(delta as int, num_points as int, first_time),
        exists|k: nat|
            is_division_count(
                scaled_delta(delta as int, num_points as int, first_time),
                k,
            ) && bias == #[trigger] bias_after(
                scaled_delta(delta as int, num_points as int, first_time),
                k,
            ),
{
    proof {
        bias_is_that_of_the_rfc(delta as int, num_points as int, first_time);
    }
    let mut delta: u64 = if first_time {
        delta / DAMP
    } else {
        delta / 2
    };
    proof {
        let d = delta as int;
        let p = num_points as int;
        assert(0 <= d / p <= d) by (nonlinear_arith)
            requires
                d >= 0,
                p > 0,
        ;
    }
    delta = delta + delta / num_points;
    let ghost start: int = delta as int;
    let mut k: u64 = 0;
    while delta > ((BASE - TMIN) * TMAX) / 2
        invariant
            12 * k + delta <= start <= u64::MAX,
            adapt_scale(delta as int, k as int) == adapt_scale(start, 0),
        decreases delta,
    {
        delta = delta / (BASE - TMIN);
        k = k + BASE;
    }
    proof {
        let d = delta as int;
        assert((36 * d) / (d + 38) <= 36) by (nonlinear_arith)
            requires
                d >= 0,
        ;
    }
    k + (((BASE - TMIN + 1) * delta) / (delta + SKEW))
}

/// A bound on the digit positions that an integer still needs; each digit
/// lowers it by at least one position.
spec fn position_budget(q: int) -> int {
    if q <= 40 {
        36 * q
    } else {
        1400 + q
    }
}

/// Appends `delta` as a generalized variable-length integer under `bias`.
pub fn push_delta(output: &mut String, delta: u64, bias: u64)
    ensures
        final(output)@ == old(output)@ + delta_digits(delta as int, BASE as int, bias as int),
{
    let mut q: u64 = delta;
    let mut k: u64 = BASE;
    let mut t: u64 = if k <= bias {
        TMIN
    } else if k >= bias + TMAX {
        TMAX
    } else {
        k - bias
    };
    while q >= t
        invariant
            t == threshold(k as int, bias as int),
            1 <= t <= 26,
            (k == BASE && q == delta) || k + position_budget(q as int) <= 72 + 1440 + delta / 10,
            k <= u64::MAX / 2,
            old(output)@ + delta_digits(delta as int, BASE as int, bias as int) == output@
                + delta_digits(q as int, k as int, bias as int),
        decreases q,
    {
        proof {
            lemma_digit_rest(q as int, t as int);
        }
        let ghost before = output@;
        output.push(digit_to_char(t + ((q - t) % (BASE - t))));
        let ghost q0 = q as int;
        q = (q - t) / (BASE - t);
        k = k + BASE;
        assert(before + (seq![digit_char(t + (q0 - t) % (BASE - t))] + delta_digits(
            q as int,
            k as int,
            bias as int,
        )) =~= output@ + delta_digits(q as int, k as int, bias as int));
        t =
        if k <= bias {
            TMIN
        } else if k >= bias + TMAX {
            TMAX
        } else {
            k - bias
        };
    }
    output.push(digit_to_char(q));
    assert(delta_digits(q as int, k as int, bias as int) == seq![digit_char(q as int)]);
}

} // verus!

//! Counts of smaller and equal characters, and what a pass makes of them.

use super::bootstring::INITIAL_N;
use super::fenwick::values_sum;
use super::textbook::{
    advance, after_pass, basic_chars, encode_from, has_value_from, initial_encoder, largest_delta,
    lemma_next_value, next_value, pass, visit, Encoder,
};
use vstd::prelude::*;

verus! {

/// Number of characters below `m` at the positions from `a` to `b`.
pub open spec fn count_below(s: Seq<char>, a: int, b: int, m: int) -> int
    decreases b - a,
{
    if a < b {
        (if (s[a] as int) < m {
            1int
        } else {
            0
        }) + count_below(s, a + 1, b, m)
    } else {
        0
    }
}

/// Number of characters equal to `m` at the positions from `a` to `b`.
pub open spec fn count_equal(s: Seq<char>, a: int, b: int, m: int) -> int
    decreases b - a,
{
    if a < b {
        (if s[a] as int == m {
            1int
        } else {
            0
        }) + count_equal(s, a + 1, b, m)
    } else {
        0
    }
}

pub proof fn lemma_count_split(s: Seq<char>, a: int, b: int, c: int, m: int)
    requires
        a <= b <= c,
    ensures
        count_below(s, a, c, m) == count_below(s, a, b, m) + count_below(s, b, c, m),
        0 <= count_below(s, a, b, m) <= b - a,
    decreases b - a,
{
    if a < b {
        lemma_count_split(s, a + 1, b, c, m);
    }
}

/// Where every character is in order for `m` exactly if it is for `n`, the
/// counts agree.
pub proof fn lemma_count_gap(s: Seq<char>, a: int, b: int, n: int, m: int)
    requires
        forall|j: int| a <= j < b ==> ((s[j] as int) < n <==> (s[j] as int) < m),
    ensures
        count_below(s, a, b, n) == count_below(s, a, b, m),
    decreases b - a,
{
    if a < b {
        lemma_count_gap(s, a + 1, b, n, m);
    }
}

pub proof fn lemma_count_successor(s: Seq<char>, a: int, b: int, m: int)
    ensures
        count_below(s, a, b, m + 1) == count_below(s, a, b, m) + count_equal(s, a, b, m),
    decreases b - a,
{
    if a < b {
        lemma_count_successor(s, a + 1, b, m);
    }
}

pub proof fn lemma_count_equal(s: Seq<char>, a: int, b: int, m: int, p: int)
    requires
        a <= b,
    ensures
        0 <= count_equal(s, a, b, m),
        a <= p < b && s[p] as int == m ==> 1 <= count_equal(s, a, b, m),
    decreases b - a,
{
    if a < b {
        lemma_count_equal(s, a + 1, b, m, p);
    }
}

/// The sum of the indicators of the characters below `m` is their count.
pub proof fn lemma_indicator_sum(values: Seq<u64>, s: Seq<char>, p: int, m: int)
    requires
        values.len() == s.len(),
        0 <= p <= s.len(),
        forall|j: int|
            0 <= j < s.len() ==> #[trigger] values[j] == (if (s[j] as int) < m {
                1u64
            } else {
                0
            }),
    ensures
        values_sum(values.take(p)) == count_below(s, 0, p, m),
    decreases p,
{
    if p > 0 {
        lemma_indicator_sum(values, s, p - 1, m);
        assert(values.take(p).drop_last() =~= values.take(p - 1));
        lemma_count_split(s, 0, p - 1, p, m);
        assert(count_below(s, p, p, m) == 0);
        assert(values[p - 1] == values.take(p).last());
    }
}

/// The basic characters of a prefix, one character further.
pub proof fn lemma_basic_step(s: Seq<char>, i: int)
    requires
        0 <= i < s.len(),
    ensures
        basic_chars(s.take(i + 1)) == (if (s[i] as int) < INITIAL_N {
            basic_chars(s.take(i)).push(s[i])
        } else {
            basic_chars(s.take(i))
        }),
{
    reveal(Seq::filter);
    assert(s.take(i + 1).drop_last() =~= s.take(i));
}

pub proof fn lemma_basic_count(s: Seq<char>, i: int)
    requires
        0 <= i <= s.len(),
    ensures
        basic_chars(s.take(i)).len() == count_below(s, 0, i, INITIAL_N as int),
    decreases i,
{
    if i > 0 {
        lemma_basic_count(s, i - 1);
        lemma_basic_step(s, i - 1);
        lemma_count_split(s, 0, i - 1, i, INITIAL_N as int);
        assert(count_below(s, i, i, INITIAL_N as int) == 0);
    } else {
        reveal(Seq::filter);
    }
}

/// A stretch of the text without `m` adds its number of smaller characters to
/// the delta and does nothing else.
pub proof fn lemma_pass_skip(s: Seq<char>, i: int, p: int, m: int, basic: int, e: Encoder)
    requires
        0 <= i <= p <= s.len(),
        forall|j: int| i <= j < p ==> s[j] as int != m,
    ensures
        pass(s, i, m, basic, e) == pass(
            s,
            p,
            m,
            basic,
            (Encoder { delta: e.delta + count_below(s, i, p, m), ..e }),
        ),
    decreases p - i,
{
    if i < p {
        lemma_pass_skip(s, i + 1, p, m, basic, visit(e, s[i] as int, m, basic));
    }
}

pub proof fn lemma_pass_handled(s: Seq<char>, i: int, m: int, basic: int, e: Encoder)
    requires
        0 <= i <= s.len(),
    ensures
        pass(s, i, m, basic, e).handled == e.handled + count_equal(s, i, s.len() as int, m),
    decreases s.len() - i,
{
    if i < s.len() {
        lemma_pass_handled(s, i + 1, m, basic, visit(e, s[i] as int, m, basic));
    }
}

/// A pass never lowers the largest delta, and raises it to the current delta
/// where it emits one.
pub proof fn lemma_pass_largest(s: Seq<char>, i: int, m: int, basic: int, e: Encoder)
    requires
        0 <= i <= s.len(),
    ensures
        e.largest <= pass(s, i, m, basic, e).largest,
        (exists|p: int| i <= p < s.len() && s[p] as int == m) ==> e.delta <= pass(
            s,
            i,
            m,
            basic,
            e,
        ).largest,
    decreases s.len() - i,
{
    if i < s.len() {
        lemma_pass_largest(s, i + 1, m, basic, visit(e, s[i] as int, m, basic));
    }
}

/// The values that follow never lower the largest delta.
pub proof fn lemma_encode_largest(s: Seq<char>, n: int, basic: int, e: Encoder)
    ensures
        e.largest <= encode_from(s, n, basic, e).largest,
    decreases 0x110000 - n,
{
    if has_value_from(s, n) {
        lemma_next_value(s, n);
        let m = next_value(s, n);
        let entered = advance(e, n, m);
        lemma_pass_largest(s, 0, m, basic, entered);
        lemma_encode_largest(s, m + 1, basic, after_pass(pass(s, 0, m, basic, entered)));
    }
}

proof fn lemma_pass_bounds(s: Seq<char>, i: int, m: int, basic: int, e: Encoder)
    requires
        0 <= i <= s.len(),
        0 <= e.delta,
    ensures
        0 <= pass(s, i, m, basic, e).delta,
        (exists|p: int| i <= p < s.len() && s[p] as int == m) ==> pass(s, i, m, basic, e).delta
            <= s.len() - i,
        pass(s, i, m, basic, e).delta <= e.delta + (s.len() - i),
        pass(s, i, m, basic, e).largest <= e.largest || pass(s, i, m, basic, e).largest <= e.delta
            + (s.len() - i),
    decreases s.len() - i,
{
    if i < s.len() {
        lemma_pass_bounds(s, i + 1, m, basic, visit(e, s[i] as int, m, basic));
    }
}

proof fn lemma_encode_bounds(s: Seq<char>, n: int, basic: int, e: Encoder, bound: int)
    requires
        0 <= n,
        0 <= e.delta <= s.len() + 1,
        e.handled == count_below(s, 0, s.len() as int, n),
        e.largest <= bound,
        bound == (s.len() + 1) * 0x110002,
    ensures
        encode_from(s, n, basic, e).largest <= bound,
    decreases 0x110000 - n,
{
    if has_value_from(s, n) {
        lemma_next_value(s, n);
        let len = s.len() as int;
        let m = next_value(s, n);
        let entered = advance(e, n, m);
        let end = pass(s, 0, m, basic, entered);
        lemma_count_split(s, 0, len, len, n);
        assert(0 <= (m - n) * (e.handled + 1) <= 0x110000 * (len + 1)) by (nonlinear_arith)
            requires
                0 <= m - n <= 0x110000,
                0 <= e.handled <= len,
        ;
        lemma_pass_bounds(s, 0, m, basic, entered);
        lemma_pass_handled(s, 0, m, basic, entered);
        lemma_count_successor(s, 0, len, m);
        lemma_count_gap(s, 0, len, n, m);
        lemma_encode_bounds(s, m + 1, basic, after_pass(end), bound);
    }
}

/// The deltas of a text of less than 2^43 characters fit in 64 bits.
pub proof fn lemma_short_text_fits(s: Seq<char>)
    requires
        s.len() < 0x800_0000_0000,
    ensures
        largest_delta(s) <= u64::MAX,
{
    lemma_basic_count(s, s.len() as int);
    assert(s.take(s.len() as int) =~= s);
    lemma_encode_bounds(
        s,
        INITIAL_N as int,
        basic_chars(s).len() as int,
        initial_encoder(s),
        (s.len() as int + 1) * 0x110002,
    );
}

} // verus!

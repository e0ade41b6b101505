//! Punycode as RFC 3492, section 6.3, defines it: one pass over the whole text
//! for every value that occurs in it.

use super::bootstring::{adapted_bias, delta_digits, BASE, INITIAL_BIAS, INITIAL_N};
use vstd::prelude::*;

verus! {

/// State of the encoding procedure.
pub ghost struct Encoder {
    /// Decoder states to skip before the next insertion.
    pub delta: int,
    /// Current bias.
    pub bias: int,
    /// Number of code points encoded so far.
    pub handled: int,
    /// Text produced so far.
    pub output: Seq<char>,
    /// Largest delta emitted so far.
    pub largest: int,
}

/// The basic (ASCII) characters of a text, in their order.
pub open spec fn basic_chars(s: Seq<char>) -> Seq<char> {
    s.filter(|c: char| (c as int) < INITIAL_N)
}

/// The basic characters, with the delimiter behind them if there are any.
pub open spec fn literal_prefix(s: Seq<char>) -> Seq<char> {
    let basic = basic_chars(s);
    if basic.len() > 0 {
        basic.push('-')
    } else {
        basic
    }
}

/// One character in the pass for value `m`: a smaller one is one more state to
/// skip, and `m` itself emits the delta.
pub open spec fn visit(e: Encoder, c: int, m: int, basic: int) -> Encoder {
    if c < m {
        Encoder { delta: e.delta + 1, ..e }
    } else if c == m {
        Encoder {
            delta: 0,
            bias: adapted_bias(e.delta, e.handled + 1, e.handled == basic),
            handled: e.handled + 1,
            output: e.output + delta_digits(e.delta, BASE as int, e.bias),
            largest: if e.largest < e.delta {
                e.delta
            } else {
                e.largest
            },
        }
    } else {
        e
    }
}

/// The pass for value `m` over the characters from position `i` on.
pub open spec fn pass(s: Seq<char>, i: int, m: int, basic: int, e: Encoder) -> Encoder
    decreases s.len() - i,
{
    if 0 <= i < s.len() {
        pass(s, i + 1, m, basic, visit(e, s[i] as int, m, basic))
    } else {
        e
    }
}

/// Whether `m` is the smallest value from `n` on that occurs in the text.
pub open spec fn is_next_value(s: Seq<char>, n: int, m: int) -> bool {
    &&& n <= m
    &&& exists|i: int| 0 <= i < s.len() && s[i] as int == m
    &&& forall|j: int| 0 <= j < s.len() && n <= s[j] as int ==> m <= s[j] as int
}

/// Whether a value from `n` on occurs in the text.
pub open spec fn has_value_from(s: Seq<char>, n: int) -> bool {
    exists|i: int| 0 <= i < s.len() && n <= s[i] as int
}

/// The smallest value from `n` on that occurs in the text.
pub open spec fn next_value(s: Seq<char>, n: int) -> int {
    choose|m: int| is_next_value(s, n, m)
}

/// The state once `n` has advanced to the next value `m`.
pub open spec fn advance(e: Encoder, n: int, m: int) -> Encoder {
    Encoder { delta: e.delta + (m - n) * (e.handled + 1), ..e }
}

/// The state behind the pass for one value.
pub open spec fn after_pass(e: Encoder) -> Encoder {
    Encoder { delta: e.delta + 1, ..e }
}

/// The encoding of all values from `n` on.
pub open spec fn encode_from(s: Seq<char>, n: int, basic: int, e: Encoder) -> Encoder
    decreases 0x110000 - n,
{
    if has_value_from(s, n) {
        let m = next_value(s, n);
        proof {
            lemma_next_value(s, n);
        }
        encode_from(s, m + 1, basic, after_pass(pass(s, 0, m, basic, advance(e, n, m))))
    } else {
        e
    }
}

/// The state before the first value that is not basic.
pub open spec fn initial_encoder(s: Seq<char>) -> Encoder {
    Encoder {
        delta: 0,
        bias: INITIAL_BIAS as int,
        handled: basic_chars(s).len() as int,
        output: literal_prefix(s),
        largest: 0,
    }
}

/// The state at the end of the text's encoding.
pub open spec fn final_encoder(s: Seq<char>) -> Encoder {
    encode_from(s, INITIAL_N as int, basic_chars(s).len() as int, initial_encoder(s))
}

/// The Punycode of a text.
pub open spec fn punycode(s: Seq<char>) -> Seq<char> {
    final_encoder(s).output
}

/// The largest delta that the Punycode of a text holds.
pub open spec fn largest_delta(s: Seq<char>) -> int {
    final_encoder(s).largest
}

/// Where a value from `n` on occurs, there is exactly one smallest.
pub proof fn lemma_next_value(s: Seq<char>, n: int)
    requires
        has_value_from(s, n),
    ensures
        is_next_value(s, n, next_value(s, n)),
        forall|m: int| is_next_value(s, n, m) ==> m == next_value(s, n),
        n <= next_value(s, n) < 0x110000,
{
    let i = choose|i: int| 0 <= i < s.len() && n <= s[i] as int;
    lemma_least_exists(s, n, i);
    assert forall|m: int| is_next_value(s, n, m) implies m == next_value(s, n) by {
        let k = next_value(s, n);
        let a = choose|a: int| 0 <= a < s.len() && s[a] as int == m;
        let b = choose|b: int| 0 <= b < s.len() && s[b] as int == k;
        assert(m <= s[b] as int);
        assert(k <= s[a] as int);
    }
    let b = choose|b: int| 0 <= b < s.len() && s[b] as int == next_value(s, n);
    lemma_char_bound(s[b]);
}

/// Every character is at most U+10FFFF.
pub proof fn lemma_char_bound(c: char)
    ensures
        0 <= c as int <= 0x10ffff,
{
}

proof fn lemma_least_exists(s: Seq<char>, n: int, i: int)
    requires
        0 <= i < s.len(),
        n <= s[i] as int,
    ensures
        exists|m: int| is_next_value(s, n, m),
    decreases s[i] as int - n,
{
    if exists|j: int| 0 <= j < s.len() && n <= s[j] as int && (s[j] as int) < s[i] as int {
        let j = choose|j: int|
            0 <= j < s.len() && n <= s[j] as int && (s[j] as int) < s[i] as int;
        lemma_least_exists(s, n, j);
    } else {
        assert(is_next_value(s, n, s[i] as int));
    }
}

} // verus!

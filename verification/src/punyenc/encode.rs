//! The encoder. Sorting and the Fenwick tree keep it at `O(n log n)` steps by design; the
//! contracts speak of the output only.

use super::bootstring::{adapt, push_delta, INITIAL_BIAS, INITIAL_N};
use super::counting::{
    count_below, lemma_basic_count, lemma_basic_step, lemma_count_equal, lemma_count_gap,
    lemma_count_split, lemma_count_successor, lemma_encode_largest, lemma_indicator_sum,
    lemma_pass_handled, lemma_pass_largest, lemma_pass_skip, lemma_short_text_fits,
};
use super::decoding::{decode, decoding_undoes_encoding};
use super::fenwick::{
    fenwick_add_at, fenwick_from_values, fenwick_prefix_sum, fenwick_values,
    lemma_sum_of_indicators, lemma_sum_of_update,
};
use super::textbook::{
    advance, after_pass, basic_chars, encode_from, final_encoder, has_value_from, initial_encoder,
    is_next_value, largest_delta, lemma_char_bound, lemma_next_value, literal_prefix, next_value,
    pass, punycode, visit, Encoder,
};
use ftree::FenwickTree;
use vstd::prelude::*;

verus! {

/// The order of `(value, position)` pairs: by value, then by position.
pub open spec fn pair_le(a: (u32, usize), b: (u32, usize)) -> bool {
    a.0 < b.0 || (a.0 == b.0 && a.1 <= b.1)
}

/// `sort` of std on pairs of integers: the same pairs, in lexicographic order.
#[verifier::external_body]
fn sort_pairs(pairs: &mut Vec<(u32, usize)>)
    ensures
        final(pairs)@.to_multiset() == old(pairs)@.to_multiset(),
        forall|a: int, b: int|
            0 <= a <= b < final(pairs)@.len() ==> pair_le(final(pairs)@[a], final(pairs)@[b]),
{
    pairs.sort()
}

/// Whether the vector holds the values of the characters of the text.
spec fn are_code_points(code_points: Seq<u32>, s: Seq<char>) -> bool {
    &&& code_points.len() == s.len()
    &&& forall|j: int| 0 <= j < s.len() ==> #[trigger] code_points[j] as int == s[j] as int
}

/// Whether `pair` is the value and the position of a character of the text that
/// is not basic.
spec fn is_occurrence(s: Seq<char>, pair: (u32, usize)) -> bool {
    &&& pair.1 < s.len()
    &&& pair.0 as int == s[pair.1 as int] as int
    &&& pair.0 >= INITIAL_N
}

/// Whether `pairs` holds each character that is not basic once, by value and
/// then by position.
spec fn are_sorted_occurrences(pairs: Seq<(u32, usize)>, s: Seq<char>) -> bool {
    &&& forall|a: int| 0 <= a < pairs.len() ==> is_occurrence(s, #[trigger] pairs[a])
    &&& forall|a: int, b: int|
        0 <= a < b < pairs.len() ==> pairs[a].0 < pairs[b].0 || (pairs[a].0 == pairs[b].0
            && pairs[a].1 < pairs[b].1)
    &&& forall|p: usize|
        p < s.len() && #[trigger] s[p as int] as int >= INITIAL_N ==> has_position(pairs, p)
}

/// Whether one of the pairs is at position `p`.
spec fn has_position(pairs: Seq<(u32, usize)>, p: usize) -> bool {
    exists|a: int| 0 <= a < pairs.len() && (#[trigger] pairs[a]).1 == p
}

/// The values of the characters of a text.
fn collect_code_points(input: &str) -> (code_points: Vec<u32>)
    ensures
        are_code_points(code_points@, input@),
{
    let mut code_points: Vec<u32> = Vec::new();
    for c in it: input.chars()
        invariant
            it.seq() == input@,
            code_points@.len() == it.index(),
            forall|j: int|
                0 <= j < it.index() ==> #[trigger] code_points@[j] as int == input@[j] as int,
    {
        proof {
            lemma_char_bound(c);
        }
        code_points.push(c as u32);
    }
    code_points
}

/// The non-basic characters of a text as sorted pairs of value and position.
fn sorted_occurrences(code_points: &Vec<u32>, Ghost(s): Ghost<Seq<char>>) -> (pairs: Vec<
    (u32, usize),
>)
    requires
        are_code_points(code_points@, s),
    ensures
        are_sorted_occurrences(pairs@, s),
{
    let mut pairs: Vec<(u32, usize)> = Vec::new();
    for i in 0..code_points.len()
        invariant
            are_code_points(code_points@, s),
            forall|a: int|
                0 <= a < pairs@.len() ==> is_occurrence(s, #[trigger] pairs@[a]) && pairs@[a].1
                    < i,
            forall|a: int, b: int| 0 <= a < b < pairs@.len() ==> pairs@[a].1 < pairs@[b].1,
            forall|p: usize|
                p < i && #[trigger] s[p as int] as int >= INITIAL_N ==> has_position(pairs@, p),
    {
        let c: u32 = code_points[i];
        let ghost before = pairs@;
        if c as u64 >= INITIAL_N {
            pairs.push((c, i));
            assert(pairs@[before.len() as int] == (c, i));
        }
        assert forall|p: usize|
            p < i + 1 && #[trigger] s[p as int] as int >= INITIAL_N implies has_position(
            pairs@,
            p,
        ) by {
            if p < i {
                let a = choose|a: int| 0 <= a < before.len() && (#[trigger] before[a]).1 == p;
                assert(pairs@[a] == before[a]);
            }
        }
    }
    let ghost unsorted = pairs@;
    sort_pairs(&mut pairs);
    proof {
        lemma_sorted_occurrences(unsorted, pairs@, s);
    }
    pairs
}

proof fn lemma_sorted_occurrences(
    unsorted: Seq<(u32, usize)>,
    pairs: Seq<(u32, usize)>,
    s: Seq<char>,
)
    requires
        pairs.to_multiset() == unsorted.to_multiset(),
        forall|a: int, b: int| 0 <= a <= b < pairs.len() ==> pair_le(pairs[a], pairs[b]),
        forall|a: int| 0 <= a < unsorted.len() ==> is_occurrence(s, #[trigger] unsorted[a]),
        forall|a: int, b: int| 0 <= a < b < unsorted.len() ==> unsorted[a].1 < unsorted[b].1,
        forall|p: usize|
            p < s.len() && #[trigger] s[p as int] as int >= INITIAL_N ==> has_position(
                unsorted,
                p,
            ),
    ensures
        are_sorted_occurrences(pairs, s),
{
    broadcast use vstd::seq_lib::group_to_multiset_ensures;

    assert forall|x: (u32, usize)| pairs.contains(x) <==> unsorted.contains(x) by {
        assert(pairs.contains(x) <==> pairs.to_multiset().count(x) > 0);
        assert(unsorted.contains(x) <==> unsorted.to_multiset().count(x) > 0);
    }
    assert forall|a: int| 0 <= a < pairs.len() implies is_occurrence(s, #[trigger] pairs[a]) by {
        assert(pairs.contains(pairs[a]));
    }
    assert forall|p: usize|
        p < s.len() && #[trigger] s[p as int] as int >= INITIAL_N implies has_position(
        pairs,
        p,
    ) by {
        let a = choose|a: int| 0 <= a < unsorted.len() && (#[trigger] unsorted[a]).1 == p;
        assert(pairs.contains(unsorted[a]));
        let b = choose|b: int| 0 <= b < pairs.len() && pairs[b] == unsorted[a];
        assert(pairs[b].1 == p);
    }
    assert(unsorted.no_duplicates());
    unsorted.lemma_multiset_has_no_duplicates();
    pairs.lemma_multiset_has_no_duplicates_conv();
    assert forall|a: int, b: int| 0 <= a < b < pairs.len() implies pairs[a].0 < pairs[b].0 || (
    pairs[a].0 == pairs[b].0 && pairs[a].1 < pairs[b].1) by {
        assert(pair_le(pairs[a], pairs[b]));
        assert(pairs[a] != pairs[b]);
    }
}

/// Appends the basic characters and the delimiter, and counts the former.
fn push_basic(output: &mut String, code_points: &Vec<u32>, Ghost(s): Ghost<Seq<char>>) -> (count:
    u64)
    requires
        are_code_points(code_points@, s),
    ensures
        final(output)@ == old(output)@ + literal_prefix(s),
        count == basic_chars(s).len(),
        count == count_below(s, 0, s.len() as int, INITIAL_N as int),
{
    let mut count: u64 = 0;
    proof {
        lemma_basic_count(s, 0);
        assert(basic_chars(s.take(0)) =~= Seq::<char>::empty());
    }
    for i in 0..code_points.len()
        invariant
            are_code_points(code_points@, s),
            output@ == old(output)@ + basic_chars(s.take(i as int)),
            count == basic_chars(s.take(i as int)).len(),
            count <= i,
    {
        let c: u32 = code_points[i];
        proof {
            lemma_basic_step(s, i as int);
        }
        if (c as u64) < INITIAL_N {
            output.push(c as u8 as char);
            count = count + 1;
            assert(c as u8 as char == s[i as int]);
            assert(output@ =~= old(output)@ + basic_chars(s.take(i as int)).push(s[i as int]));
        }
    }
    proof {
        assert(s.take(s.len() as int) =~= s);
        lemma_basic_count(s, s.len() as int);
    }
    if count > 0 {
        output.push('-');
        assert(output@ =~= old(output)@ + basic_chars(s).push('-'));
    }
    count
}

/// The tree that holds a one at each basic character and a zero elsewhere.
fn basic_indicators(code_points: &Vec<u32>, Ghost(s): Ghost<Seq<char>>) -> (placed: FenwickTree<
    u64,
>)
    requires
        are_code_points(code_points@, s),
    ensures
        are_indicators(fenwick_values(placed), s, INITIAL_N as int),
{
    let mut indicators: Vec<u64> = Vec::new();
    for i in 0..code_points.len()
        invariant
            are_code_points(code_points@, s),
            indicators@.len() == i,
            forall|j: int|
                0 <= j < i ==> #[trigger] indicators@[j] == indicator(
                    s[j] as int,
                    INITIAL_N as int,
                ),
    {
        let c: u32 = code_points[i];
        indicators.push(if (c as u64) < INITIAL_N { 1 } else { 0 });
    }
    proof {
        lemma_sum_of_indicators(indicators@);
    }
    fenwick_from_values(indicators)
}

/// One for a value below `m`, else zero.
spec fn indicator(c: int, m: int) -> u64 {
    if c < m {
        1
    } else {
        0
    }
}

/// Whether each value is the indicator of the character at its position.
spec fn are_indicators(values: Seq<u64>, s: Seq<char>, m: int) -> bool {
    &&& values.len() == s.len()
    &&& forall|j: int| 0 <= j < s.len() ==> #[trigger] values[j] == indicator(s[j] as int, m)
}

/// Whether the pairs before `i` are those with values below `n`.
spec fn splits_at(pairs: Seq<(u32, usize)>, i: int, n: int) -> bool {
    &&& 0 <= i <= pairs.len()
    &&& forall|a: int| 0 <= a < i ==> (#[trigger] pairs[a]).0 < n
    &&& forall|a: int| i <= a < pairs.len() ==> (#[trigger] pairs[a]).0 >= n
}

/// The value of the first pair that is left is the next value.
proof fn lemma_first_pair_is_next(pairs: Seq<(u32, usize)>, s: Seq<char>, i: int, n: int)
    requires
        are_sorted_occurrences(pairs, s),
        splits_at(pairs, i, n),
        n >= INITIAL_N,
        s.len() <= usize::MAX,
    ensures
        i < pairs.len() ==> has_value_from(s, n) && next_value(s, n) == pairs[i].0,
        i < pairs.len() ==> forall|j: int|
            0 <= j < s.len() ==> ((s[j] as int) < n <==> (#[trigger] s[j] as int) < pairs[i].0),
        i == pairs.len() ==> !has_value_from(s, n),
{
    assert forall|j: int| 0 <= j < s.len() && n <= #[trigger] s[j] as int implies i < pairs.len()
        && pairs[i].0 <= s[j] as int by {
        let p = j as usize;
        assert(s[p as int] as int >= INITIAL_N);
        let a = choose|a: int| 0 <= a < pairs.len() && (#[trigger] pairs[a]).1 == p;
        assert(is_occurrence(s, pairs[a]));
        assert(a >= i);
        if a > i {
            assert(pairs[i].0 <= pairs[a].0);
        }
    }
    if i < pairs.len() {
        let m = pairs[i].0 as int;
        assert(is_occurrence(s, pairs[i]));
        assert(s[pairs[i].1 as int] as int == m);
        assert(has_value_from(s, n));
        assert(is_next_value(s, n, m));
        lemma_next_value(s, n);
    }
}

/// Between two neighbouring pairs of one value, and around them, that value does
/// not occur.
proof fn lemma_gap_in_group(
    pairs: Seq<(u32, usize)>,
    s: Seq<char>,
    i: int,
    m: int,
    pos: int,
    end: int,
)
    requires
        are_sorted_occurrences(pairs, s),
        s.len() <= usize::MAX,
        m >= INITIAL_N,
        0 <= i <= pairs.len(),
        0 <= pos <= end <= s.len(),
        forall|a: int| 0 <= a < i ==> (#[trigger] pairs[a]).0 < m || pairs[a].1 < pos,
        forall|a: int| i <= a < pairs.len() ==> (#[trigger] pairs[a]).0 > m || pairs[a].1 >= end,
    ensures
        forall|j: int| pos <= j < end ==> s[j] as int != m,
{
    assert forall|j: int| pos <= j < end implies s[j] as int != m by {
        if s[j] as int == m {
            let p = j as usize;
            assert(s[p as int] as int >= INITIAL_N);
            let a = choose|a: int| 0 <= a < pairs.len() && (#[trigger] pairs[a]).1 == p;
            assert(is_occurrence(s, pairs[a]));
        }
    }
}

/// Encodes a string as Punycode (RFC 3492, section 6.3) in `O(n log n)`.
///
/// The output holds the basic (ASCII) characters first, a `-` behind them if
/// there are any, and then the encoded non-basic characters.
///
/// The textbook encoder scans the whole text twice for each value that occurs:
/// for the next smallest value and for the deltas. Here the values come from
/// sorted `(value, position)` pairs, and a delta is the difference of two prefix
/// counts over the positions whose characters have smaller values, which a
/// Fenwick tree answers.
///
/// The deltas are computed in `u64`. Only a text of many trillion characters can
/// have one that does not fit; such texts are left out.
pub fn encode(input: &str) -> (output: String)
    requires
        input@.len() < 0x800_0000_0000 || largest_delta(input@) <= u64::MAX,
    ensures
        output@ == punycode(input@),
        decode(output@) == Some(input@),
{
    let ghost s = input@;
    let ghost len = s.len() as int;
    let ghost basic = basic_chars(s).len() as int;
    proof {
        if s.len() < 0x800_0000_0000 {
            lemma_short_text_fits(s);
        }
        decoding_undoes_encoding(s);
    }
    let code_points: Vec<u32> = collect_code_points(input);
    let mut output: String = String::new();
    let basic_count: u64 = push_basic(&mut output, &code_points, Ghost(s));
    assert(output@ =~= literal_prefix(s));
    let total: usize = code_points.len();
    let pairs: Vec<(u32, usize)> = sorted_occurrences(&code_points, Ghost(s));
    let ghost mut e: Encoder = initial_encoder(s);
    proof {
        assert(splits_at(pairs@, 0, INITIAL_N as int));
        lemma_first_pair_is_next(pairs@, s, 0, INITIAL_N as int);
        lemma_count_split(s, 0, len, len, INITIAL_N as int);
    }
    if pairs.is_empty() {
        return output;
    }
    let mut placed: FenwickTree<u64> = basic_indicators(&code_points, Ghost(s));
    let mut n: u64 = INITIAL_N;
    let mut delta: u64 = 0;
    let mut bias: u64 = INITIAL_BIAS;
    let mut handled: u64 = basic_count;
    let mut i: usize = 0;
    while i < pairs.len()
        invariant
            s == input@,
            len == s.len(),
            len == total,
            basic == basic_count,
            are_sorted_occurrences(pairs@, s),
            splits_at(pairs@, i as int, n as int),
            INITIAL_N <= n <= 0x110000,
            are_indicators(fenwick_values(placed), s, n as int),
            handled == count_below(s, 0, len, n as int),
            e.delta == delta,
            e.bias == bias,
            e.handled == handled,
            e.output == output@,
            encode_from(s, n as int, basic, e) == final_encoder(s),
            largest_delta(s) <= u64::MAX,
        decreases pairs.len() - i,
    {
        let m: u64 = pairs[i].0 as u64;
        proof {
            lemma_first_pair_is_next(pairs@, s, i as int, n as int);
            lemma_next_value(s, n as int);
        }
        let ghost entered = advance(e, n as int, m as int);
        let ghost end = pass(s, 0, m as int, basic, entered);
        proof {
            lemma_pass_largest(s, 0, m as int, basic, entered);
            lemma_encode_largest(s, m + 1, basic, after_pass(end));
            assert(0 <= (m - n) * (handled + 1)) by (nonlinear_arith)
                requires
                    m >= n,
            ;
            lemma_count_gap(s, 0, len, n as int, m as int);
            lemma_count_split(s, 0, len, len, m as int);
            lemma_count_split(s, 0, len, len, m + 1);
            lemma_count_successor(s, 0, len, m as int);
            lemma_count_equal(s, 0, len, m as int, pairs@[i as int].1 as int);
            assert(is_occurrence(s, pairs@[i as int]));
            lemma_pass_handled(s, 0, m as int, basic, entered);
            assert forall|j: int| 0 <= j < s.len() implies #[trigger] fenwick_values(placed)[j]
                == indicator(s[j] as int, m as int) by {}
            lemma_indicator_sum(fenwick_values(placed), s, len, m as int);
        }
        delta = delta + (m - n) * (handled + 1);
        n = m;
        let placed_below_m: u64 = handled;
        let group_start: usize = i;
        let mut prev_c: u64 = 0;
        let ghost mut pos: int = 0;
        proof {
            e = entered;
        }
        while i < pairs.len() && pairs[i].0 as u64 == m
            invariant
                s == input@,
                len == s.len(),
                len == total,
                basic == basic_count,
                are_sorted_occurrences(pairs@, s),
                group_start <= i <= pairs.len(),
                splits_at(pairs@, group_start as int, m as int),
                forall|a: int| group_start <= a < i ==> (#[trigger] pairs@[a]).0 == m,
                INITIAL_N <= m < 0x110000,
                are_indicators(fenwick_values(placed), s, m as int),
                0 <= pos <= len,
                i == group_start ==> pos == 0,
                i > group_start ==> pos == pairs@[i - 1].1 + 1 && delta == 0,
                group_start < pairs.len(),
                pairs@[group_start as int].0 == m,
                prev_c == count_below(s, 0, pos, m as int),
                placed_below_m == count_below(s, 0, len, m as int),
                e.delta == delta,
                e.bias == bias,
                e.handled == handled,
                handled == placed_below_m + (i - group_start),
                e.output == output@,
                pass(s, pos, m as int, basic, e) == end,
                end.largest <= u64::MAX,
                end.handled <= len,
            decreases pairs.len() - i,
        {
            let p: usize = pairs[i].1;
            proof {
                assert(is_occurrence(s, pairs@[i as int]));
                assert(pos <= p);
                lemma_gap_in_group(pairs@, s, i as int, m as int, pos, p as int);
                lemma_pass_skip(s, pos, p as int, m as int, basic, e);
                lemma_count_split(s, 0, pos, p as int, m as int);
                lemma_count_split(s, pos, p as int, p as int, m as int);
                lemma_count_split(s, 0, p as int, len, m as int);
                lemma_indicator_sum(fenwick_values(placed), s, p as int, m as int);
            }
            let c_p: u64 = fenwick_prefix_sum(&placed, p, 0);
            proof {
                e = Encoder { delta: e.delta + count_below(s, pos, p as int, m as int), ..e };
                lemma_pass_largest(s, p as int, m as int, basic, e);
                lemma_pass_handled(s, p as int, m as int, basic, e);
                lemma_count_equal(s, p as int, len, m as int, p as int);
            }
            delta = delta + (c_p - prev_c);
            push_delta(&mut output, delta, bias);
            bias = adapt(delta, handled + 1, handled == basic_count);
            proof {
                e = visit(e, s[p as int] as int, m as int, basic);
                lemma_count_split(s, 0, p as int, p + 1, m as int);
                assert(count_below(s, p + 1, p + 1, m as int) == 0);
                pos = p + 1;
            }
            delta = 0;
            prev_c = c_p;
            handled = handled + 1;
            i = i + 1;
        }
        proof {
            lemma_gap_in_group(pairs@, s, i as int, m as int, pos, len);
            lemma_pass_skip(s, pos, len, m as int, basic, e);
            lemma_count_split(s, 0, pos, len, m as int);
            lemma_count_split(s, pos, len, len, m as int);
            e = after_pass(end);
        }
        delta = (placed_below_m - prev_c) + 1;
        n = n + 1;
        place_group(&mut placed, &pairs, group_start, i, Ghost(s), Ghost(m as int));
    }
    proof {
        lemma_first_pair_is_next(pairs@, s, i as int, n as int);
    }
    output
}

/// Counts the characters of one group of equal values as placed.
fn place_group(
    placed: &mut FenwickTree<u64>,
    pairs: &Vec<(u32, usize)>,
    group_start: usize,
    group_end: usize,
    Ghost(s): Ghost<Seq<char>>,
    Ghost(m): Ghost<int>,
)
    requires
        are_sorted_occurrences(pairs@, s),
        s.len() <= usize::MAX,
        m >= INITIAL_N,
        group_start <= group_end <= pairs@.len(),
        forall|a: int| 0 <= a < group_start ==> (#[trigger] pairs@[a]).0 < m,
        forall|a: int| group_start <= a < group_end ==> (#[trigger] pairs@[a]).0 == m,
        forall|a: int| group_end <= a < pairs@.len() ==> (#[trigger] pairs@[a]).0 > m,
        are_indicators(fenwick_values(*old(placed)), s, m),
    ensures
        are_indicators(fenwick_values(*final(placed)), s, m + 1),
{
    let mut g: usize = group_start;
    while g < group_end
        invariant
            are_sorted_occurrences(pairs@, s),
            s.len() <= usize::MAX,
            group_start <= g <= group_end <= pairs@.len(),
            forall|a: int| group_start <= a < group_end ==> (#[trigger] pairs@[a]).0 == m,
            fenwick_values(*placed).len() == s.len(),
            forall|j: int|
                0 <= j < s.len() && s[j] as int != m ==> #[trigger] fenwick_values(*placed)[j]
                    == indicator(s[j] as int, m),
            forall|j: int|
                0 <= j < s.len() && s[j] as int == m ==> #[trigger] fenwick_values(*placed)[j]
                    == (if group_position(pairs@, group_start as int, g as int, j) {
                    1u64
                } else {
                    0
                }),
        decreases group_end - g,
    {
        let p: usize = pairs[g].1;
        proof {
            assert(is_occurrence(s, pairs@[g as int]));
            assert(!group_position(pairs@, group_start as int, g as int, p as int));
            let values = fenwick_values(*placed);
            lemma_sum_of_update(values, p as int, 1);
            lemma_sum_of_indicators(values.update(p as int, 1));
        }
        let ghost before = fenwick_values(*placed);
        fenwick_add_at(placed, p, 1);
        proof {
            assert forall|j: int| 0 <= j < s.len() && s[j] as int == m implies #[trigger] fenwick_values(
                *placed,
            )[j] == (if group_position(pairs@, group_start as int, g + 1, j) {
                1u64
            } else {
                0
            }) by {
                if j == p {
                    assert(pairs@[g as int].1 == j);
                } else {
                    assert(before[j] == fenwick_values(*placed)[j]);
                    assert(group_position(pairs@, group_start as int, g + 1, j) == group_position(
                        pairs@,
                        group_start as int,
                        g as int,
                        j,
                    ));
                }
            }
        }
        g = g + 1;
    }
    proof {
        assert forall|j: int| 0 <= j < s.len() implies #[trigger] fenwick_values(*placed)[j]
            == indicator(s[j] as int, m + 1) by {
            if s[j] as int == m {
                let p = j as usize;
                assert(s[p as int] as int >= INITIAL_N);
                let a = choose|a: int| 0 <= a < pairs@.len() && (#[trigger] pairs@[a]).1 == p;
                assert(is_occurrence(s, pairs@[a]));
                assert(group_position(pairs@, group_start as int, g as int, j));
            }
        }
    }
}

/// Whether one of the pairs from `start` to `end` is at position `j`.
spec fn group_position(pairs: Seq<(u32, usize)>, start: int, end: int, j: int) -> bool {
    exists|a: int| start <= a < end && (#[trigger] pairs[a]).1 == j
}

} // verus!

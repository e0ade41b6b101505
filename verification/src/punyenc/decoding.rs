//! Punycode read back, as RFC 3492, section 6.2, defines it, and what the encoding
//! promises to a reader.

use super::bootstring::{
    adapted_bias, bias_after, bias_is_determined, bias_is_that_of_the_rfc, delta_digits, digit_char,
    digit_rest, is_division_count, lemma_digit_rest, scaled_delta, threshold, BASE, INITIAL_BIAS,
    INITIAL_N,
};
use super::counting::lemma_basic_step;
use super::textbook::{
    advance, after_pass, basic_chars, encode_from, has_value_from, initial_encoder, is_next_value,
    lemma_next_value, literal_prefix, next_value, pass, punycode, visit, Encoder,
};
use vstd::prelude::*;

verus! {

/// The value of a digit: 0 to 25 for letters, 26 to 35 for `0` to `9`.
pub open spec fn digit_value(c: char) -> Option<int> {
    if 'a' <= c <= 'z' {
        Some(c as int - 'a' as int)
    } else if 'A' <= c <= 'Z' {
        Some(c as int - 'A' as int)
    } else if '0' <= c <= '9' {
        Some(c as int - '0' as int + 26)
    } else {
        None
    }
}

/// A number brought into the range from 1 to 26.
pub open spec fn clamped(distance: int) -> int {
    if distance < 1 {
        1
    } else if distance > 26 {
        26
    } else {
        distance
    }
}

/// The bias after a delta: it comes from the one number of divisions that fits.
pub open spec fn next_bias(delta: int, num_points: int, first_time: bool) -> int {
    let d = scaled_delta(delta, num_points, first_time);
    bias_after(d, choose|k: nat| is_division_count(d, k))
}

proof fn lemma_next_bias(delta: int, num_points: int, first_time: bool)
    requires
        0 <= delta,
        0 < num_points,
    ensures
        next_bias(delta, num_points, first_time) == adapted_bias(delta, num_points, first_time),
{
    let d = scaled_delta(delta, num_points, first_time);
    bias_is_that_of_the_rfc(delta, num_points, first_time);
    let k = choose|k: nat|
        is_division_count(d, k) && adapted_bias(delta, num_points, first_time)
            == #[trigger] bias_after(d, k);
    bias_is_determined(d, k, choose|k: nat| is_division_count(d, k));
}

/// The integer at the beginning of `p` from digit position `k` on, and what follows it.
pub open spec fn decode_delta(p: Seq<char>, k: int, bias: int) -> Option<(int, Seq<char>)>
    decreases p.len(),
{
    if p.len() == 0 {
        None
    } else {
        let t = clamped(k - bias);
        match digit_value(p[0]) {
            None => None,
            Some(digit) => if digit < t {
                Some((digit, p.skip(1)))
            } else {
                match decode_delta(p.skip(1), k + 36, bias) {
                    None => None,
                    Some((rest, left)) => Some((digit + (36 - t) * rest, left)),
                }
            },
        }
    }
}

/// State of the decoding procedure.
pub ghost struct Decoder {
    /// The value that is inserted.
    pub n: int,
    /// The place at which it is inserted.
    pub i: int,
    /// Current bias.
    pub bias: int,
    /// Text produced so far.
    pub output: Seq<char>,
}

/// The state after the insertion that follows `delta` states on. The first one is that at
/// place zero, since every insertion leaves its place behind.
pub open spec fn insertion(d: Decoder, delta: int) -> Decoder {
    let len = d.output.len() as int + 1;
    let n = d.n + (d.i + delta) / len;
    let i = (d.i + delta) % len;
    Decoder {
        n,
        i: i + 1,
        bias: next_bias(delta, len, d.i == 0),
        output: d.output.insert(i, n as char),
    }
}

/// The text that the insertions in `p` make.
pub open spec fn decode_from(p: Seq<char>, d: Decoder) -> Option<Seq<char>>
    decreases p.len(),
{
    if p.len() == 0 {
        Some(d.output)
    } else {
        match decode_delta(p, 36, d.bias) {
            Some((delta, left)) => if left.len() < p.len() {
                decode_from(left, insertion(d, delta))
            } else {
                None
            },
            None => None,
        }
    }
}

/// How many characters are before the last delimiter.
pub open spec fn delimiter(p: Seq<char>) -> int
    decreases p.len(),
{
    if p.len() == 0 {
        0
    } else if p.last() == '-' {
        p.len() - 1
    } else {
        delimiter(p.drop_last())
    }
}

/// The text that a Punycode stands for.
pub open spec fn decode(p: Seq<char>) -> Option<Seq<char>> {
    let b = delimiter(p);
    decode_from(
        if b > 0 {
            p.skip(b + 1)
        } else {
            p
        },
        Decoder { n: 128, i: 0, bias: 72, output: p.take(b) },
    )
}

/// Whether a character is a digit of the encoding.
pub open spec fn is_digit(c: char) -> bool {
    'a' <= c <= 'z' || '0' <= c <= '9'
}

/// A character is determined by its value.
proof fn lemma_char_value(c: char)
    ensures
        (c as int) as char == c,
{
}

proof fn lemma_digit_char(d: int)
    requires
        0 <= d < BASE,
    ensures
        digit_value(digit_char(d)) == Some(d),
        is_digit(digit_char(d)),
{
}

/// The digits of an integer are read back as the integer, whatever follows them. They are
/// lower-case letters and digits.
pub proof fn digits_are_read_back(q: int, k: int, bias: int, left: Seq<char>)
    requires
        0 <= q,
    ensures
        decode_delta(delta_digits(q, k, bias) + left, k, bias) == Some((q, left)),
        delta_digits(q, k, bias).len() > 0,
        forall|i: int|
            0 <= i < delta_digits(q, k, bias).len() ==> is_digit(
                #[trigger] delta_digits(q, k, bias)[i],
            ),
    decreases q,
{
    let t = threshold(k, bias);
    let p = delta_digits(q, k, bias) + left;
    if q < t {
        lemma_digit_char(q);
        assert(p.skip(1) =~= left);
    } else {
        lemma_digit_rest(q, t);
        let digit = t + (q - t) % (BASE - t);
        let rest = digit_rest(q, t);
        lemma_digit_char(digit);
        digits_are_read_back(rest, k + BASE, bias, left);
        assert(p.skip(1) =~= delta_digits(rest, k + BASE, bias) + left);
        assert(digit + (BASE - t) * rest == q) by {
            assert((BASE - t) * rest == rest * (BASE - t)) by (nonlinear_arith);
        }
    }
}

/// Whether the character at place `j` is handled when the pass for `m` has come to
/// place `i`.
spec fn is_placed(s: Seq<char>, m: int, i: int, j: int) -> bool {
    (s[j] as int) < m || s[j] as int == m && j < i
}

/// The characters before place `j` that are handled when the pass for `m` has come to
/// place `i`.
spec fn placed(s: Seq<char>, m: int, i: int, j: int) -> Seq<char>
    decreases j,
{
    if j <= 0 {
        Seq::empty()
    } else if is_placed(s, m, i, j - 1) {
        placed(s, m, i, j - 1).push(s[j - 1])
    } else {
        placed(s, m, i, j - 1)
    }
}

/// A character that is not `m` makes no difference to the pass for `m`.
proof fn lemma_placed_skip(s: Seq<char>, m: int, i: int, j: int)
    requires
        0 <= i < s.len(),
        0 <= j <= s.len(),
        s[i] as int != m || j <= i,
    ensures
        placed(s, m, i + 1, j) == placed(s, m, i, j),
    decreases j,
{
    if j > 0 {
        lemma_placed_skip(s, m, i, j - 1);
    }
}

/// A character that is `m` is put in at its place.
proof fn lemma_placed_insert(s: Seq<char>, m: int, i: int, j: int)
    requires
        0 <= i < j <= s.len(),
        s[i] as int == m,
    ensures
        placed(s, m, i, i).len() <= placed(s, m, i, j).len(),
        placed(s, m, i + 1, j) == placed(s, m, i, j).insert(
            placed(s, m, i, i).len() as int,
            s[i],
        ),
    decreases j,
{
    let at = placed(s, m, i, i).len() as int;
    if j == i + 1 {
        lemma_placed_skip(s, m, i, i);
        assert(placed(s, m, i, j) == placed(s, m, i, i));
        assert(placed(s, m, i, i).insert(at, s[i]) =~= placed(s, m, i, i).push(s[i]));
    } else {
        lemma_placed_insert(s, m, i, j - 1);
        let before = placed(s, m, i, j - 1);
        assert(before.push(s[j - 1]).insert(at, s[i]) =~= before.insert(at, s[i]).push(s[j - 1]));
    }
}

/// The end of the pass for one value is the beginning of the pass for the next.
proof fn lemma_placed_next(s: Seq<char>, m: int, next: int, j: int)
    requires
        0 <= j <= s.len(),
        is_next_value(s, m + 1, next),
    ensures
        placed(s, next, 0, j) == placed(s, m, s.len() as int, j),
    decreases j,
{
    if j > 0 {
        lemma_placed_next(s, m, next, j - 1);
    }
}

/// After the pass for the largest value, the text is there.
proof fn lemma_placed_all(s: Seq<char>, m: int, j: int)
    requires
        0 <= j <= s.len(),
        !has_value_from(s, m + 1),
    ensures
        placed(s, m, s.len() as int, j) == s.take(j),
    decreases j,
{
    if j > 0 {
        lemma_placed_all(s, m, j - 1);
        assert(s.take(j - 1).push(s[j - 1]) =~= s.take(j));
    } else {
        assert(s.take(0) =~= Seq::<char>::empty());
    }
}

/// Before the pass for the first value, the basic characters are there.
proof fn lemma_placed_basic(s: Seq<char>, m: int, j: int)
    requires
        0 <= j <= s.len(),
        is_next_value(s, INITIAL_N as int, m),
    ensures
        placed(s, m, 0, j) == basic_chars(s.take(j)),
    decreases j,
{
    if j > 0 {
        lemma_placed_basic(s, m, j - 1);
        lemma_basic_step(s, j - 1);
    } else {
        reveal(Seq::filter);
    }
}

/// Whether a decoder that has read what the encoder has written is where the encoder is,
/// in the pass for `m` at place `i`.
spec fn in_step(s: Seq<char>, i: int, m: int, basic: int, e: Encoder, d: Decoder) -> bool {
    &&& 0 <= d.i
    &&& basic <= e.handled
    &&& d.i == 0 <==> e.handled == basic
    &&& 0 <= i <= s.len()
    &&& d.output == placed(s, m, i, s.len() as int)
    &&& e.handled == d.output.len()
    &&& e.bias == d.bias
    &&& d.n <= m
    &&& 0 <= e.delta
    &&& e.delta == (m - d.n) * (e.handled + 1) + placed(s, m, i, i).len() - d.i
}

/// The output of the encoding from the middle of a pass on.
spec fn output_from(s: Seq<char>, i: int, m: int, basic: int, e: Encoder) -> Seq<char> {
    encode_from(s, m + 1, basic, after_pass(pass(s, i, m, basic, e))).output
}

/// The insertion that the decoder makes for the character `m` at place `i`.
proof fn lemma_insertion(s: Seq<char>, i: int, m: int, basic: int, e: Encoder, d: Decoder)
    requires
        in_step(s, i, m, basic, e, d),
        0 <= i < s.len(),
        s[i] as int == m,
    ensures
        in_step(s, i + 1, m, basic, visit(e, m, m, basic), insertion(d, e.delta)),
{
    let len = d.output.len() as int + 1;
    let at = placed(s, m, i, i).len() as int;
    lemma_next_bias(e.delta, len, d.i == 0);
    lemma_placed_insert(s, m, i, s.len() as int);
    assert(d.i + e.delta == (m - d.n) * len + at);
    vstd::arithmetic::div_mod::lemma_fundamental_div_mod_converse(
        d.i + e.delta,
        len,
        m - d.n,
        at,
    );
    lemma_char_value(s[i]);
    lemma_placed_skip(s, m, i, i);
    assert(placed(s, m, i + 1, i + 1) == placed(s, m, i, i).push(s[i]));
    assert((m - m) * (e.handled + 2) == 0);
}

/// What the encoder writes from here on, the decoder reads back to the whole text.
proof fn lemma_in_step(s: Seq<char>, i: int, m: int, basic: int, e: Encoder, d: Decoder)
    requires
        in_step(s, i, m, basic, e, d),
        0 <= m < 0x110000,
    ensures
        e.output.is_prefix_of(output_from(s, i, m, basic, e)),
        decode_from(output_from(s, i, m, basic, e).skip(e.output.len() as int), d) == Some(s),
        forall|k: int|
            e.output.len() <= k < output_from(s, i, m, basic, e).len() ==> is_digit(
                #[trigger] output_from(s, i, m, basic, e)[k],
            ),
    decreases 0x110000 - m, s.len() - i,
{
    let out = output_from(s, i, m, basic, e);
    if i == s.len() {
        if has_value_from(s, m + 1) {
            lemma_next_value(s, m + 1);
            let next = next_value(s, m + 1);
            let e2 = advance(after_pass(e), m + 1, next);
            lemma_placed_next(s, m, next, s.len() as int);
            assert(placed(s, next, 0, 0).len() == 0);
            assert(e2.delta == (next - d.n) * (e2.handled + 1) - d.i) by (nonlinear_arith)
                requires
                    e2.delta == e.delta + 1 + (next - (m + 1)) * (e.handled + 1),
                    e2.handled == e.handled,
                    e.delta == (m - d.n) * (e.handled + 1) + e.handled - d.i,
            ;
            assert(0 <= (next - (m + 1)) * (e.handled + 1)) by (nonlinear_arith)
                requires
                    next >= m + 1,
                    e.handled >= 0,
            ;
            lemma_in_step(s, 0, next, basic, e2, d);
            assert(out == output_from(s, 0, next, basic, e2));
        } else {
            lemma_placed_all(s, m, s.len() as int);
            assert(s.take(s.len() as int) =~= s);
            assert(out == e.output);
            assert(out.skip(e.output.len() as int) =~= Seq::<char>::empty());
        }
    } else {
        let c = s[i] as int;
        let e2 = visit(e, c, m, basic);
        assert(out == output_from(s, i + 1, m, basic, e2));
        if c == m {
            let d2 = insertion(d, e.delta);
            lemma_insertion(s, i, m, basic, e, d);
            lemma_in_step(s, i + 1, m, basic, e2, d2);
            let digits = delta_digits(e.delta, BASE as int, e.bias);
            let left = out.skip(e2.output.len() as int);
            digits_are_read_back(e.delta, BASE as int, e.bias, left);
            assert forall|k: int| 0 <= k < e2.output.len() implies out[k] == e2.output[k] by {
                assert(out.subrange(0, e2.output.len() as int)[k] == e2.output[k]);
            }
            assert(out.skip(e.output.len() as int) =~= digits + left);
            assert forall|k: int| e.output.len() <= k < out.len() implies is_digit(
                #[trigger] out[k],
            ) by {
                if k < e2.output.len() {
                    assert(out[k] == e2.output[k]);
                    assert(digits[k - e.output.len()] == out[k]);
                }
            }
            assert forall|k: int| 0 <= k < e.output.len() implies out[k] == e.output[k] by {
                assert(out[k] == e2.output[k]);
            }
        } else {
            lemma_placed_skip(s, m, i, s.len() as int);
            lemma_placed_skip(s, m, i, i);
            lemma_in_step(s, i + 1, m, basic, e2, d);
        }
    }
}

/// The decoder before the first insertion into the basic characters.
spec fn initial_decoder(s: Seq<char>) -> Decoder {
    Decoder { n: INITIAL_N as int, i: 0, bias: INITIAL_BIAS as int, output: basic_chars(s) }
}

/// What follows the basic characters and their delimiter is read back to the text.
proof fn lemma_tail(s: Seq<char>)
    ensures
        literal_prefix(s).is_prefix_of(punycode(s)),
        forall|k: int|
            literal_prefix(s).len() <= k < punycode(s).len() ==> is_digit(
                #[trigger] punycode(s)[k],
            ),
        decode_from(
            punycode(s).skip(literal_prefix(s).len() as int),
            initial_decoder(s),
        ) == Some(s),
{
    let e = initial_encoder(s);
    let d = initial_decoder(s);
    let n = INITIAL_N as int;
    let basic = basic_chars(s).len() as int;
    assert(s.take(s.len() as int) =~= s);
    if has_value_from(s, n) {
        lemma_next_value(s, n);
        let m = next_value(s, n);
        lemma_placed_basic(s, m, s.len() as int);
        assert(0 <= (m - n) * (e.handled + 1)) by (nonlinear_arith)
            requires
                m >= n,
                e.handled >= 0,
        ;
        lemma_in_step(s, 0, m, basic, advance(e, n, m), d);
    } else {
        lemma_all_basic(s, s.len() as int);
        assert(punycode(s) == literal_prefix(s));
        assert(punycode(s).skip(literal_prefix(s).len() as int) =~= Seq::<char>::empty());
    }
}

proof fn lemma_all_basic(s: Seq<char>, j: int)
    requires
        0 <= j <= s.len(),
        !has_value_from(s, INITIAL_N as int),
    ensures
        basic_chars(s.take(j)) == s.take(j),
    decreases j,
{
    if j > 0 {
        lemma_all_basic(s, j - 1);
        lemma_basic_step(s, j - 1);
        assert(s.take(j - 1).push(s[j - 1]) =~= s.take(j));
    } else {
        reveal(Seq::filter);
        assert(s.take(0) =~= Seq::<char>::empty());
    }
}

/// The basic characters are basic.
proof fn lemma_basic_chars(s: Seq<char>, j: int)
    requires
        0 <= j <= s.len(),
    ensures
        forall|k: int|
            0 <= k < basic_chars(s.take(j)).len() ==> (#[trigger] basic_chars(s.take(j))[k] as int)
                < INITIAL_N,
    decreases j,
{
    if j > 0 {
        lemma_basic_chars(s, j - 1);
        lemma_basic_step(s, j - 1);
    } else {
        reveal(Seq::filter);
    }
}

/// The last delimiter is where nothing behind it is one.
proof fn lemma_delimiter(p: Seq<char>, b: int)
    requires
        0 <= b < p.len(),
        p[b] == '-',
        forall|k: int| b < k < p.len() ==> p[k] != '-',
    ensures
        delimiter(p) == b,
    decreases p.len(),
{
    if b < p.len() - 1 {
        lemma_delimiter(p.drop_last(), b);
    }
}

proof fn lemma_no_delimiter(p: Seq<char>)
    requires
        forall|k: int| 0 <= k < p.len() ==> p[k] != '-',
    ensures
        delimiter(p) == 0,
    decreases p.len(),
{
    if p.len() > 0 {
        lemma_no_delimiter(p.drop_last());
    }
}

/// The encoding begins with the basic characters of the text in their order, and with a
/// delimiter if there are any. Only lower-case letters and digits follow.
pub proof fn basic_characters_are_kept(s: Seq<char>)
    ensures
        literal_prefix(s).is_prefix_of(punycode(s)),
        forall|k: int|
            literal_prefix(s).len() <= k < punycode(s).len() ==> is_digit(
                #[trigger] punycode(s)[k],
            ),
{
    lemma_tail(s);
}

/// The encoding of a text of basic characters is the text and a delimiter, and that of
/// the empty text is empty.
pub proof fn basic_text_is_kept(s: Seq<char>)
    requires
        forall|i: int| 0 <= i < s.len() ==> (#[trigger] s[i] as int) < 128,
    ensures
        punycode(s) == (if s.len() > 0 {
            s.push('-')
        } else {
            s
        }),
{
    lemma_all_basic(s, s.len() as int);
    assert(s.take(s.len() as int) =~= s);
}

/// The encoding has only basic characters.
pub proof fn encoding_is_basic(s: Seq<char>, k: int)
    requires
        0 <= k < punycode(s).len(),
    ensures
        (punycode(s)[k] as int) < 128,
{
    lemma_tail(s);
    lemma_basic_chars(s, s.len() as int);
    assert(s.take(s.len() as int) =~= s);
    if k < literal_prefix(s).len() {
        assert(punycode(s).subrange(0, literal_prefix(s).len() as int)[k] == literal_prefix(s)[k]);
        if k < basic_chars(s).len() {
            assert(literal_prefix(s)[k] == basic_chars(s)[k]);
        }
    }
}

/// Decoding gives back every text that was encoded.
pub proof fn decoding_undoes_encoding(s: Seq<char>)
    ensures
        decode(punycode(s)) == Some(s),
{
    lemma_tail(s);
    let p = punycode(s);
    let prefix = literal_prefix(s);
    let b = basic_chars(s).len() as int;
    assert forall|k: int| 0 <= k < prefix.len() implies p[k] == prefix[k] by {
        assert(p.subrange(0, prefix.len() as int)[k] == prefix[k]);
    }
    if b > 0 {
        assert(p[b] == prefix[b]);
        lemma_delimiter(p, b);
        assert(p.take(b) =~= basic_chars(s));
    } else {
        lemma_no_delimiter(p);
        assert(p.take(0) =~= basic_chars(s));
        assert(p.skip(0) =~= p);
    }
}

/// Different texts have different encodings.
pub proof fn encoding_is_injective(a: Seq<char>, b: Seq<char>)
    requires
        punycode(a) == punycode(b),
    ensures
        a == b,
{
    decoding_undoes_encoding(a);
    decoding_undoes_encoding(b);
}

} // verus!

//! Fixed-width base-32 codec.
//!
//! A buffer of `w` bytes is read as one big-endian unsigned integer and written
//! as exactly `encoded_len(w)` digits, most significant first, over the
//! lowercase alphabet `0123456789abcdefghjkmnpqrstvwxyz`. Leading zero digits
//! are kept, so every text for a width has the same length and texts sort as
//! the values they encode.
use vstd::arithmetic::power::*;
use vstd::prelude::*;

verus! {

/// The ways in which a base-32 text can fail to decode.
#[derive(Clone, Copy, Debug, PartialEq, Eq, Hash, Structural)]
pub enum Base32Error {
    /// A character outside the alphabet.
    InvalidByte,
    /// The first digit carries a value that does not fit in the target width.
    InvalidFirstByte,
}

/// Number of digits used for a value of `w` bytes: `ceil(8 * w / 5)`.
pub open spec fn encoded_len(w: nat) -> nat {
    (w * 8 + 4) / 5
}

/// The alphabet character of digit `d` (for `d < 32`), as an ASCII code:
/// `0`-`9` are 48-57, `a`-`h` 97-104, `j`-`k` 106-107, `m`-`n` 109-110,
/// `p`-`t` 112-116 and `v`-`z` 118-122.
pub open spec fn digit_char(d: nat) -> u8 {
    if d < 10 {
        (48 + d) as u8
    } else if d < 18 {
        (97 + (d - 10)) as u8
    } else if d < 20 {
        (106 + (d - 18)) as u8
    } else if d < 22 {
        (109 + (d - 20)) as u8
    } else if d < 27 {
        (112 + (d - 22)) as u8
    } else {
        (118 + (d - 27)) as u8
    }
}

/// Whether `c` belongs to the alphabet.
pub open spec fn is_digit_char(c: u8) -> bool {
    ||| 48 <= c <= 57
    ||| 97 <= c <= 104
    ||| 106 <= c <= 107
    ||| 109 <= c <= 110
    ||| 112 <= c <= 116
    ||| 118 <= c <= 122
}

/// The digit that the alphabet character `c` stands for.
pub open spec fn digit_value(c: u8) -> nat {
    if c <= 57 {
        (c - 48) as nat
    } else if c <= 104 {
        (c - 97 + 10) as nat
    } else if c <= 107 {
        (c - 106 + 18) as nat
    } else if c <= 110 {
        (c - 109 + 20) as nat
    } else if c <= 116 {
        (c - 112 + 22) as nat
    } else {
        (c - 118 + 27) as nat
    }
}

pub open spec fn all_digit_chars(s: Seq<u8>) -> bool {
    forall|i: int| 0 <= i < s.len() ==> is_digit_char(#[trigger] s[i])
}

/// The big-endian value of a byte sequence.
pub open spec fn be_value(b: Seq<u8>) -> nat
    decreases b.len(),
{
    if b.len() == 0 {
        0
    } else {
        be_value(b.drop_last()) * 256 + b.last() as nat
    }
}

/// The low `n` bytes of `v`, big-endian.
pub open spec fn be_bytes(v: nat, n: nat) -> Seq<u8>
    decreases n,
{
    if n == 0 {
        seq![]
    } else {
        be_bytes(v / 256, (n - 1) as nat).push((v % 256) as u8)
    }
}

/// The low `n` base-32 digits of `v` as alphabet characters, most significant first.
pub open spec fn digits_text(v: nat, n: nat) -> Seq<u8>
    decreases n,
{
    if n == 0 {
        seq![]
    } else {
        digits_text(v / 32, (n - 1) as nat).push(digit_char(v % 32))
    }
}

/// The value of a text of alphabet characters, most significant digit first.
pub open spec fn text_value(s: Seq<u8>) -> nat
    decreases s.len(),
{
    if s.len() == 0 {
        0
    } else {
        text_value(s.drop_last()) * 32 + digit_value(s.last())
    }
}

/// Bits of the first digit that fall inside a `w`-byte value.
pub open spec fn first_bits(w: nat) -> nat {
    (8 * w - 5 * (encoded_len(w) - 1)) as nat
}

/// The first digit of a `w`-byte text must stay below this bound.
pub open spec fn first_limit(w: nat) -> nat {
    pow(2, first_bits(w)) as nat
}

/// The text that encodes a byte buffer.
pub open spec fn encode_spec(b: Seq<u8>) -> Seq<u8> {
    digits_text(be_value(b), encoded_len(b.len()))
}

/// The outcome of decoding `s` into `w` bytes. The first character is judged
/// before the rest: outside the alphabet, then too large; after that any other
/// character outside the alphabet.
pub open spec fn decode_spec(s: Seq<u8>, w: nat) -> Result<Seq<u8>, Base32Error> {
    if s.len() == 0 || !is_digit_char(s[0]) {
        Err(Base32Error::InvalidByte)
    } else if digit_value(s[0]) >= first_limit(w) {
        Err(Base32Error::InvalidFirstByte)
    } else if !all_digit_chars(s) {
        Err(Base32Error::InvalidByte)
    } else {
        Ok(be_bytes(text_value(s), w))
    }
}

/// Lexicographic order on byte sequences of equal length.
pub open spec fn lex_lt(a: Seq<u8>, b: Seq<u8>) -> bool {
    &&& a.len() == b.len()
    &&& exists|i: int|
        0 <= i < a.len() && a.subrange(0, i) == b.subrange(0, i) && #[trigger] a[i] < b[i]
}

pub proof fn lemma_digit_char(d: nat)
    requires
        d < 32,
    ensures
        is_digit_char(digit_char(d)),
        digit_value(digit_char(d)) == d,
{
}

pub proof fn lemma_digit_value(c: u8)
    requires
        is_digit_char(c),
    ensures
        digit_value(c) < 32,
        digit_char(digit_value(c)) == c,
{
}

pub proof fn lemma_digit_char_increasing(d1: nat, d2: nat)
    requires
        d1 < d2 < 32,
    ensures
        digit_char(d1) < digit_char(d2),
{
}

/// Maps an alphabet character to its digit.
fn digit_of(c: u8) -> (r: Option<u8>)
    ensures
        r is Some <==> is_digit_char(c),
        r is Some ==> r->Some_0 as nat == digit_value(c) && r->Some_0 < 32,
{
    if 48 <= c && c <= 57 {
        Some(c - 48)
    } else if 97 <= c && c <= 104 {
        Some(c - 97 + 10)
    } else if 106 <= c && c <= 107 {
        Some(c - 106 + 18)
    } else if 109 <= c && c <= 110 {
        Some(c - 109 + 20)
    } else if 112 <= c && c <= 116 {
        Some(c - 112 + 22)
    } else if 118 <= c && c <= 122 {
        Some(c - 118 + 27)
    } else {
        None
    }
}

/// Maps a digit to its alphabet character.
fn char_of(d: u8) -> (c: u8)
    requires
        d < 32,
    ensures
        c == digit_char(d as nat),
{
    if d < 10 {
        48 + d
    } else if d < 18 {
        97 + (d - 10)
    } else if d < 20 {
        106 + (d - 18)
    } else if d < 22 {
        109 + (d - 20)
    } else if d < 27 {
        112 + (d - 22)
    } else {
        118 + (d - 27)
    }
}

pub proof fn lemma_pow_256_16()
    ensures
        pow(256, 16) == 0x1_0000_0000_0000_0000_0000_0000_0000_0000,
{
    reveal_with_fuel(pow, 17);
}

pub proof fn lemma_be_value_bound(b: Seq<u8>)
    ensures
        be_value(b) < pow(256, b.len()),
    decreases b.len(),
{
    reveal(pow);
    if b.len() > 0 {
        let p = pow(256, (b.len() - 1) as nat);
        lemma_be_value_bound(b.drop_last());
        let v = be_value(b.drop_last());
        assert(v * 256 + b.last() < p * 256) by (nonlinear_arith)
            requires
                v < p,
                b.last() < 256,
        ;
    }
}

/// Pushes one byte onto a big-endian prefix.
proof fn lemma_be_value_push(b: Seq<u8>, i: int)
    requires
        0 <= i < b.len(),
    ensures
        be_value(b.subrange(0, i + 1)) == be_value(b.subrange(0, i)) * 256 + b[i] as nat,
{
    assert(b.subrange(0, i + 1).drop_last() == b.subrange(0, i));
}

/// The text of a value has `n` alphabet characters.
pub proof fn lemma_digits_text_shape(v: nat, n: nat)
    ensures
        digits_text(v, n).len() == n,
        all_digit_chars(digits_text(v, n)),
    decreases n,
{
    if n > 0 {
        lemma_digits_text_shape(v / 32, (n - 1) as nat);
        lemma_digit_char(v % 32);
        let s = digits_text(v, n);
        assert forall|i: int| 0 <= i < s.len() implies is_digit_char(#[trigger] s[i]) by {
            if i < n - 1 {
                assert(s[i] == digits_text(v / 32, (n - 1) as nat)[i]);
            }
        }
    }
}

pub proof fn lemma_be_bytes_len(v: nat, n: nat)
    ensures
        be_bytes(v, n).len() == n,
    decreases n,
{
    if n > 0 {
        lemma_be_bytes_len(v / 256, (n - 1) as nat);
    }
}

/// Shared bound: a `w`-byte value fits below `first_limit(w) * 32^(len - 1)`.
pub proof fn lemma_first_limit(w: nat)
    requires
        1 <= w,
    ensures
        encoded_len(w) >= 1,
        1 <= first_bits(w) <= 5,
        2 <= first_limit(w) <= 32,
        first_limit(w) * pow(32, (encoded_len(w) - 1) as nat) == pow(256, w),
        pow(256, w) <= pow(32, encoded_len(w)),
{
    let n = (encoded_len(w) - 1) as nat;
    let b = first_bits(w);
    assert(pow(2, 5) == 32 && pow(2, 8) == 256) by {
        reveal_with_fuel(pow, 9);
    }
    lemma_pow_multiplies(2, 5, n);
    lemma_pow_multiplies(2, 8, w);
    lemma_pow_multiplies(2, 5, n + 1);
    lemma_pow_adds(2, b, 5 * n);
    assert(b + 5 * n == 8 * w);
    lemma_pow_increases(2, 8 * w, 5 * (n + 1));
    lemma_pow_increases(2, 1, b);
    lemma_pow_increases(2, b, 5);
    reveal_with_fuel(pow, 2);
}

/// The value of a text, split at its first digit.
pub proof fn lemma_text_value_first(s: Seq<u8>)
    requires
        s.len() >= 1,
    ensures
        text_value(s) == digit_value(s[0]) * pow(32, (s.len() - 1) as nat) + text_value(
            s.drop_first(),
        ),
    decreases s.len(),
{
    reveal(pow);
    let n = (s.len() - 1) as nat;
    if s.len() == 1 {
        reveal_with_fuel(text_value, 2);
        assert(s.drop_last().len() == 0);
        assert(s.drop_first().len() == 0);
        assert(pow(32, 0) == 1);
    } else {
        let t = s.drop_last();
        lemma_text_value_first(t);
        assert(t.drop_first() == s.drop_first().drop_last());
        assert(s.drop_first().last() == s.last());
        let p = pow(32, (n - 1) as nat);
        assert(pow(32, n) == 32 * p);
        let d = digit_value(s[0]);
        let r = text_value(t.drop_first());
        assert((d * p + r) * 32 + digit_value(s.last()) == d * (32 * p) + (r * 32 + digit_value(
            s.last(),
        ))) by (nonlinear_arith);
    }
}

/// A text of `n` alphabet characters has a value below `32^n`.
pub proof fn lemma_text_value_bound(s: Seq<u8>)
    requires
        all_digit_chars(s),
    ensures
        text_value(s) < pow(32, s.len()),
    decreases s.len(),
{
    reveal(pow);
    if s.len() > 0 {
        let t = s.drop_last();
        assert(all_digit_chars(t)) by {
            assert forall|i: int| 0 <= i < t.len() implies is_digit_char(#[trigger] t[i]) by {
                assert(t[i] == s[i]);
            }
        }
        lemma_text_value_bound(t);
        assert(is_digit_char(s[s.len() - 1]));
        lemma_digit_value(s.last());
        let p = pow(32, t.len());
        let v = text_value(t);
        assert(v * 32 + digit_value(s.last()) < p * 32) by (nonlinear_arith)
            requires
                v < p,
                digit_value(s.last()) < 32,
        ;
    }
}

/// Reading back the text of a value gives the value.
pub proof fn lemma_text_value_digits(v: nat, n: nat)
    requires
        v < pow(32, n),
    ensures
        text_value(digits_text(v, n)) == v,
    decreases n,
{
    reveal(pow);
    if n == 0 {
        assert(pow(32, 0) == 1);
    } else {
        let p = pow(32, (n - 1) as nat);
        assert(pow(32, n) == 32 * p);
        assert(v / 32 < p) by (nonlinear_arith)
            requires
                v < 32 * p,
        ;
        lemma_text_value_digits(v / 32, (n - 1) as nat);
        lemma_digit_char(v % 32);
        let s = digits_text(v, n);
        assert(s.drop_last() == digits_text(v / 32, (n - 1) as nat));
    }
}

/// Reading back the bytes of a value gives the value.
pub proof fn lemma_be_value_bytes(v: nat, n: nat)
    requires
        v < pow(256, n),
    ensures
        be_value(be_bytes(v, n)) == v,
    decreases n,
{
    reveal(pow);
    if n == 0 {
        assert(pow(256, 0) == 1);
    } else {
        let p = pow(256, (n - 1) as nat);
        assert(pow(256, n) == 256 * p);
        assert(v / 256 < p) by (nonlinear_arith)
            requires
                v < 256 * p,
        ;
        lemma_be_value_bytes(v / 256, (n - 1) as nat);
        assert(be_bytes(v, n).drop_last() == be_bytes(v / 256, (n - 1) as nat));
    }
}

/// Writing out the value of a buffer gives the buffer.
pub proof fn lemma_be_bytes_value(b: Seq<u8>)
    ensures
        be_bytes(be_value(b), b.len()) == b,
    decreases b.len(),
{
    if b.len() > 0 {
        let t = b.drop_last();
        lemma_be_bytes_value(t);
        let v = be_value(t) * 256 + b.last() as nat;
        assert(v / 256 == be_value(t)) by (nonlinear_arith)
            requires
                v == be_value(t) * 256 + b.last() as nat,
                b.last() < 256,
        ;
        assert(v % 256 == b.last()) by (nonlinear_arith)
            requires
                v == be_value(t) * 256 + b.last() as nat,
                b.last() < 256,
        ;
        assert(be_bytes(v, b.len()) == t.push(b.last()));
        assert(t.push(b.last()) == b);
    }
}

/// Every encoding has exactly `encoded_len(w)` characters, all from the
/// alphabet, whatever the value.
pub proof fn lemma_encode_fixed_length(b: Seq<u8>)
    ensures
        encode_spec(b).len() == encoded_len(b.len()),
        all_digit_chars(encode_spec(b)),
{
    lemma_digits_text_shape(be_value(b), encoded_len(b.len()));
}

/// Decoding the encoding of a buffer gives the buffer back.
pub proof fn lemma_round_trip(b: Seq<u8>)
    requires
        1 <= b.len() <= 16,
    ensures
        decode_spec(encode_spec(b), b.len()) == Ok::<Seq<u8>, Base32Error>(b),
{
    let w = b.len();
    let n = encoded_len(w);
    let v = be_value(b);
    let s = encode_spec(b);
    lemma_first_limit(w);
    lemma_be_value_bound(b);
    lemma_encode_fixed_length(b);
    lemma_text_value_digits(v, n);
    lemma_text_value_first(s);
    lemma_text_value_bound(s.drop_first());
    assert(all_digit_chars(s.drop_first())) by {
        assert forall|i: int| 0 <= i < s.drop_first().len() implies is_digit_char(
            #[trigger] s.drop_first()[i],
        ) by {
            assert(s.drop_first()[i] == s[i + 1]);
        }
    }
    assert(is_digit_char(s[0]));
    let d = digit_value(s[0]);
    let p = pow(32, (n - 1) as nat);
    let limit = first_limit(w);
    assert(d < limit) by (nonlinear_arith)
        requires
            v == d * p + text_value(s.drop_first()),
            v < limit * p,
            0 <= text_value(s.drop_first()),
    ;
    lemma_be_bytes_value(b);
}

/// A text whose value does not fit in `w` bytes is rejected with
/// `InvalidFirstByte`, never cut down to `w` bytes.
pub proof fn lemma_overflow_rejected(s: Seq<u8>, w: nat)
    requires
        1 <= w <= 16,
        s.len() == encoded_len(w),
        all_digit_chars(s),
        text_value(s) >= pow(256, w),
    ensures
        decode_spec(s, w) == Err::<Seq<u8>, Base32Error>(Base32Error::InvalidFirstByte),
{
    let n = encoded_len(w);
    lemma_first_limit(w);
    lemma_text_value_first(s);
    assert(all_digit_chars(s.drop_first())) by {
        assert forall|i: int| 0 <= i < s.drop_first().len() implies is_digit_char(
            #[trigger] s.drop_first()[i],
        ) by {
            assert(s.drop_first()[i] == s[i + 1]);
        }
    }
    lemma_text_value_bound(s.drop_first());
    assert(is_digit_char(s[0]));
    let d = digit_value(s[0]);
    let p = pow(32, (n - 1) as nat);
    let limit = first_limit(w);
    assert(d >= limit) by (nonlinear_arith)
        requires
            text_value(s) == d * p + text_value(s.drop_first()),
            text_value(s.drop_first()) < p,
            text_value(s) >= limit * p,
    ;
}

proof fn lemma_digits_text_order(v1: nat, v2: nat, n: nat)
    requires
        v1 < v2 < pow(32, n),
    ensures
        lex_lt(digits_text(v1, n), digits_text(v2, n)),
    decreases n,
{
    reveal(pow);
    lemma_digits_text_shape(v1, n);
    lemma_digits_text_shape(v2, n);
    if n == 0 {
        assert(false);
    } else {
        let m = (n - 1) as nat;
        let p = pow(32, m);
        assert(pow(32, n) == 32 * p);
        let q1 = v1 / 32;
        let q2 = v2 / 32;
        assert(q1 <= q2 < p) by (nonlinear_arith)
            requires
                v1 < v2 < 32 * p,
                q1 == v1 / 32,
                q2 == v2 / 32,
        ;
        let t1 = digits_text(q1, m);
        let t2 = digits_text(q2, m);
        let s1 = digits_text(v1, n);
        let s2 = digits_text(v2, n);
        lemma_digits_text_shape(q1, m);
        lemma_digits_text_shape(q2, m);
        if q1 < q2 {
            lemma_digits_text_order(q1, q2, m);
            let i = choose|i: int|
                0 <= i < t1.len() && t1.subrange(0, i) == t2.subrange(0, i) && #[trigger] t1[i]
                    < t2[i];
            assert(s1.subrange(0, i) == t1.subrange(0, i));
            assert(s2.subrange(0, i) == t2.subrange(0, i));
            assert(s1[i] == t1[i] && s2[i] == t2[i]);
        } else {
            assert(v1 % 32 < v2 % 32) by (nonlinear_arith)
                requires
                    v1 < v2,
                    v1 / 32 == v2 / 32,
            ;
            lemma_digit_char_increasing(v1 % 32, v2 % 32);
            assert(s1.subrange(0, m as int) == t1);
            assert(s2.subrange(0, m as int) == t2);
            assert(s1[m as int] < s2[m as int]);
        }
    }
}

/// Encodings sort as the values they encode: a smaller buffer value gives a
/// text that is smaller byte by byte.
pub proof fn lemma_order_preserved(b1: Seq<u8>, b2: Seq<u8>)
    requires
        1 <= b1.len() <= 16,
        b1.len() == b2.len(),
        be_value(b1) < be_value(b2),
    ensures
        lex_lt(encode_spec(b1), encode_spec(b2)),
{
    let w = b1.len();
    lemma_first_limit(w);
    lemma_be_value_bound(b2);
    lemma_digits_text_order(be_value(b1), be_value(b2), encoded_len(w));
}

/// Reads a buffer of at most 16 bytes as a big-endian integer.
pub fn read_be(bytes: &[u8]) -> (v: u128)
    requires
        bytes@.len() <= 16,
    ensures
        v == be_value(bytes@),
{
    let mut v: u128 = 0;
    let mut i: usize = 0;
    while i < bytes.len()
        invariant
            i <= bytes@.len() <= 16,
            v == be_value(bytes@.subrange(0, i as int)),
        decreases bytes@.len() - i,
    {
        proof {
            lemma_be_value_push(bytes@, i as int);
            lemma_be_value_bound(bytes@.subrange(0, i as int + 1));
            lemma_pow_increases(256, (i + 1) as nat, 16);
            lemma_pow_256_16();
        }
        v = v * 256 + bytes[i] as u128;
        i = i + 1;
    }
    assert(bytes@.subrange(0, bytes@.len() as int) == bytes@);
    v
}

/// Writes the low `out.len()` bytes of `v` into `out`, big-endian.
pub fn write_be(v: u128, out: &mut [u8])
    ensures
        final(out)@ == be_bytes(v as nat, old(out)@.len()),
{
    let ghost w = out@.len();
    let mut acc = v;
    let mut k: usize = out.len();
    while k > 0
        invariant
            k <= out@.len(),
            out@.len() == w,
            be_bytes(v as nat, w) == be_bytes(acc as nat, k as nat) + out@.subrange(k as int, w as int),
        decreases k,
    {
        let ghost prev = out@;
        k = k - 1;
        out[k] = (acc % 256) as u8;
        proof {
            assert(out@.subrange(k as int, w as int) == seq![(acc as nat % 256) as u8]
                + prev.subrange(k + 1, w as int));
        }
        acc = acc / 256;
    }
    assert(out@.subrange(0, w as int) == out@);
}

/// Number of base-32 digits for a value of `w` bytes.
pub fn encoded_len_of(w: usize) -> (n: usize)
    requires
        w <= 16,
    ensures
        n == encoded_len(w as nat),
{
    (w * 8 + 4) / 5
}

/// Writes `bytes` as base-32 text into `out`.
pub fn encode(bytes: &[u8], out: &mut [u8])
    requires
        bytes@.len() <= 16,
        old(out)@.len() == encoded_len(bytes@.len()),
    ensures
        final(out)@ == encode_spec(bytes@),
{
    let mut v = read_be(bytes);
    let ghost total = v as nat;
    let ghost n = out@.len();
    let mut j: usize = out.len();
    while j > 0
        invariant
            j <= out@.len(),
            out@.len() == n,
            digits_text(total, n) == digits_text(v as nat, j as nat) + out@.subrange(
                j as int,
                n as int,
            ),
        decreases j,
    {
        let ghost prev = out@;
        j = j - 1;
        out[j] = char_of((v % 32) as u8);
        proof {
            assert(out@.subrange(j as int, n as int) == seq![digit_char(v as nat % 32)]
                + prev.subrange(j + 1, n as int));
        }
        v = v / 32;
    }
    assert(out@.subrange(0, n as int) == out@);
}

/// The bound `2^e` for a small exponent.
fn small_pow2(e: usize) -> (r: u8)
    requires
        e <= 5,
    ensures
        r == pow(2, e as nat),
{
    let mut r: u8 = 1;
    let mut k: usize = 0;
    proof {
        reveal(pow);
    }
    while k < e
        invariant
            k <= e <= 5,
            r == pow(2, k as nat),
        decreases e - k,
    {
        proof {
            reveal(pow);
            lemma_pow_increases(2, k as nat, 4);
            reveal_with_fuel(pow, 5);
        }
        r = r * 2;
        k = k + 1;
    }
    r
}

/// Reads base-32 text from `input` into `out`. On an error `out` is left as it was.
pub fn decode(input: &[u8], out: &mut [u8]) -> (r: Result<(), Base32Error>)
    requires
        1 <= old(out)@.len() <= 16,
        input@.len() == encoded_len(old(out)@.len()),
    ensures
        match decode_spec(input@, old(out)@.len() as nat) {
            Ok(b) => r is Ok && final(out)@ == b,
            Err(e) => r == Err::<(), Base32Error>(e) && final(out)@ == old(out)@,
        },
{
    let ghost w = out@.len();
    let ghost s = input@;
    proof {
        lemma_first_limit(w);
    }
    let first = match digit_of(input[0]) {
        Some(d) => d,
        None => return Err(Base32Error::InvalidByte),
    };
    let limit = small_pow2(8 * out.len() - 5 * (input.len() - 1));
    if first >= limit {
        return Err(Base32Error::InvalidFirstByte);
    }
    let mut acc: u128 = first as u128;
    let mut i: usize = 1;
    proof {
        reveal(pow);
        reveal_with_fuel(text_value, 2);
        assert(s.subrange(0, 1).drop_last().len() == 0);
        assert(pow(32, 0) == 1);
    }
    while i < input.len()
        invariant
            1 <= i <= s.len(),
            s == input@,
            s.len() == encoded_len(w),
            limit == first_limit(w),
            limit * pow(32, (encoded_len(w) - 1) as nat) == pow(256, w),
            w <= 16,
            acc == text_value(s.subrange(0, i as int)),
            acc < limit * pow(32, (i - 1) as nat),
            all_digit_chars(s.subrange(0, i as int)),
            is_digit_char(s[0]),
            digit_value(s[0]) < first_limit(w),
            out@ == old(out)@,
            w == out@.len(),
        decreases s.len() - i,
    {
        let d = match digit_of(input[i]) {
            Some(d) => d,
            None => {
                proof {
                    assert(!is_digit_char(s[i as int]));
                }
                return Err(Base32Error::InvalidByte);
            },
        };
        proof {
            let t = s.subrange(0, i as int + 1);
            assert(t.drop_last() == s.subrange(0, i as int));
            assert forall|k: int| 0 <= k < t.len() implies is_digit_char(#[trigger] t[k]) by {
                if k < i {
                    assert(t[k] == s.subrange(0, i as int)[k]);
                }
            }
            let p = pow(32, (i - 1) as nat);
            reveal(pow);
            assert(pow(32, i as nat) == 32 * p);
            assert(acc * 32 + d < limit * (32 * p)) by (nonlinear_arith)
                requires
                    acc < limit * p,
                    d < 32,
            ;
            lemma_pow_increases(32, i as nat, (encoded_len(w) - 1) as nat);
            assert(limit * pow(32, i as nat) <= limit * pow(32, (encoded_len(w) - 1) as nat))
                by (nonlinear_arith)
                requires
                    pow(32, i as nat) <= pow(32, (encoded_len(w) - 1) as nat),
            ;
            lemma_pow_increases(256, w, 16);
            lemma_pow_256_16();
        }
        acc = acc * 32 + d as u128;
        i = i + 1;
    }
    assert(s.subrange(0, s.len() as int) == s);
    write_be(acc, out);
    Ok(())
}

} // verus!

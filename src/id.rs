//! Values that can stand as the suffix of an identifier, and the errors of the
//! whole library.
use crate::base32::{
    all_digit_chars, be_bytes, be_value, decode_spec, encode_spec, encoded_len, encoded_len_of,
    lemma_be_bytes_len, lemma_be_value_bound, lemma_be_value_bytes, lemma_encode_fixed_length,
    lemma_order_preserved, lemma_overflow_rejected, lemma_round_trip, lex_lt, read_be, text_value,
    write_be, Base32Error,
};
use vstd::arithmetic::power::*;
use vstd::prelude::*;
use vstd::string::StringSliceAdditionalSpecFns;
use vstd::utf8::{encode_utf8, is_ascii_chars, is_ascii_chars_encode_utf8};

verus! {

/// Errors which may occur when creating or parsing identifiers.
#[derive(Clone, Debug, PartialEq, Eq)]
pub enum Error {
    /// The suffix is not valid base-32 text.
    Base32Error(Base32Error),
    /// A prefix was expected, but was not found.
    MissingPrefix(String),
    /// The given prefix did not match the expected prefix (expected, found).
    InvalidPrefix(String, String),
    /// A prefix was asked for, but the text was empty.
    PrefixExpected,
    /// A prefix was given, but none was expected.
    NoPrefixExpected(String),
    /// The suffix has the wrong length (expected, found).
    InvalidLength(usize, usize),
    /// The prefix is 64 bytes long or longer.
    PrefixTooLong(usize),
    /// The prefix holds a byte that is not allowed there.
    IncorrectPrefixCharacter(char),
}

/// The mathematical content of an [`Error`]; text is given by its UTF-8 bytes.
pub enum ErrorView {
    Base32Error(Base32Error),
    MissingPrefix(Seq<u8>),
    InvalidPrefix(Seq<u8>, Seq<u8>),
    PrefixExpected,
    NoPrefixExpected(Seq<u8>),
    InvalidLength(nat, nat),
    PrefixTooLong(nat),
    IncorrectPrefixCharacter(char),
}

impl View for Error {
    type V = ErrorView;

    open spec fn view(&self) -> ErrorView {
        match self {
            Error::Base32Error(e) => ErrorView::Base32Error(*e),
            Error::MissingPrefix(s) => ErrorView::MissingPrefix(encode_utf8(s@)),
            Error::InvalidPrefix(a, b) => ErrorView::InvalidPrefix(
                encode_utf8(a@),
                encode_utf8(b@),
            ),
            Error::PrefixExpected => ErrorView::PrefixExpected,
            Error::NoPrefixExpected(s) => ErrorView::NoPrefixExpected(encode_utf8(s@)),
            Error::InvalidLength(e, f) => ErrorView::InvalidLength(*e as nat, *f as nat),
            Error::PrefixTooLong(n) => ErrorView::PrefixTooLong(*n as nat),
            Error::IncorrectPrefixCharacter(c) => ErrorView::IncorrectPrefixCharacter(*c),
        }
    }
}

/// ASCII codes read as characters.
pub open spec fn ascii_chars(b: Seq<u8>) -> Seq<char> {
    b.map_values(|c: u8| c as char)
}

/// The base-32 text of `v` written as `w` big-endian bytes.
pub open spec fn value_text(v: nat, w: nat) -> Seq<u8> {
    encode_spec(be_bytes(v, w))
}

/// The outcome of reading the value of a `w`-byte type from the text whose
/// UTF-8 bytes are `b`: the length is checked first, then the base-32 digits.
pub open spec fn decode_value_spec(b: Seq<u8>, w: nat) -> Result<nat, ErrorView> {
    if b.len() != encoded_len(w) {
        Err(ErrorView::InvalidLength(encoded_len(w), b.len()))
    } else {
        match decode_spec(b, w) {
            Ok(bytes) => Ok(be_value(bytes)),
            Err(e) => Err(ErrorView::Base32Error(e)),
        }
    }
}

/// A fixed-width value with a canonical big-endian form of `width()` bytes.
pub trait Id: Sized {
    /// Number of bytes in the canonical form.
    spec fn width() -> nat;

    /// The value read as a big-endian unsigned integer.
    spec fn value(&self) -> nat;

    proof fn lemma_width()
        ensures
            1 <= Self::width() <= 16,
    ;

    proof fn lemma_value_bound(x: &Self)
        ensures
            x.value() < pow(256, Self::width()),
    ;

    proof fn lemma_value_injective(x: &Self, y: &Self)
        requires
            x.value() == y.value(),
        ensures
            x == y,
    ;

    /// Encode the value as its fixed-length base-32 text.
    fn encode(&self) -> (r: String)
        ensures
            r@ == ascii_chars(value_text(self.value(), Self::width())),
    ;

    /// Decode a value from its base-32 text.
    fn decode(val: &str) -> (r: Result<Self, Error>)
        ensures
            match decode_value_spec(val.spec_bytes(), Self::width()) {
                Ok(n) => r is Ok && r->Ok_0.value() == n,
                Err(e) => r is Err && r->Err_0@ == e,
            },
    ;
}

/// The capability of an identifier: an optional prefix and a suffix value.
pub trait StrongId<T: Id> {
    /// The prefix bytes, if any.
    spec fn spec_prefix(&self) -> Option<Seq<u8>>;

    /// The suffix value.
    spec fn spec_id(&self) -> T;

    /// The prefix text, if any.
    fn prefix(&self) -> (r: Option<&str>)
        ensures
            match r {
                Some(s) => self.spec_prefix() == Some(s.spec_bytes()),
                None => self.spec_prefix() is None,
            },
    ;

    /// The suffix value.
    fn id(&self) -> (r: &T)
        ensures
            *r == self.spec_id(),
    ;
}

/// The UTF-8 bytes of a value's text are the base-32 text itself, of
/// `encoded_len(width)` characters.
pub proof fn lemma_value_text_bytes<T: Id>(x: T)
    ensures
        all_digit_chars(value_text(x.value(), T::width())),
        value_text(x.value(), T::width()).len() == encoded_len(T::width()),
        encode_utf8(ascii_chars(value_text(x.value(), T::width()))) == value_text(
            x.value(),
            T::width(),
        ),
{
    let v = x.value();
    let w = T::width();
    lemma_be_bytes_len(v, w);
    lemma_encode_fixed_length(be_bytes(v, w));
    lemma_digit_chars_ascii(value_text(v, w));
    lemma_ascii_chars_bytes(value_text(v, w));
}

/// Round trip: decoding the text that `encode` gives for `x` yields the value
/// of `x`, and only `x` has that value.
pub proof fn lemma_id_round_trip<T: Id>(x: T)
    ensures
        decode_value_spec(
            encode_utf8(ascii_chars(value_text(x.value(), T::width()))),
            T::width(),
        ) == Ok::<nat, ErrorView>(x.value()),
        forall|y: T| #[trigger] y.value() == x.value() ==> y == x,
{
    let v = x.value();
    let w = T::width();
    T::lemma_width();
    T::lemma_value_bound(&x);
    lemma_value_text_bytes(x);
    lemma_be_bytes_len(v, w);
    lemma_round_trip(be_bytes(v, w));
    lemma_be_value_bytes(v, w);
    assert forall|y: T| #[trigger] y.value() == x.value() implies y == x by {
        T::lemma_value_injective(&y, &x);
    }
}

/// Fixed length: the text of every value of `T` has `encoded_len(width)`
/// characters, whatever its magnitude.
pub proof fn lemma_id_fixed_length<T: Id>(x: T)
    ensures
        ascii_chars(value_text(x.value(), T::width())).len() == encoded_len(T::width()),
{
    lemma_value_text_bytes(x);
}

/// Order: of two values of `T`, the smaller has the smaller text, compared
/// byte by byte.
pub proof fn lemma_id_order<T: Id>(x: T, y: T)
    requires
        x.value() < y.value(),
    ensures
        lex_lt(
            encode_utf8(ascii_chars(value_text(x.value(), T::width()))),
            encode_utf8(ascii_chars(value_text(y.value(), T::width()))),
        ),
{
    let w = T::width();
    T::lemma_width();
    T::lemma_value_bound(&x);
    T::lemma_value_bound(&y);
    lemma_value_text_bytes(x);
    lemma_value_text_bytes(y);
    lemma_be_bytes_len(x.value(), w);
    lemma_be_bytes_len(y.value(), w);
    lemma_be_value_bytes(x.value(), w);
    lemma_be_value_bytes(y.value(), w);
    lemma_order_preserved(be_bytes(x.value(), w), be_bytes(y.value(), w));
}

/// Overflow: a text of the right length and alphabet whose value does not fit
/// in `width()` bytes is rejected with `InvalidFirstByte`, never cut down.
pub proof fn lemma_id_overflow_rejected<T: Id>(s: Seq<u8>)
    requires
        s.len() == encoded_len(T::width()),
        all_digit_chars(s),
        text_value(s) >= pow(256, T::width()),
    ensures
        decode_value_spec(s, T::width()) == Err::<nat, ErrorView>(
            ErrorView::Base32Error(Base32Error::InvalidFirstByte),
        ),
{
    T::lemma_width();
    lemma_overflow_rejected(s, T::width());
}

/// Relies on `String::from_utf8`: ASCII bytes are valid UTF-8, and each byte
/// becomes the character with the same code.
#[verifier::external_body]
fn ascii_string(bytes: Vec<u8>) -> (r: String)
    requires
        forall|i: int| 0 <= i < bytes@.len() ==> bytes@[i] < 128,
    ensures
        r@ == ascii_chars(bytes@),
{
    match String::from_utf8(bytes) {
        Ok(s) => s,
        Err(_) => String::new(),
    }
}

/// The UTF-8 bytes of an ASCII text are its codes.
pub proof fn lemma_ascii_chars_bytes(b: Seq<u8>)
    requires
        forall|i: int| 0 <= i < b.len() ==> b[i] < 128,
    ensures
        is_ascii_chars(ascii_chars(b)),
        encode_utf8(ascii_chars(b)) == b,
{
    let c = ascii_chars(b);
    assert(is_ascii_chars(c));
    is_ascii_chars_encode_utf8(c);
    assert(encode_utf8(c) =~= b);
}

/// Every alphabet character is an ASCII code.
pub proof fn lemma_digit_chars_ascii(b: Seq<u8>)
    requires
        all_digit_chars(b),
    ensures
        forall|i: int| 0 <= i < b.len() ==> b[i] < 128,
{
    assert forall|i: int| 0 <= i < b.len() implies b[i] < 128 by {
        assert(crate::base32::is_digit_char(b[i]));
    }
}

/// The base-32 text of a value below `256^w`.
pub fn encode_value(v: u128, w: usize) -> (r: String)
    requires
        1 <= w <= 16,
        v < pow(256, w as nat),
    ensures
        r@ == ascii_chars(value_text(v as nat, w as nat)),
{
    let mut bytes: Vec<u8> = vec![0u8; w];
    write_be(v, bytes.as_mut_slice());
    proof {
        lemma_be_bytes_len(v as nat, w as nat);
    }
    let mut out: Vec<u8> = vec![0u8; encoded_len_of(w)];
    crate::base32::encode(bytes.as_slice(), out.as_mut_slice());
    proof {
        lemma_encode_fixed_length(bytes@);
        lemma_digit_chars_ascii(out@);
    }
    ascii_string(out)
}

/// Reads the value of a `w`-byte type from its base-32 text.
pub fn decode_value(val: &str, w: usize) -> (r: Result<u128, Error>)
    requires
        1 <= w <= 16,
    ensures
        match decode_value_spec(val.spec_bytes(), w as nat) {
            Ok(n) => r is Ok && r->Ok_0 == n,
            Err(e) => r is Err && r->Err_0@ == e,
        },
        r is Ok ==> r->Ok_0 < pow(256, w as nat),
{
    let b = val.as_bytes();
    let expected = encoded_len_of(w);
    if b.len() != expected {
        return Err(Error::InvalidLength(expected, val.len()));
    }
    let mut out: Vec<u8> = vec![0u8; w];
    match crate::base32::decode(b, out.as_mut_slice()) {
        Ok(()) => {},
        Err(e) => return Err(Error::Base32Error(e)),
    }
    proof {
        lemma_be_bytes_len(text_value(b@), w as nat);
        lemma_be_value_bound(out@);
    }
    Ok(read_be(out.as_slice()))
}

proof fn lemma_pow_256_small()
    ensures
        pow(256, 1) == 0x100,
        pow(256, 2) == 0x1_0000,
        pow(256, 4) == 0x1_0000_0000,
        pow(256, 8) == 0x1_0000_0000_0000_0000,
        pow(256, 16) == 0x1_0000_0000_0000_0000_0000_0000_0000_0000,
{
    reveal_with_fuel(pow, 17);
}

impl Id for u8 {
    open spec fn width() -> nat {
        1
    }

    open spec fn value(&self) -> nat {
        *self as nat
    }

    proof fn lemma_width() {
    }

    proof fn lemma_value_bound(x: &Self) {
        lemma_pow_256_small();
    }

    proof fn lemma_value_injective(x: &Self, y: &Self) {
    }

    fn encode(&self) -> (r: String) {
        proof {
            lemma_pow_256_small();
        }
        encode_value(*self as u128, 1)
    }

    fn decode(val: &str) -> (r: Result<Self, Error>) {
        proof {
            lemma_pow_256_small();
        }
        match decode_value(val, 1) {
            Ok(v) => Ok(v as u8),
            Err(e) => Err(e),
        }
    }
}

impl Id for u16 {
    open spec fn width() -> nat {
        2
    }

    open spec fn value(&self) -> nat {
        *self as nat
    }

    proof fn lemma_width() {
    }

    proof fn lemma_value_bound(x: &Self) {
        lemma_pow_256_small();
    }

    proof fn lemma_value_injective(x: &Self, y: &Self) {
    }

    fn encode(&self) -> (r: String) {
        proof {
            lemma_pow_256_small();
        }
        encode_value(*self as u128, 2)
    }

    fn decode(val: &str) -> (r: Result<Self, Error>) {
        proof {
            lemma_pow_256_small();
        }
        match decode_value(val, 2) {
            Ok(v) => Ok(v as u16),
            Err(e) => Err(e),
        }
    }
}

impl Id for u32 {
    open spec fn width() -> nat {
        4
    }

    open spec fn value(&self) -> nat {
        *self as nat
    }

    proof fn lemma_width() {
    }

    proof fn lemma_value_bound(x: &Self) {
        lemma_pow_256_small();
    }

    proof fn lemma_value_injective(x: &Self, y: &Self) {
    }

    fn encode(&self) -> (r: String) {
        proof {
            lemma_pow_256_small();
        }
        encode_value(*self as u128, 4)
    }

    fn decode(val: &str) -> (r: Result<Self, Error>) {
        proof {
            lemma_pow_256_small();
        }
        match decode_value(val, 4) {
            Ok(v) => Ok(v as u32),
            Err(e) => Err(e),
        }
    }
}

impl Id for u64 {
    open spec fn width() -> nat {
        8
    }

    open spec fn value(&self) -> nat {
        *self as nat
    }

    proof fn lemma_width() {
    }

    proof fn lemma_value_bound(x: &Self) {
        lemma_pow_256_small();
    }

    proof fn lemma_value_injective(x: &Self, y: &Self) {
    }

    fn encode(&self) -> (r: String) {
        proof {
            lemma_pow_256_small();
        }
        encode_value(*self as u128, 8)
    }

    fn decode(val: &str) -> (r: Result<Self, Error>) {
        proof {
            lemma_pow_256_small();
        }
        match decode_value(val, 8) {
            Ok(v) => Ok(v as u64),
            Err(e) => Err(e),
        }
    }
}

impl Id for u128 {
    open spec fn width() -> nat {
        16
    }

    open spec fn value(&self) -> nat {
        *self as nat
    }

    proof fn lemma_width() {
    }

    proof fn lemma_value_bound(x: &Self) {
        lemma_pow_256_small();
    }

    proof fn lemma_value_injective(x: &Self, y: &Self) {
    }

    fn encode(&self) -> (r: String) {
        proof {
            lemma_pow_256_small();
        }
        encode_value(*self, 16)
    }

    fn decode(val: &str) -> (r: Result<Self, Error>) {
        decode_value(val, 16)
    }
}

/// Width in bytes of `usize` on the target.
pub open spec fn usize_width() -> nat {
    if usize::MAX == u64::MAX {
        8
    } else {
        4
    }
}

fn usize_width_of() -> (w: usize)
    ensures
        w == usize_width(),
{
    if usize::MAX as u128 == u64::MAX as u128 {
        8
    } else {
        4
    }
}

impl Id for usize {
    open spec fn width() -> nat {
        usize_width()
    }

    open spec fn value(&self) -> nat {
        *self as nat
    }

    proof fn lemma_width() {
    }

    proof fn lemma_value_bound(x: &Self) {
        lemma_pow_256_small();
    }

    proof fn lemma_value_injective(x: &Self, y: &Self) {
    }

    fn encode(&self) -> (r: String) {
        proof {
            lemma_pow_256_small();
        }
        encode_value(*self as u128, usize_width_of())
    }

    fn decode(val: &str) -> (r: Result<Self, Error>) {
        proof {
            lemma_pow_256_small();
        }
        match decode_value(val, usize_width_of()) {
            Ok(v) => Ok(v as usize),
            Err(e) => Err(e),
        }
    }
}

} // verus!

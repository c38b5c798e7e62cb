//! Identifiers whose prefix is chosen at run time.
use crate::id::{
    ascii_chars, decode_value_spec, lemma_ascii_chars_bytes, lemma_id_round_trip,
    lemma_value_text_bytes, value_text, Error, ErrorView, Id, StrongId,
};
use crate::text::{
    all_white_space, is_white_space, last_index_of, lemma_encode_utf8_concat,
    lemma_last_index_after, lemma_last_index_none, rsplit_underscore, trim,
};
use vstd::prelude::*;
use vstd::string::{StringExecFns, StringSliceAdditionalSpecFns};
use vstd::utf8::{decode_utf8, encode_utf8, encode_utf8_decode_utf8};

verus! {

/// Whether byte `b` may stand in a prefix: a lowercase ASCII letter, or, in
/// delimited mode, also the underscore (95).
pub open spec fn prefix_byte_ok(b: u8, delimited: bool) -> bool {
    (97 <= b <= 122) || (delimited && b == 95)
}

pub open spec fn prefix_bytes_ok(p: Seq<u8>, delimited: bool) -> bool {
    forall|i: int| 0 <= i < p.len() ==> prefix_byte_ok(#[trigger] p[i], delimited)
}

/// A valid prefix: 1 to 63 bytes, each allowed.
pub open spec fn prefix_valid(p: Seq<u8>, delimited: bool) -> bool {
    1 <= p.len() < 64 && prefix_bytes_ok(p, delimited)
}

/// `i` is the position of the first byte of `p` that is not allowed.
pub open spec fn is_first_bad_byte(p: Seq<u8>, delimited: bool, i: int) -> bool {
    &&& 0 <= i < p.len()
    &&& !prefix_byte_ok(p[i], delimited)
    &&& forall|j: int| 0 <= j < i ==> prefix_byte_ok(#[trigger] p[j], delimited)
}

/// The outcome of validating the prefix with bytes `p`: length first, then
/// the first byte that is not allowed, then emptiness.
pub open spec fn map_prefix_spec(p: Seq<u8>, delimited: bool) -> Result<Seq<u8>, ErrorView> {
    if p.len() >= 64 {
        Err(ErrorView::PrefixTooLong(p.len()))
    } else if !prefix_bytes_ok(p, delimited) {
        Err(
            ErrorView::IncorrectPrefixCharacter(
                p[choose|i: int| is_first_bad_byte(p, delimited, i)] as char,
            ),
        )
    } else if p.len() == 0 {
        Err(ErrorView::PrefixExpected)
    } else {
        Ok(p)
    }
}

/// The canonical form: `prefix_text` with a prefix, `text` alone without.
pub open spec fn format_spec(prefix: Option<Seq<u8>>, text: Seq<u8>) -> Seq<u8> {
    match prefix {
        Some(p) => p + seq![95u8] + text,
        None => text,
    }
}

/// The outcome of parsing the text with bytes `b` into a prefix and the value
/// of a `w`-byte suffix. The text is split at its last underscore; a left part
/// that is only white space is a missing prefix; otherwise the prefix is
/// validated before the suffix is decoded.
pub open spec fn parse_spec(b: Seq<u8>, w: nat, delimited: bool) -> Result<
    (Option<Seq<u8>>, nat),
    ErrorView,
> {
    match last_index_of(b, 95) {
        Some(k) => {
            let left = b.subrange(0, k);
            let right = b.subrange(k + 1, b.len() as int);
            if all_white_space(decode_utf8(left)) {
                Err(ErrorView::MissingPrefix(left))
            } else {
                match map_prefix_spec(left, delimited) {
                    Err(e) => Err(e),
                    Ok(p) => match decode_value_spec(right, w) {
                        Ok(n) => Ok((Some(p), n)),
                        Err(e) => Err(e),
                    },
                }
            }
        },
        None => match decode_value_spec(b, w) {
            Ok(n) => Ok((None, n)),
            Err(e) => Err(e),
        },
    }
}

/// Prefix text, owned by the identifier that holds it.
#[derive(Clone, Debug, PartialEq, Eq, Hash, PartialOrd, Ord)]
pub struct Prefix {
    inner: String,
}

impl View for Prefix {
    type V = Seq<u8>;

    /// The UTF-8 bytes of the text.
    closed spec fn view(&self) -> Seq<u8> {
        encode_utf8(self.inner@)
    }
}

impl Prefix {
    /// Takes a copy of `text` as a prefix, not yet validated.
    pub fn new(text: &str) -> (r: Prefix)
        ensures
            r@ == text.spec_bytes(),
    {
        Prefix { inner: text.to_owned() }
    }

    /// The prefix text.
    pub fn as_str(&self) -> (r: &str)
        ensures
            r.spec_bytes() == self@,
    {
        self.inner.as_str()
    }
}

/// Validates a prefix: it must be shorter than 64 bytes, hold only lowercase
/// ASCII letters (and underscores when `delimited`), and not be empty.
pub fn map_prefix(prefix: Prefix, delimited: bool) -> (r: Result<Prefix, Error>)
    ensures
        match map_prefix_spec(prefix@, delimited) {
            Ok(p) => r is Ok && r->Ok_0@ == p,
            Err(e) => r is Err && r->Err_0@ == e,
        },
        r is Ok ==> prefix_valid(r->Ok_0@, delimited),
{
    let bytes = prefix.inner.as_str().as_bytes();
    let len = bytes.len();
    if len >= 64 {
        return Err(Error::PrefixTooLong(len));
    }
    let mut i: usize = 0;
    while i < bytes.len()
        invariant
            i <= bytes@.len(),
            bytes@ == prefix@,
            len == bytes@.len(),
            len < 64,
            forall|j: int| 0 <= j < i ==> prefix_byte_ok(#[trigger] bytes@[j], delimited),
        decreases bytes@.len() - i,
    {
        let b = bytes[i];
        if !((97 <= b && b <= 122) || (delimited && b == 95)) {
            proof {
                let p = prefix@;
                assert(is_first_bad_byte(p, delimited, i as int));
                let c = choose|c: int| is_first_bad_byte(p, delimited, c);
                if c < i {
                    assert(prefix_byte_ok(p[c], delimited));
                } else if c > i {
                    assert(prefix_byte_ok(p[i as int], delimited));
                }
            }
            return Err(Error::IncorrectPrefixCharacter(b as char));
        }
        i = i + 1;
    }
    if len == 0 {
        return Err(Error::PrefixExpected);
    }
    Ok(prefix)
}

/// Checks a prefix that is fixed in code: shorter than 64 bytes and made only
/// of lowercase ASCII letters (and underscores when `delimited`). The empty
/// text passes: it stands for "no prefix".
pub fn assert_prefix_valid(prefix: &str, delimited: bool) -> (r: bool)
    ensures
        r == (prefix.spec_bytes().len() < 64 && prefix_bytes_ok(prefix.spec_bytes(), delimited)),
{
    let bytes = prefix.as_bytes();
    if bytes.len() >= 64 {
        return false;
    }
    let mut i: usize = 0;
    while i < bytes.len()
        invariant
            i <= bytes@.len(),
            bytes@ == prefix.spec_bytes(),
            forall|j: int| 0 <= j < i ==> prefix_byte_ok(#[trigger] bytes@[j], delimited),
        decreases bytes@.len() - i,
    {
        let b = bytes[i];
        if !((97 <= b && b <= 122) || (delimited && b == 95)) {
            return false;
        }
        i = i + 1;
    }
    true
}

/// An identifier with an optional prefix checked at run time.
#[derive(Clone, Debug, PartialEq, Eq, Hash, PartialOrd, Ord)]
pub struct DynamicStrongId<T: Id> {
    prefix: Option<Prefix>,
    suffix: T,
}

impl<T: Id> View for DynamicStrongId<T> {
    type V = (Option<Seq<u8>>, T);

    /// The prefix bytes, if any, and the suffix value.
    closed spec fn view(&self) -> (Option<Seq<u8>>, T) {
        (
            match self.prefix {
                Some(p) => Some(p@),
                None => None,
            },
            self.suffix,
        )
    }
}

/// The bytes of text given by `Option<&str>`.
pub open spec fn opt_bytes(p: Option<&str>) -> Option<Seq<u8>> {
    match p {
        Some(s) => Some(s.spec_bytes()),
        None => None,
    }
}

/// `prefix`, an underscore, then `text`.
pub fn join_prefix(prefix: &str, text: String) -> (r: String)
    ensures
        encode_utf8(r@) == prefix.spec_bytes() + seq![95u8] + encode_utf8(text@),
{
    let mut s = prefix.to_owned();
    s.append("_");
    s.append(text.as_str());
    proof {
        reveal_strlit("_");
        lemma_ascii_chars_bytes(seq![95u8]);
        assert(ascii_chars(seq![95u8]) == "_"@);
        lemma_encode_utf8_concat(prefix@, "_"@);
        lemma_encode_utf8_concat(prefix@ + "_"@, text@);
    }
    s
}

impl<T: Id> DynamicStrongId<T> {
    /// Whether the prefix, if any, is valid in the given mode.
    pub open spec fn wf(&self, delimited: bool) -> bool {
        match self@.0 {
            Some(p) => prefix_valid(p, delimited),
            None => true,
        }
    }

    /// Creates an identifier from a prefix, validated without underscores, and a value.
    pub fn new(prefix: Prefix, value: T) -> (r: Result<Self, Error>)
        ensures
            match map_prefix_spec(prefix@, false) {
                Ok(p) => r is Ok && r->Ok_0@ == (Some(p), value),
                Err(e) => r is Err && r->Err_0@ == e,
            },
            r is Ok ==> r->Ok_0.wf(false),
    {
        match map_prefix(prefix, false) {
            Ok(p) => Ok(DynamicStrongId { prefix: Some(p), suffix: value }),
            Err(e) => Err(e),
        }
    }

    /// Creates an identifier from a prefix, validated with underscores allowed, and a value.
    pub fn new_delimited(prefix: Prefix, value: T) -> (r: Result<Self, Error>)
        ensures
            match map_prefix_spec(prefix@, true) {
                Ok(p) => r is Ok && r->Ok_0@ == (Some(p), value),
                Err(e) => r is Err && r->Err_0@ == e,
            },
            r is Ok ==> r->Ok_0.wf(true),
    {
        match map_prefix(prefix, true) {
            Ok(p) => Ok(DynamicStrongId { prefix: Some(p), suffix: value }),
            Err(e) => Err(e),
        }
    }

    /// Creates an identifier from a prefix already validated without underscores.
    pub(crate) fn from_valid_prefix(prefix: Prefix, value: T) -> (r: Self)
        requires
            prefix_valid(prefix@, false),
        ensures
            r@ == (Some(prefix@), value),
            r.wf(false),
    {
        DynamicStrongId { prefix: Some(prefix), suffix: value }
    }

    /// Creates an identifier without a prefix.
    pub fn new_plain(value: T) -> (r: Self)
        ensures
            r@ == (None::<Seq<u8>>, value),
            r.wf(false),
    {
        DynamicStrongId { prefix: None, suffix: value }
    }

    /// The canonical form: `prefix_suffix`, or the suffix alone.
    pub fn to_string(&self) -> (r: String)
        ensures
            encode_utf8(r@) == format_spec(self@.0, value_text(self@.1.value(), T::width())),
    {
        let text = self.suffix.encode();
        proof {
            lemma_value_text_bytes(self.suffix);
        }
        match &self.prefix {
            Some(p) => join_prefix(p.as_str(), text),
            None => text,
        }
    }

    /// Parses the canonical form; `delimited` allows underscores in the prefix.
    pub fn parse_with(value: &str, delimited: bool) -> (r: Result<Self, Error>)
        ensures
            match parse_spec(value.spec_bytes(), T::width(), delimited) {
                Ok((p, n)) => r is Ok && r->Ok_0@.0 == p && r->Ok_0@.1.value() == n,
                Err(e) => r is Err && r->Err_0@ == e,
            },
            r is Ok ==> r->Ok_0.wf(delimited),
    {
        match rsplit_underscore(value) {
            Some((left, right)) => {
                proof {
                    encode_utf8_decode_utf8(left@);
                }
                if trim(left).is_empty() {
                    return Err(Error::MissingPrefix(left.to_owned()));
                }
                let p = match map_prefix(Prefix::new(left), delimited) {
                    Ok(p) => p,
                    Err(e) => return Err(e),
                };
                match T::decode(right) {
                    Ok(suffix) => Ok(DynamicStrongId { prefix: Some(p), suffix }),
                    Err(e) => Err(e),
                }
            },
            None => match T::decode(value) {
                Ok(suffix) => Ok(DynamicStrongId { prefix: None, suffix }),
                Err(e) => Err(e),
            },
        }
    }

    /// Parses the canonical form, with a prefix of lowercase letters only.
    pub fn parse(value: &str) -> (r: Result<Self, Error>)
        ensures
            match parse_spec(value.spec_bytes(), T::width(), false) {
                Ok((p, n)) => r is Ok && r->Ok_0@.0 == p && r->Ok_0@.1.value() == n,
                Err(e) => r is Err && r->Err_0@ == e,
            },
    {
        Self::parse_with(value, false)
    }

    /// Parses the canonical form, with underscores allowed inside the prefix.
    pub fn parse_delimited(value: &str) -> (r: Result<Self, Error>)
        ensures
            match parse_spec(value.spec_bytes(), T::width(), true) {
                Ok((p, n)) => r is Ok && r->Ok_0@.0 == p && r->Ok_0@.1.value() == n,
                Err(e) => r is Err && r->Err_0@ == e,
            },
    {
        Self::parse_with(value, true)
    }
}

impl<'a> From<&'a str> for Prefix {
    /// Takes a copy of `value` as a prefix, not yet validated.
    fn from(value: &'a str) -> Prefix {
        Prefix::new(value)
    }
}

impl<'a> vstd::std_specs::convert::FromSpecImpl<&'a str> for Prefix {
    open spec fn obeys_from_spec() -> bool {
        false
    }

    open spec fn from_spec(v: &'a str) -> Prefix {
        vstd::pervasive::arbitrary()
    }
}

impl From<String> for Prefix {
    /// Takes `value` as a prefix, not yet validated.
    fn from(value: String) -> Prefix {
        Prefix { inner: value }
    }
}

impl vstd::std_specs::convert::FromSpecImpl<String> for Prefix {
    open spec fn obeys_from_spec() -> bool {
        true
    }

    closed spec fn from_spec(v: String) -> Prefix {
        Prefix { inner: v }
    }
}

impl<T: Id> core::str::FromStr for DynamicStrongId<T> {
    type Err = Error;

    /// Parses the canonical form, with a prefix of lowercase letters only.
    fn from_str(value: &str) -> Result<Self, Error> {
        Self::parse(value)
    }
}

impl<T: Id> StrongId<T> for DynamicStrongId<T> {
    open spec fn spec_prefix(&self) -> Option<Seq<u8>> {
        self@.0
    }

    open spec fn spec_id(&self) -> T {
        self@.1
    }

    fn prefix(&self) -> (r: Option<&str>) {
        match &self.prefix {
            Some(p) => Some(p.as_str()),
            None => None,
        }
    }

    fn id(&self) -> (r: &T) {
        &self.suffix
    }
}

/// A valid prefix is not white space: its text is its ASCII bytes.
pub proof fn lemma_prefix_not_blank(p: Seq<u8>, delimited: bool)
    requires
        prefix_valid(p, delimited),
    ensures
        !all_white_space(decode_utf8(p)),
        map_prefix_spec(p, delimited) == Ok::<Seq<u8>, ErrorView>(p),
{
    assert forall|i: int| 0 <= i < p.len() implies p[i] < 128 by {
        assert(prefix_byte_ok(p[i], delimited));
    }
    lemma_ascii_chars_bytes(p);
    encode_utf8_decode_utf8(ascii_chars(p));
    assert(prefix_byte_ok(p[0], delimited));
    assert(!is_white_space(decode_utf8(p)[0]));
}

/// Idempotence: parsing the canonical form of a well-formed identifier gives
/// back its prefix and its suffix value (and so, by `lemma_id_round_trip`,
/// its suffix).
pub proof fn lemma_parse_format<T: Id>(id: DynamicStrongId<T>, delimited: bool)
    requires
        id.wf(delimited),
    ensures
        parse_spec(
            format_spec(id@.0, value_text(id@.1.value(), T::width())),
            T::width(),
            delimited,
        ) == Ok::<(Option<Seq<u8>>, nat), ErrorView>((id@.0, id@.1.value())),
{
    let x = id@.1;
    let t = value_text(x.value(), T::width());
    lemma_value_text_bytes(x);
    lemma_id_round_trip(x);
    assert forall|i: int| 0 <= i < t.len() implies t[i] != 95 by {
        assert(crate::base32::is_digit_char(t[i]));
    }
    match id@.0 {
        Some(p) => {
            let s = p + seq![95u8] + t;
            lemma_last_index_after(p, 95, t);
            assert(s.subrange(0, p.len() as int) == p);
            assert(s.subrange(p.len() as int + 1, s.len() as int) == t);
            lemma_prefix_not_blank(p, delimited);
        },
        None => {
            lemma_last_index_none(t, 95);
        },
    }
}

} // verus!

//! Identifiers whose prefix, or absence of one, is fixed in code: the prefix is
//! not stored, and parsing rejects any other prefix.
use crate::dynamic::{format_spec, join_prefix, opt_bytes, prefix_valid};
use crate::id::{
    decode_value_spec, lemma_id_round_trip, lemma_value_text_bytes, value_text, Error, ErrorView, Id,
};
use crate::text::{
    bytes_eq, last_index_of, lemma_last_index_after, lemma_last_index_none, lemma_last_index_of,
    rsplit_underscore,
};
use vstd::prelude::*;
use vstd::string::StringSliceAdditionalSpecFns;
use vstd::utf8::encode_utf8;

verus! {

/// The outcome of parsing the text with bytes `b` for a type whose prefix is
/// `expected`, and whose suffix is `w` bytes wide. The text is split at its
/// last underscore.
pub open spec fn parse_fixed_spec(b: Seq<u8>, expected: Option<Seq<u8>>, w: nat) -> Result<
    nat,
    ErrorView,
> {
    match expected {
        Some(p) => match last_index_of(b, 95) {
            None => Err(ErrorView::MissingPrefix(p)),
            Some(k) => if k == 0 {
                Err(ErrorView::MissingPrefix(p))
            } else if b.subrange(0, k) != p {
                Err(ErrorView::InvalidPrefix(p, b.subrange(0, k)))
            } else {
                decode_value_spec(b.subrange(k + 1, b.len() as int), w)
            },
        },
        None => match last_index_of(b, 95) {
            Some(k) => Err(ErrorView::NoPrefixExpected(b.subrange(0, k))),
            None => decode_value_spec(b, w),
        },
    }
}

/// The canonical form of a suffix under a fixed prefix.
pub fn format_fixed<T: Id>(prefix: Option<&str>, suffix: &T) -> (r: String)
    ensures
        encode_utf8(r@) == format_spec(opt_bytes(prefix), value_text(suffix.value(), T::width())),
{
    let text = suffix.encode();
    proof {
        lemma_value_text_bytes(*suffix);
    }
    match prefix {
        Some(p) => join_prefix(p, text),
        None => text,
    }
}

/// Parses the canonical form of a suffix under a fixed prefix.
pub fn parse_fixed<T: Id>(value: &str, expected: Option<&str>) -> (r: Result<T, Error>)
    ensures
        match parse_fixed_spec(value.spec_bytes(), opt_bytes(expected), T::width()) {
            Ok(n) => r is Ok && r->Ok_0.value() == n,
            Err(e) => r is Err && r->Err_0@ == e,
        },
{
    proof {
        lemma_last_index_of(value.spec_bytes(), 95);
    }
    match expected {
        Some(prefix) => match rsplit_underscore(value) {
            None => Err(Error::MissingPrefix(prefix.to_owned())),
            Some((left, right)) => {
                if left.as_bytes().len() == 0 {
                    return Err(Error::MissingPrefix(prefix.to_owned()));
                }
                if !bytes_eq(left.as_bytes(), prefix.as_bytes()) {
                    return Err(Error::InvalidPrefix(prefix.to_owned(), left.to_owned()));
                }
                T::decode(right)
            },
        },
        None => match rsplit_underscore(value) {
            Some((left, _right)) => Err(Error::NoPrefixExpected(left.to_owned())),
            None => T::decode(value),
        },
    }
}

/// Idempotence for a fixed prefix: parsing the canonical form of a suffix
/// under a valid prefix (or none) gives back the suffix value.
pub proof fn lemma_parse_format_fixed<T: Id>(prefix: Option<Seq<u8>>, x: T)
    requires
        match prefix {
            Some(p) => prefix_valid(p, true),
            None => true,
        },
    ensures
        parse_fixed_spec(format_spec(prefix, value_text(x.value(), T::width())), prefix, T::width())
            == Ok::<nat, ErrorView>(x.value()),
{
    let t = value_text(x.value(), T::width());
    lemma_value_text_bytes(x);
    lemma_id_round_trip(x);
    assert forall|i: int| 0 <= i < t.len() implies t[i] != 95 by {
        assert(crate::base32::is_digit_char(t[i]));
    }
    match prefix {
        Some(p) => {
            let s = p + seq![95u8] + t;
            lemma_last_index_after(p, 95, t);
            assert(s.subrange(0, p.len() as int) == p);
            assert(s.subrange(p.len() as int + 1, s.len() as int) == t);
        },
        None => {
            lemma_last_index_none(t, 95);
        },
    }
}

} // verus!

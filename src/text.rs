//! Facts about text: UTF-8 bytes of concatenations, the last occurrence of a
//! byte, splitting at the last underscore, and white space.
use vstd::prelude::*;
use vstd::string::StringSliceAdditionalSpecFns;
use vstd::utf8::{
    encode_utf8, encode_utf8_valid_utf8, is_char_boundary, is_char_boundary_iff_is_leading_byte,
};

verus! {

/// The UTF-8 bytes of a concatenation are the concatenation of the bytes.
pub proof fn lemma_encode_utf8_concat(a: Seq<char>, b: Seq<char>)
    ensures
        encode_utf8(a + b) == encode_utf8(a) + encode_utf8(b),
    decreases a.len(),
{
    if a.len() == 0 {
        assert(a + b == b);
    } else {
        assert((a + b).drop_first() == a.drop_first() + b);
        assert((a + b)[0] == a[0]);
        lemma_encode_utf8_concat(a.drop_first(), b);
    }
}

/// The index of the last occurrence of `x` in `b`.
pub open spec fn last_index_of(b: Seq<u8>, x: u8) -> Option<int>
    decreases b.len(),
{
    if b.len() == 0 {
        None
    } else if b.last() == x {
        Some(b.len() - 1)
    } else {
        last_index_of(b.drop_last(), x)
    }
}

pub proof fn lemma_last_index_of(b: Seq<u8>, x: u8)
    ensures
        match last_index_of(b, x) {
            Some(k) => 0 <= k < b.len() && b[k] == x && forall|j: int|
                k < j < b.len() ==> b[j] != x,
            None => forall|j: int| 0 <= j < b.len() ==> b[j] != x,
        },
    decreases b.len(),
{
    if b.len() > 0 && b.last() != x {
        lemma_last_index_of(b.drop_last(), x);
        assert forall|j: int| 0 <= j < b.len() - 1 implies b[j] == b.drop_last()[j] by {}
    }
}

/// Finds the last occurrence of `x` in `b`.
pub fn find_last(b: &[u8], x: u8) -> (r: Option<usize>)
    ensures
        match r {
            Some(k) => last_index_of(b@, x) == Some(k as int),
            None => last_index_of(b@, x) is None,
        },
{
    let mut k: usize = b.len();
    assert(b@.subrange(0, k as int) == b@);
    while k > 0
        invariant
            k <= b@.len(),
            last_index_of(b@, x) == last_index_of(b@.subrange(0, k as int), x),
        decreases k,
    {
        let ghost t = b@.subrange(0, k as int);
        assert(t.last() == b@[k - 1]);
        if b[k - 1] == x {
            return Some(k - 1);
        }
        assert(t.drop_last() == b@.subrange(0, k - 1));
        k = k - 1;
    }
    None
}

/// Splits `value` at its last underscore into the text before and the text
/// after it.
pub fn rsplit_underscore<'a>(value: &'a str) -> (r: Option<(&'a str, &'a str)>)
    ensures
        match last_index_of(value.spec_bytes(), 95) {
            Some(k) => r is Some && r->Some_0.0.spec_bytes() == value.spec_bytes().subrange(0, k)
                && r->Some_0.1.spec_bytes() == value.spec_bytes().subrange(
                k + 1,
                value.spec_bytes().len() as int,
            ),
            None => r is None,
        },
{
    let ghost b = value.spec_bytes();
    match find_last(value.as_bytes(), 95) {
        Some(k) => {
            proof {
                lemma_last_index_of(b, 95);
                encode_utf8_valid_utf8(value@);
                is_char_boundary_iff_is_leading_byte(b, k as int);
            }
            let (left, rest) = value.split_at(k);
            proof {
                let rb = rest.spec_bytes();
                encode_utf8_valid_utf8(rest@);
                assert(rb[0] == b[k as int]);
                reveal_with_fuel(is_char_boundary, 2);
                assert(is_char_boundary(rb, 1));
            }
            let (_sep, right) = rest.split_at(1);
            proof {
                assert(right.spec_bytes() == b.subrange(k + 1, b.len() as int));
            }
            Some((left, right))
        },
        None => None,
    }
}

/// Whether two byte sequences are equal.
pub fn bytes_eq(a: &[u8], b: &[u8]) -> (r: bool)
    ensures
        r == (a@ == b@),
{
    if a.len() != b.len() {
        return false;
    }
    let mut i: usize = 0;
    while i < a.len()
        invariant
            i <= a@.len() == b@.len(),
            a@.subrange(0, i as int) == b@.subrange(0, i as int),
        decreases a@.len() - i,
    {
        if a[i] != b[i] {
            return false;
        }
        proof {
            assert(a@.subrange(0, i + 1) == a@.subrange(0, i as int).push(a@[i as int]));
            assert(b@.subrange(0, i + 1) == b@.subrange(0, i as int).push(b@[i as int]));
        }
        i = i + 1;
    }
    assert(a@.subrange(0, a@.len() as int) == a@);
    assert(b@.subrange(0, b@.len() as int) == b@);
    true
}

/// In `a`, the byte `x`, then text without `x`, the last `x` is the one
/// after `a`.
pub proof fn lemma_last_index_after(a: Seq<u8>, x: u8, t: Seq<u8>)
    requires
        forall|i: int| 0 <= i < t.len() ==> t[i] != x,
    ensures
        last_index_of(a + seq![x] + t, x) == Some(a.len() as int),
    decreases t.len(),
{
    let s = a + seq![x] + t;
    if t.len() == 0 {
        assert(s.last() == x);
    } else {
        assert(s.last() == t.last());
        assert(s.drop_last() == a + seq![x] + t.drop_last());
        lemma_last_index_after(a, x, t.drop_last());
    }
}

/// Text without `x` has no last `x`.
pub proof fn lemma_last_index_none(t: Seq<u8>, x: u8)
    requires
        forall|i: int| 0 <= i < t.len() ==> t[i] != x,
    ensures
        last_index_of(t, x) is None,
    decreases t.len(),
{
    if t.len() > 0 {
        assert(t.last() != x);
        lemma_last_index_none(t.drop_last(), x);
    }
}

/// White space as `char::is_whitespace` and `str::trim` define it: the
/// characters with the Unicode `White_Space` property.
pub open spec fn is_white_space(c: char) -> bool {
    ||| '\u{9}' <= c <= '\u{d}'
    ||| c == ' '
    ||| c == '\u{85}'
    ||| c == '\u{a0}'
    ||| c == '\u{1680}'
    ||| '\u{2000}' <= c <= '\u{200a}'
    ||| c == '\u{2028}'
    ||| c == '\u{2029}'
    ||| c == '\u{202f}'
    ||| c == '\u{205f}'
    ||| c == '\u{3000}'
}

pub open spec fn all_white_space(s: Seq<char>) -> bool {
    forall|i: int| 0 <= i < s.len() ==> is_white_space(#[trigger] s[i])
}

/// Relies on `str::trim`: it removes leading and trailing white space, so what
/// is left is empty exactly when every character is white space.
#[verifier::external_body]
pub(crate) fn trim(s: &str) -> (r: &str)
    ensures
        (r@.len() == 0) == all_white_space(s@),
{
    s.trim()
}

} // verus!

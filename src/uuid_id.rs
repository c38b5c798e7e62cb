//! UUID values as identifier suffixes, and identifiers built from freshly
//! generated UUIDs.
//!
//! A UUID is held as its 128-bit big-endian value. Generation is done by the
//! `uuid` crate; the wrappers below hand its results over as plain integers.
use crate::base32::{be_value, lemma_pow_256_16};
use crate::dynamic::{map_prefix, map_prefix_spec, DynamicStrongId, Prefix};
use crate::id::{decode_value, encode_value, Error, Id};
use vstd::prelude::*;

verus! {

/// A 128-bit UUID value.
#[derive(Clone, Copy, Debug, PartialEq, Eq, Hash, PartialOrd, Ord, Structural)]
pub struct Uuid {
    bits: u128,
}

impl View for Uuid {
    type V = u128;

    closed spec fn view(&self) -> u128 {
        self.bits
    }
}

impl Uuid {
    /// The UUID with the given 128-bit value.
    pub fn from_u128(v: u128) -> (r: Uuid)
        ensures
            r@ == v,
    {
        Uuid { bits: v }
    }

    /// The 128-bit value of the UUID.
    pub fn as_u128(&self) -> (r: u128)
        ensures
            r == self@,
    {
        self.bits
    }
}

impl Id for Uuid {
    open spec fn width() -> nat {
        16
    }

    open spec fn value(&self) -> nat {
        self@ as nat
    }

    proof fn lemma_width() {
    }

    proof fn lemma_value_bound(x: &Self) {
        lemma_pow_256_16();
    }

    proof fn lemma_value_injective(x: &Self, y: &Self) {
    }

    fn encode(&self) -> (r: String) {
        proof {
            lemma_pow_256_16();
        }
        encode_value(self.bits, 16)
    }

    fn decode(val: &str) -> (r: Result<Self, Error>) {
        match decode_value(val, 16) {
            Ok(v) => Ok(Uuid { bits: v }),
            Err(e) => Err(e),
        }
    }
}

impl From<DynamicStrongId<Uuid>> for Uuid {
    /// The suffix of a UUID-backed identifier.
    fn from(value: DynamicStrongId<Uuid>) -> (r: Uuid) {
        *crate::id::StrongId::id(&value)
    }
}

impl vstd::std_specs::convert::FromSpecImpl<DynamicStrongId<Uuid>> for Uuid {
    open spec fn obeys_from_spec() -> bool {
        true
    }

    open spec fn from_spec(v: DynamicStrongId<Uuid>) -> Uuid {
        v@.1
    }
}

/// A point in time for time-based UUIDs: seconds and nanoseconds since the
/// Unix epoch, and a counter of which the low `usable_counter_bits` count.
#[derive(Clone, Copy, Debug, PartialEq, Eq, Hash)]
pub struct Timestamp {
    pub seconds: u64,
    pub subsec_nanos: u32,
    pub counter: u128,
    pub usable_counter_bits: u8,
}

impl Timestamp {
    /// A timestamp from Unix time and a counter.
    pub fn from_unix_time(
        seconds: u64,
        subsec_nanos: u32,
        counter: u128,
        usable_counter_bits: u8,
    ) -> (r: Timestamp)
        ensures
            r == (Timestamp { seconds, subsec_nanos, counter, usable_counter_bits }),
    {
        Timestamp { seconds, subsec_nanos, counter, usable_counter_bits }
    }
}

/// The constructors of an identifier type backed by a UUID, one for each way
/// of making a UUID.
pub trait StrongUuid: Sized {
    fn from_u128(v: u128) -> Self;

    fn new_v1(ts: Timestamp, node_id: &[u8; 6]) -> Self;

    fn now_v1(node_id: &[u8; 6]) -> Self;

    fn new_v3(namespace: &Uuid, name: &[u8]) -> Self;

    fn new_v4() -> Self;

    fn new_v5(namespace: &Uuid, name: &[u8]) -> Self;

    fn new_v6(ts: Timestamp, node_id: &[u8; 6]) -> Self;

    fn now_v6(node_id: &[u8; 6]) -> Self;

    fn new_v7(ts: Timestamp) -> Self;

    fn now_v7() -> Self;

    fn new_v8(buf: [u8; 16]) -> Self;
}

/// The version field of a UUID value (bits 76 to 79).
pub open spec fn uuid_version(v: u128) -> u128 {
    (v >> 76u128) & 0xf
}

/// Whether the variant field of a UUID value (bits 62 and 63) is `10`, the
/// variant of RFC 9562.
pub open spec fn uuid_variant_rfc(v: u128) -> bool {
    (v >> 62u128) & 0x3 == 2
}

/// A UUID of the given version and of the RFC 9562 variant.
pub open spec fn stamped(v: u128, version: u128) -> bool {
    uuid_version(v) == version && uuid_variant_rfc(v)
}

/// The value of a version 8 UUID made from the bits `v`: the version and
/// variant fields are overwritten, all other bits are kept.
pub open spec fn custom_uuid(v: u128) -> u128 {
    (v & 0xffff_ffff_ffff_0fff_3fff_ffff_ffff_ffff) | 0x0000_0000_0000_8000_8000_0000_0000_0000
}

/// The version 1 UUID for a time and a node id.
pub uninterp spec fn uuid_v1_of(
    seconds: u64,
    subsec_nanos: u32,
    counter: u128,
    node: Seq<u8>,
) -> u128;

/// The version 3 UUID (MD5) for a namespace and a name.
pub uninterp spec fn uuid_v3_of(namespace: u128, name: Seq<u8>) -> u128;

/// The version 5 UUID (SHA-1) for a namespace and a name.
pub uninterp spec fn uuid_v5_of(namespace: u128, name: Seq<u8>) -> u128;

/// The version 6 UUID for a time and a node id.
pub uninterp spec fn uuid_v6_of(
    seconds: u64,
    subsec_nanos: u32,
    counter: u128,
    node: Seq<u8>,
) -> u128;

/// Relies on `uuid::Uuid::new_v1`: the time and node id decide the UUID,
/// which has version 1 and the node id in its low 48 bits.
#[verifier::external_body]
fn uuid_new_v1(ts: Timestamp, node_id: &[u8; 6]) -> (r: u128)
    ensures
        r == uuid_v1_of(ts.seconds, ts.subsec_nanos, ts.counter, node_id@),
        stamped(r, 1),
        r % 0x1_0000_0000_0000 == be_value(node_id@),
{
    let ts = uuid::Timestamp::from_unix_time(
        ts.seconds,
        ts.subsec_nanos,
        ts.counter,
        ts.usable_counter_bits,
    );
    uuid::Uuid::new_v1(ts, node_id).as_u128()
}

/// Relies on `uuid::Uuid::now_v1`: a UUID of version 1 for the current time,
/// with the node id in its low 48 bits.
#[verifier::external_body]
fn uuid_now_v1(node_id: &[u8; 6]) -> (r: u128)
    ensures
        stamped(r, 1),
        r % 0x1_0000_0000_0000 == be_value(node_id@),
{
    uuid::Uuid::now_v1(node_id).as_u128()
}

/// Relies on `uuid::Uuid::new_v3`: the namespace and name decide the UUID.
#[verifier::external_body]
fn uuid_new_v3(namespace: u128, name: &[u8]) -> (r: u128)
    ensures
        r == uuid_v3_of(namespace, name@),
{
    uuid::Uuid::new_v3(&uuid::Uuid::from_u128(namespace), name).as_u128()
}

/// Relies on `uuid::Uuid::new_v4`: a random UUID of version 4.
#[verifier::external_body]
fn uuid_new_v4() -> (r: u128)
    ensures
        stamped(r, 4),
{
    uuid::Uuid::new_v4().as_u128()
}

/// Relies on `uuid::Uuid::new_v5`: the namespace and name decide the UUID.
#[verifier::external_body]
fn uuid_new_v5(namespace: u128, name: &[u8]) -> (r: u128)
    ensures
        r == uuid_v5_of(namespace, name@),
{
    uuid::Uuid::new_v5(&uuid::Uuid::from_u128(namespace), name).as_u128()
}

/// Relies on `uuid::Uuid::new_v6`: the time and node id decide the UUID,
/// which has version 6 and the node id in its low 48 bits.
#[verifier::external_body]
fn uuid_new_v6(ts: Timestamp, node_id: &[u8; 6]) -> (r: u128)
    ensures
        r == uuid_v6_of(ts.seconds, ts.subsec_nanos, ts.counter, node_id@),
        stamped(r, 6),
        r % 0x1_0000_0000_0000 == be_value(node_id@),
{
    let ts = uuid::Timestamp::from_unix_time(
        ts.seconds,
        ts.subsec_nanos,
        ts.counter,
        ts.usable_counter_bits,
    );
    uuid::Uuid::new_v6(ts, node_id).as_u128()
}

/// Relies on `uuid::Uuid::now_v6`: a UUID of version 6 for the current time,
/// with the node id in its low 48 bits.
#[verifier::external_body]
fn uuid_now_v6(node_id: &[u8; 6]) -> (r: u128)
    ensures
        stamped(r, 6),
        r % 0x1_0000_0000_0000 == be_value(node_id@),
{
    uuid::Uuid::now_v6(node_id).as_u128()
}

/// Relies on `uuid::Uuid::new_v7`: a UUID of version 7 for the given time,
/// partly random.
#[verifier::external_body]
fn uuid_new_v7(ts: Timestamp) -> (r: u128)
    ensures
        stamped(r, 7),
{
    let ts = uuid::Timestamp::from_unix_time(
        ts.seconds,
        ts.subsec_nanos,
        ts.counter,
        ts.usable_counter_bits,
    );
    uuid::Uuid::new_v7(ts).as_u128()
}

/// Relies on `uuid::Uuid::now_v7`: a UUID of version 7 for the current time.
#[verifier::external_body]
fn uuid_now_v7() -> (r: u128)
    ensures
        stamped(r, 7),
{
    uuid::Uuid::now_v7().as_u128()
}

/// Relies on `uuid::Uuid::new_v8`: the bits are kept but for the version
/// field, set to 8, and the variant field.
#[verifier::external_body]
fn uuid_new_v8(bits: u128) -> (r: u128)
    ensures
        r == custom_uuid(bits),
{
    uuid::Uuid::new_v8(bits.to_be_bytes()).as_u128()
}

/// The outcome of creating a UUID-backed identifier with the prefix `p`,
/// whose suffix must satisfy `suffix_ok`.
pub open spec fn prefixed_uuid_ok(
    p: Seq<u8>,
    r: Result<DynamicStrongId<Uuid>, Error>,
    suffix_ok: spec_fn(u128) -> bool,
) -> bool {
    match map_prefix_spec(p, false) {
        Ok(q) => r is Ok && r->Ok_0@.0 == Some(q) && suffix_ok(r->Ok_0@.1@),
        Err(e) => r is Err && r->Err_0@ == e,
    }
}

impl DynamicStrongId<Uuid> {
    /// A UUID-backed identifier with a prefix, from a 128-bit value.
    pub fn from_u128(prefix: Prefix, v: u128) -> (r: Result<Self, Error>)
        ensures
            prefixed_uuid_ok(prefix@, r, |u: u128| u == v),
    {
        match map_prefix(prefix, false) {
            Ok(p) => Ok(DynamicStrongId::from_valid_prefix(p, Uuid { bits: v })),
            Err(e) => Err(e),
        }
    }

    /// A UUID-backed identifier without a prefix, from a 128-bit value.
    pub fn from_u128_plain(v: u128) -> (r: Self)
        ensures
            r@.0 is None && r@.1@ == v,
    {
        Self::new_plain(Uuid { bits: v })
    }

    /// A prefixed identifier holding the version 1 UUID for a time and node id.
    pub fn new_v1(prefix: Prefix, ts: Timestamp, node_id: &[u8; 6]) -> (r: Result<Self, Error>)
        ensures
            prefixed_uuid_ok(
                prefix@,
                r,
                |u: u128| u == uuid_v1_of(ts.seconds, ts.subsec_nanos, ts.counter, node_id@),
            ),
    {
        match map_prefix(prefix, false) {
            Ok(p) => Ok(DynamicStrongId::from_valid_prefix(p, Uuid { bits: uuid_new_v1(ts, node_id) })),
            Err(e) => Err(e),
        }
    }

    /// An identifier without a prefix holding the version 1 UUID for a time and node id.
    pub fn new_v1_plain(ts: Timestamp, node_id: &[u8; 6]) -> (r: Self)
        ensures
            r@.0 is None && r@.1@ == uuid_v1_of(ts.seconds, ts.subsec_nanos, ts.counter, node_id@),
    {
        Self::new_plain(Uuid { bits: uuid_new_v1(ts, node_id) })
    }

    /// A prefixed identifier holding a version 1 UUID for the current time.
    pub fn now_v1(prefix: Prefix, node_id: &[u8; 6]) -> (r: Result<Self, Error>)
        ensures
            prefixed_uuid_ok(
                prefix@,
                r,
                |u: u128| stamped(u, 1) && u % 0x1_0000_0000_0000 == be_value(node_id@),
            ),
    {
        match map_prefix(prefix, false) {
            Ok(p) => Ok(DynamicStrongId::from_valid_prefix(p, Uuid { bits: uuid_now_v1(node_id) })),
            Err(e) => Err(e),
        }
    }

    /// An identifier without a prefix holding a version 1 UUID for the current time.
    pub fn now_v1_plain(node_id: &[u8; 6]) -> (r: Self)
        ensures
            r@.0 is None && stamped(r@.1@, 1) && r@.1@ % 0x1_0000_0000_0000 == be_value(node_id@),
    {
        Self::new_plain(Uuid { bits: uuid_now_v1(node_id) })
    }

    /// A prefixed identifier holding the version 3 UUID of a name.
    pub fn new_v3(prefix: Prefix, namespace: &Uuid, name: &[u8]) -> (r: Result<Self, Error>)
        ensures
            prefixed_uuid_ok(prefix@, r, |u: u128| u == uuid_v3_of(namespace@, name@)),
    {
        match map_prefix(prefix, false) {
            Ok(p) => Ok(DynamicStrongId::from_valid_prefix(p, Uuid { bits: uuid_new_v3(namespace.bits, name) })),
            Err(e) => Err(e),
        }
    }

    /// An identifier without a prefix holding the version 3 UUID of a name.
    pub fn new_v3_plain(namespace: &Uuid, name: &[u8]) -> (r: Self)
        ensures
            r@.0 is None && r@.1@ == uuid_v3_of(namespace@, name@),
    {
        Self::new_plain(Uuid { bits: uuid_new_v3(namespace.bits, name) })
    }

    /// A prefixed identifier holding a random version 4 UUID.
    pub fn new_v4(prefix: Prefix) -> (r: Result<Self, Error>)
        ensures
            prefixed_uuid_ok(prefix@, r, |u: u128| stamped(u, 4)),
    {
        match map_prefix(prefix, false) {
            Ok(p) => Ok(DynamicStrongId::from_valid_prefix(p, Uuid { bits: uuid_new_v4() })),
            Err(e) => Err(e),
        }
    }

    /// An identifier without a prefix holding a random version 4 UUID.
    pub fn new_v4_plain() -> (r: Self)
        ensures
            r@.0 is None && stamped(r@.1@, 4),
    {
        Self::new_plain(Uuid { bits: uuid_new_v4() })
    }

    /// A prefixed identifier holding the version 5 UUID of a name.
    pub fn new_v5(prefix: Prefix, namespace: &Uuid, name: &[u8]) -> (r: Result<Self, Error>)
        ensures
            prefixed_uuid_ok(prefix@, r, |u: u128| u == uuid_v5_of(namespace@, name@)),
    {
        match map_prefix(prefix, false) {
            Ok(p) => Ok(DynamicStrongId::from_valid_prefix(p, Uuid { bits: uuid_new_v5(namespace.bits, name) })),
            Err(e) => Err(e),
        }
    }

    /// An identifier without a prefix holding the version 5 UUID of a name.
    pub fn new_v5_plain(namespace: &Uuid, name: &[u8]) -> (r: Self)
        ensures
            r@.0 is None && r@.1@ == uuid_v5_of(namespace@, name@),
    {
        Self::new_plain(Uuid { bits: uuid_new_v5(namespace.bits, name) })
    }

    /// A prefixed identifier holding the version 6 UUID for a time and node id.
    pub fn new_v6(prefix: Prefix, ts: Timestamp, node_id: &[u8; 6]) -> (r: Result<Self, Error>)
        ensures
            prefixed_uuid_ok(
                prefix@,
                r,
                |u: u128| u == uuid_v6_of(ts.seconds, ts.subsec_nanos, ts.counter, node_id@),
            ),
    {
        match map_prefix(prefix, false) {
            Ok(p) => Ok(DynamicStrongId::from_valid_prefix(p, Uuid { bits: uuid_new_v6(ts, node_id) })),
            Err(e) => Err(e),
        }
    }

    /// An identifier without a prefix holding the version 6 UUID for a time and node id.
    pub fn new_v6_plain(ts: Timestamp, node_id: &[u8; 6]) -> (r: Self)
        ensures
            r@.0 is None && r@.1@ == uuid_v6_of(ts.seconds, ts.subsec_nanos, ts.counter, node_id@),
    {
        Self::new_plain(Uuid { bits: uuid_new_v6(ts, node_id) })
    }

    /// A prefixed identifier holding a version 6 UUID for the current time.
    pub fn now_v6(prefix: Prefix, node_id: &[u8; 6]) -> (r: Result<Self, Error>)
        ensures
            prefixed_uuid_ok(
                prefix@,
                r,
                |u: u128| stamped(u, 6) && u % 0x1_0000_0000_0000 == be_value(node_id@),
            ),
    {
        match map_prefix(prefix, false) {
            Ok(p) => Ok(DynamicStrongId::from_valid_prefix(p, Uuid { bits: uuid_now_v6(node_id) })),
            Err(e) => Err(e),
        }
    }

    /// An identifier without a prefix holding a version 6 UUID for the current time.
    pub fn now_v6_plain(node_id: &[u8; 6]) -> (r: Self)
        ensures
            r@.0 is None && stamped(r@.1@, 6) && r@.1@ % 0x1_0000_0000_0000 == be_value(node_id@),
    {
        Self::new_plain(Uuid { bits: uuid_now_v6(node_id) })
    }

    /// A prefixed identifier holding a version 7 UUID for the given time.
    pub fn new_v7(prefix: Prefix, ts: Timestamp) -> (r: Result<Self, Error>)
        ensures
            prefixed_uuid_ok(prefix@, r, |u: u128| stamped(u, 7)),
    {
        match map_prefix(prefix, false) {
            Ok(p) => Ok(DynamicStrongId::from_valid_prefix(p, Uuid { bits: uuid_new_v7(ts) })),
            Err(e) => Err(e),
        }
    }

    /// An identifier without a prefix holding a version 7 UUID for the given time.
    pub fn new_v7_plain(ts: Timestamp) -> (r: Self)
        ensures
            r@.0 is None && stamped(r@.1@, 7),
    {
        Self::new_plain(Uuid { bits: uuid_new_v7(ts) })
    }

    /// A prefixed identifier holding a version 7 UUID for the current time.
    pub fn now_v7(prefix: Prefix) -> (r: Result<Self, Error>)
        ensures
            prefixed_uuid_ok(prefix@, r, |u: u128| stamped(u, 7)),
    {
        match map_prefix(prefix, false) {
            Ok(p) => Ok(DynamicStrongId::from_valid_prefix(p, Uuid { bits: uuid_now_v7() })),
            Err(e) => Err(e),
        }
    }

    /// An identifier without a prefix holding a version 7 UUID for the current time.
    pub fn now_v7_plain() -> (r: Self)
        ensures
            r@.0 is None && stamped(r@.1@, 7),
    {
        Self::new_plain(Uuid { bits: uuid_now_v7() })
    }

    /// A prefixed identifier holding the version 8 UUID made from `buf`.
    pub fn new_v8(prefix: Prefix, buf: [u8; 16]) -> (r: Result<Self, Error>)
        ensures
            prefixed_uuid_ok(prefix@, r, |u: u128| u == custom_uuid(be_value(buf@) as u128)),
    {
        let bits = crate::base32::read_be(&buf);
        match map_prefix(prefix, false) {
            Ok(p) => Ok(DynamicStrongId::from_valid_prefix(p, Uuid { bits: uuid_new_v8(bits) })),
            Err(e) => Err(e),
        }
    }

    /// An identifier without a prefix holding the version 8 UUID made from `buf`.
    pub fn new_v8_plain(buf: [u8; 16]) -> (r: Self)
        ensures
            r@.0 is None && r@.1@ == custom_uuid(be_value(buf@) as u128),
    {
        let bits = crate::base32::read_be(&buf);
        Self::new_plain(Uuid { bits: uuid_new_v8(bits) })
    }
}

} // verus!

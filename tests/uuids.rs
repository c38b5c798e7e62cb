use strong_id::{DynamicStrongId, Error, Id, StrongId, Timestamp, Uuid};

const NAMESPACE_DNS: u128 = 0x6ba7b810_9dad_11d1_80b4_00c04fd430c8;

fn version(v: u128) -> u128 {
    (v >> 76) & 0xf
}

fn variant(v: u128) -> u128 {
    (v >> 62) & 0x3
}

#[test]
fn typeid_text_of_uuid() {
    let id = DynamicStrongId::<Uuid>::from_u128("user".into(), 0x01894668_3f8f_7f45_8a1a_ca0760618c67)
        .unwrap();
    assert_eq!(id.to_string(), "user_01h536gfwffx2rm6pa0xg63337");
    let parsed = "user_01h536gfwffx2rm6pa0xg63337"
        .parse::<DynamicStrongId<Uuid>>()
        .unwrap();
    assert_eq!(parsed, id);
    assert_eq!(Uuid::from(parsed).as_u128(), 0x01894668_3f8f_7f45_8a1a_ca0760618c67);
}

#[test]
fn uuid_round_trip_and_overflow() {
    let max = Uuid::from_u128(u128::MAX);
    assert_eq!(max.encode(), "7zzzzzzzzzzzzzzzzzzzzzzzzz");
    assert_eq!(Uuid::decode(&max.encode()), Ok(max));
    assert_eq!(
        Uuid::decode("8zzzzzzzzzzzzzzzzzzzzzzzzz"),
        Err(Error::Base32Error(strong_id::Base32Error::InvalidFirstByte))
    );
}

#[test]
fn from_u128_plain_has_no_prefix() {
    let id = DynamicStrongId::<Uuid>::from_u128_plain(1);
    assert_eq!(id.prefix(), None);
    assert_eq!(id.to_string(), "00000000000000000000000001");
}

#[test]
fn invalid_prefix_rejected_before_generation() {
    assert_eq!(
        DynamicStrongId::<Uuid>::new_v4("Bad".into()).unwrap_err(),
        Error::IncorrectPrefixCharacter('B')
    );
    assert_eq!(
        DynamicStrongId::<Uuid>::now_v7("".into()).unwrap_err(),
        Error::PrefixExpected
    );
}

#[test]
fn v3_and_v5_name_based() {
    let ns = Uuid::from_u128(NAMESPACE_DNS);
    let v3 = DynamicStrongId::<Uuid>::new_v3_plain(&ns, b"example.org");
    assert_eq!(v3.id().as_u128(), 0x04738bdf_b25a_3829_a801_b21a1d25095b);
    let v5 = DynamicStrongId::<Uuid>::new_v5_plain(&ns, b"example.org");
    assert_eq!(v5.id().as_u128(), 0xaad03681_8b63_5304_89e0_8ca8f49461b5);
    let p3 = DynamicStrongId::<Uuid>::new_v3("dns".into(), &ns, b"example.org").unwrap();
    assert_eq!(p3.id(), v3.id());
    assert_eq!(p3.prefix(), Some("dns"));
    let p5 = DynamicStrongId::<Uuid>::new_v5("dns".into(), &ns, b"example.org").unwrap();
    assert_eq!(p5.id(), v5.id());
}

#[test]
fn v4_random() {
    let a = DynamicStrongId::<Uuid>::new_v4_plain();
    let b = DynamicStrongId::<Uuid>::new_v4("user".into()).unwrap();
    for id in [a.id().as_u128(), b.id().as_u128()] {
        assert_eq!(version(id), 4);
        assert_eq!(variant(id), 2);
    }
    assert_ne!(a.id(), b.id());
}

#[test]
fn v7_time_ordered() {
    let a = DynamicStrongId::<Uuid>::now_v7_plain();
    let b = DynamicStrongId::<Uuid>::now_v7("user".into()).unwrap();
    assert_eq!(version(a.id().as_u128()), 7);
    assert_eq!(variant(b.id().as_u128()), 2);
    assert_eq!(b.to_string().len(), "user_".len() + 26);
    let ts = Timestamp::from_unix_time(1_497_624_119, 1234, 0, 0);
    let c = DynamicStrongId::<Uuid>::new_v7_plain(ts);
    let d = DynamicStrongId::<Uuid>::new_v7("user".into(), ts).unwrap();
    assert_eq!(version(c.id().as_u128()), 7);
    assert_eq!(version(d.id().as_u128()), 7);
}

#[test]
fn v1_and_v6_carry_node_id() {
    let node = [1u8, 2, 3, 4, 5, 6];
    let ts = Timestamp::from_unix_time(1_497_624_119, 1234, 7, 14);
    let a = DynamicStrongId::<Uuid>::new_v1_plain(ts, &node);
    let b = DynamicStrongId::<Uuid>::new_v1("node".into(), ts, &node).unwrap();
    assert_eq!(a.id(), b.id());
    assert_eq!(version(a.id().as_u128()), 1);
    assert_eq!(a.id().as_u128() & 0xffff_ffff_ffff, 0x0102_0304_0506);
    let c = DynamicStrongId::<Uuid>::new_v6_plain(ts, &node);
    let d = DynamicStrongId::<Uuid>::new_v6("node".into(), ts, &node).unwrap();
    assert_eq!(c.id(), d.id());
    assert_eq!(version(c.id().as_u128()), 6);
    assert_eq!(c.id().as_u128() & 0xffff_ffff_ffff, 0x0102_0304_0506);
    let e = DynamicStrongId::<Uuid>::now_v1_plain(&node);
    let f = DynamicStrongId::<Uuid>::now_v6("node".into(), &node).unwrap();
    assert_eq!(version(e.id().as_u128()), 1);
    assert_eq!(version(f.id().as_u128()), 6);
    assert_eq!(f.id().as_u128() & 0xffff_ffff_ffff, 0x0102_0304_0506);
    let g = DynamicStrongId::<Uuid>::now_v1("node".into(), &node).unwrap();
    let h = DynamicStrongId::<Uuid>::now_v6_plain(&node);
    assert_eq!(variant(g.id().as_u128()), 2);
    assert_eq!(variant(h.id().as_u128()), 2);
}

#[test]
fn v8_sets_version_and_variant() {
    let a = DynamicStrongId::<Uuid>::new_v8_plain([0xff; 16]);
    assert_eq!(a.id().as_u128(), 0xffffffff_ffff_8fff_bfff_ffffffffffff);
    let b = DynamicStrongId::<Uuid>::new_v8("custom".into(), [0; 16]).unwrap();
    assert_eq!(b.id().as_u128(), 0x00000000_0000_8000_8000_000000000000);
}

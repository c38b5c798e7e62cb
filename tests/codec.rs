use strong_id::base32::{decode, encode};
use strong_id::{Base32Error, Error, Id};

#[test]
fn encode_u16_value() {
    let mut out = [0u8; 4];
    encode(&[0x01, 0x2d], &mut out);
    assert_eq!(&out, b"009d");
}

#[test]
fn decode_u16_value() {
    let mut out = [0u8; 2];
    assert_eq!(decode(b"009d", &mut out), Ok(()));
    assert_eq!(out, [0x01, 0x2d]);
}

#[test]
fn decode_error_leaves_output_alone() {
    let mut out = [7u8; 2];
    assert_eq!(decode(b"0l0u", &mut out), Err(Base32Error::InvalidByte));
    assert_eq!(out, [7, 7]);
    assert_eq!(decode(b"2000", &mut out), Err(Base32Error::InvalidFirstByte));
    assert_eq!(out, [7, 7]);
}

#[test]
fn first_character_judged_first() {
    let mut out = [0u8; 2];
    assert_eq!(decode(b"l000", &mut out), Err(Base32Error::InvalidByte));
    assert_eq!(decode(b"z00l", &mut out), Err(Base32Error::InvalidFirstByte));
    assert_eq!(decode(b"100l", &mut out), Err(Base32Error::InvalidByte));
}

#[test]
fn round_trip_every_width() {
    for v in [0u8, 1, 31, 32, 200, u8::MAX] {
        assert_eq!(u8::decode(&v.encode()), Ok(v));
    }
    for v in [0u16, 301, 1024, u16::MAX] {
        assert_eq!(u16::decode(&v.encode()), Ok(v));
    }
    for v in [0u32, 301, 1 << 20, u32::MAX] {
        assert_eq!(u32::decode(&v.encode()), Ok(v));
    }
    for v in [0u64, 301, 1 << 40, u64::MAX] {
        assert_eq!(u64::decode(&v.encode()), Ok(v));
    }
    for v in [0u128, 301, 1 << 100, u128::MAX] {
        assert_eq!(u128::decode(&v.encode()), Ok(v));
    }
    for v in [0usize, 301, usize::MAX] {
        assert_eq!(usize::decode(&v.encode()), Ok(v));
    }
}

#[test]
fn encodings_have_fixed_length() {
    assert_eq!(0u8.encode(), "00");
    assert_eq!(u8::MAX.encode(), "7z");
    assert_eq!(1u32.encode(), "0000001");
    assert_eq!(0u64.encode().len(), 13);
    assert_eq!(u128::MAX.encode(), "7zzzzzzzzzzzzzzzzzzzzzzzzz");
    assert_eq!(1u128.encode(), "00000000000000000000000001");
}

#[test]
fn encodings_sort_as_values() {
    let values = [0u16, 1, 9, 10, 31, 32, 301, 1000, 40000, u16::MAX];
    for pair in values.windows(2) {
        assert!(pair[0].encode() < pair[1].encode());
    }
}

#[test]
fn overflowing_first_digit_is_rejected() {
    assert_eq!(
        u16::decode("2000"),
        Err(Error::Base32Error(Base32Error::InvalidFirstByte))
    );
    assert_eq!(u16::decode("1zzz"), Ok(u16::MAX));
    assert_eq!(
        u128::decode("80000000000000000000000000"),
        Err(Error::Base32Error(Base32Error::InvalidFirstByte))
    );
    assert_eq!(
        u8::decode("80"),
        Err(Error::Base32Error(Base32Error::InvalidFirstByte))
    );
}

#[test]
fn decode_length_checked_first() {
    assert_eq!(u32::decode("zz"), Err(Error::InvalidLength(7, 2)));
    assert_eq!(u32::decode(""), Err(Error::InvalidLength(7, 0)));
}

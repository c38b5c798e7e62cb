use std::fmt;
use std::str::FromStr;
use strong_id::{format_fixed, parse_fixed, Base32Error, Error};

#[derive(Copy, Clone, Debug, Eq, PartialEq, Hash, Ord, PartialOrd)]
struct PrefixU32 {
    suffix: u32,
}

impl PrefixU32 {
    const PREFIX: Option<&'static str> = Some("prefix");

    fn prefix(&self) -> Option<&str> {
        Self::PREFIX
    }

    fn id(&self) -> &u32 {
        &self.suffix
    }
}

impl From<u32> for PrefixU32 {
    fn from(suffix: u32) -> Self {
        Self { suffix }
    }
}

impl fmt::Display for PrefixU32 {
    fn fmt(&self, f: &mut fmt::Formatter<'_>) -> fmt::Result {
        f.write_str(&format_fixed(Self::PREFIX, &self.suffix))
    }
}

impl FromStr for PrefixU32 {
    type Err = Error;

    fn from_str(value: &str) -> Result<Self, Error> {
        parse_fixed::<u32>(value, Self::PREFIX).map(|suffix| Self { suffix })
    }
}

#[derive(Copy, Clone, Debug, Eq, PartialEq, Hash, Ord, PartialOrd)]
struct NoPrefixU16 {
    suffix: u16,
}

impl NoPrefixU16 {
    const PREFIX: Option<&'static str> = None;

    fn prefix(&self) -> Option<&str> {
        Self::PREFIX
    }

    fn id(&self) -> &u16 {
        &self.suffix
    }
}

impl From<u16> for NoPrefixU16 {
    fn from(suffix: u16) -> Self {
        Self { suffix }
    }
}

impl fmt::Display for NoPrefixU16 {
    fn fmt(&self, f: &mut fmt::Formatter<'_>) -> fmt::Result {
        f.write_str(&format_fixed(Self::PREFIX, &self.suffix))
    }
}

impl FromStr for NoPrefixU16 {
    type Err = Error;

    fn from_str(value: &str) -> Result<Self, Error> {
        parse_fixed::<u16>(value, Self::PREFIX).map(|suffix| Self { suffix })
    }
}

#[test]
fn u32_prefix_valid() {
    assert_eq!(PrefixU32::from(0).prefix(), Some("prefix"));

    let cases = vec![
        ("prefix_0000000", u32::MIN),
        ("prefix_3zzzzzz", u32::MAX),
        ("prefix_000009d", 301),
    ];

    for (text, value) in cases {
        let id = PrefixU32::from(value);
        assert_eq!(&format!("{id}"), text);
        assert_eq!(*id.id(), value);

        let parsed = text.parse::<PrefixU32>().unwrap();
        assert_eq!(parsed.suffix, value);
        assert_eq!(*parsed.id(), value);
    }
}

#[test]
fn u32_prefix_invalid() {
    let cases = vec![
        ("0000000", Error::MissingPrefix("prefix".into())),
        ("000009d", Error::MissingPrefix("prefix".into())),
        ("3zzzzzz", Error::MissingPrefix("prefix".into())),
        ("prefix_0000000000", Error::InvalidLength(7, 10)),
        (
            "prefix_zzzzzzz",
            Error::Base32Error(Base32Error::InvalidFirstByte),
        ),
        (
            "prefix_z000000",
            Error::Base32Error(Base32Error::InvalidFirstByte),
        ),
        ("prefix_09d", Error::InvalidLength(7, 3)),
        ("zzzzzzz", Error::MissingPrefix("prefix".into())),
        (
            "dyn_3000000",
            Error::InvalidPrefix("prefix".into(), "dyn".into()),
        ),
    ];

    for (text, expected) in cases {
        let error = text.parse::<PrefixU32>().unwrap_err();
        assert_eq!(error, expected);
    }
}

#[test]
fn u16_no_prefix_valid() {
    assert_eq!(NoPrefixU16::from(0).prefix(), None);

    let cases = vec![("0000", u16::MIN), ("1zzz", u16::MAX), ("009d", 301)];

    for (text, value) in cases {
        let id = NoPrefixU16::from(value);
        assert_eq!(&format!("{id}"), text);
        assert_eq!(*id.id(), value);

        let parsed = text.parse::<NoPrefixU16>().unwrap();
        assert_eq!(parsed.suffix, value);
        assert_eq!(*parsed.id(), value);
    }
}

#[test]
fn u16_no_prefix_invalid() {
    let cases = vec![
        ("00000", Error::InvalidLength(4, 5)),
        ("prefix_00000", Error::NoPrefixExpected("prefix".into())),
        ("zzzz", Error::Base32Error(Base32Error::InvalidFirstByte)),
        ("z000", Error::Base32Error(Base32Error::InvalidFirstByte)),
        ("09d", Error::InvalidLength(4, 3)),
    ];

    for (text, expected) in cases {
        let error = text.parse::<NoPrefixU16>().unwrap_err();
        assert_eq!(error, expected);
    }
}

#[test]
fn fixed_prefix_round_trip() {
    for value in [0u32, 1, 301, 65536, u32::MAX] {
        let text = format_fixed(Some("a_b"), &value);
        assert_eq!(parse_fixed::<u32>(&text, Some("a_b")), Ok(value));
        let plain = format_fixed(None, &value);
        assert_eq!(parse_fixed::<u32>(&plain, None), Ok(value));
    }
}

#[test]
fn fixed_prefix_empty_left_part() {
    assert_eq!(
        parse_fixed::<u16>("_0000", Some("prefix")),
        Err(Error::MissingPrefix("prefix".into()))
    );
    assert_eq!(
        parse_fixed::<u16>("_0000", None),
        Err(Error::NoPrefixExpected("".into()))
    );
}

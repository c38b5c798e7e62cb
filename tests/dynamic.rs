use strong_id::{Base32Error, DynamicStrongId, Error, Prefix, StrongId};

struct ValidCase<T>(Option<Prefix>, &'static str, T);

fn check_valid<T>(cases: Vec<ValidCase<T>>)
where
    T: strong_id::Id + Copy + PartialEq + std::fmt::Debug,
{
    for case in cases {
        let id = match &case.0 {
            Some(prefix) => DynamicStrongId::new(prefix.clone(), case.2).unwrap(),
            None => DynamicStrongId::new_plain(case.2),
        };
        assert_eq!(&id.to_string(), case.1);
        assert_eq!(*id.id(), case.2);

        let parsed = case.1.parse::<DynamicStrongId<T>>().unwrap();
        assert_eq!(*parsed.id(), case.2);
        assert_eq!(parsed.prefix().map(Prefix::from), case.0);
        assert_eq!(*parsed.id(), case.2);
    }
}

#[test]
fn valid_u32() {
    check_valid(vec![
        ValidCase(Some("dyn".into()), "dyn_0000000", u32::MIN),
        ValidCase(Some("dyn".into()), "dyn_3zzzzzz", u32::MAX),
        ValidCase(Some("dyn".into()), "dyn_000009d", 301),
        ValidCase(None, "000009d", 301),
        ValidCase(None, "3zzzzzz", u32::MAX),
        ValidCase(None, "0000000", u32::MIN),
    ]);
}

#[test]
fn valid_u16() {
    check_valid(vec![
        ValidCase(Some("dyn".into()), "dyn_0000", u16::MIN),
        ValidCase(Some("dyn".into()), "dyn_1zzz", u16::MAX),
        ValidCase(Some("dyn".into()), "dyn_009d", 301),
        ValidCase(None, "009d", 301),
        ValidCase(None, "1zzz", u16::MAX),
        ValidCase(None, "0000", u16::MIN),
    ]);
}

#[test]
fn valid_usize() {
    check_valid(vec![
        ValidCase(Some("dyn".into()), "dyn_0000000000000", usize::MIN),
        ValidCase(Some("dyn".into()), "dyn_fzzzzzzzzzzzz", usize::MAX),
        ValidCase(Some("dyn".into()), "dyn_000000000009d", 301),
        ValidCase(None, "000000000009d", 301),
        ValidCase(None, "fzzzzzzzzzzzz", usize::MAX),
        ValidCase(None, "0000000000000", usize::MIN),
    ]);
}

#[test]
fn invalid_usize() {
    let cases = vec![
        ("dyn_0000000000", Error::InvalidLength(13, 10)),
        (
            "dyn_zzzzzzzzzzzzz",
            Error::Base32Error(Base32Error::InvalidFirstByte),
        ),
        (
            "dyn_z000000000000",
            Error::Base32Error(Base32Error::InvalidFirstByte),
        ),
        ("09d", Error::InvalidLength(13, 3)),
        (
            "zzzzzzzzzzzzz",
            Error::Base32Error(Base32Error::InvalidFirstByte),
        ),
        ("0000000000", Error::InvalidLength(13, 10)),
    ];
    for (text, expected) in cases {
        let error = text.parse::<DynamicStrongId<usize>>().unwrap_err();
        assert_eq!(error, expected);
    }
}

#[test]
fn invalid_u8() {
    let cases = vec![
        ("dyn_000", Error::InvalidLength(2, 3)),
        ("dyn_8f", Error::Base32Error(Base32Error::InvalidFirstByte)),
        ("dyn_zz", Error::Base32Error(Base32Error::InvalidFirstByte)),
        ("09d", Error::InvalidLength(2, 3)),
        ("8f", Error::Base32Error(Base32Error::InvalidFirstByte)),
        ("000", Error::InvalidLength(2, 3)),
        ("0l", Error::Base32Error(Base32Error::InvalidByte)),
        ("Case_00", Error::IncorrectPrefixCharacter('C')),
        ("00numeric_00", Error::IncorrectPrefixCharacter('0')),
        ("case0_00", Error::IncorrectPrefixCharacter('0')),
    ];
    for (text, expected) in cases {
        let error = text.parse::<DynamicStrongId<u8>>().unwrap_err();
        assert_eq!(error, expected);
    }
}

#[test]
fn grammar_prefix_and_plain_parse() {
    let id = "prefix_000009d".parse::<DynamicStrongId<u32>>().unwrap();
    assert_eq!(id.prefix(), Some("prefix"));
    assert_eq!(*id.id(), 301);
    assert_eq!(id.to_string(), "prefix_000009d");

    let plain = "009d".parse::<DynamicStrongId<u16>>().unwrap();
    assert_eq!(plain.prefix(), None);
    assert_eq!(*plain.id(), 301);
    assert_eq!(plain.to_string(), "009d");
}

#[test]
fn last_underscore_split_when_delimited() {
    let id = DynamicStrongId::<u16>::parse_delimited("multi_part_0000").unwrap();
    assert_eq!(id.prefix(), Some("multi_part"));
    assert_eq!(*id.id(), 0);
    assert_eq!(id.to_string(), "multi_part_0000");

    let strict = DynamicStrongId::<u16>::parse("multi_part_0000").unwrap_err();
    assert_eq!(strict, Error::IncorrectPrefixCharacter('_'));
}

#[test]
fn length_mismatch_for_u16() {
    let error = "0000000000".parse::<DynamicStrongId<u16>>().unwrap_err();
    assert_eq!(error, Error::InvalidLength(4, 10));
}

#[test]
fn parse_of_format_is_identity() {
    let ids = vec![
        DynamicStrongId::<u64>::new("user".into(), 0).unwrap(),
        DynamicStrongId::<u64>::new("user".into(), u64::MAX).unwrap(),
        DynamicStrongId::<u64>::new_plain(1234567890123),
    ];
    for id in ids {
        let parsed = id.to_string().parse::<DynamicStrongId<u64>>().unwrap();
        assert_eq!(parsed, id);
    }
    let delimited = DynamicStrongId::<u128>::new_delimited("a_b".into(), 77).unwrap();
    let parsed = DynamicStrongId::<u128>::parse_delimited(&delimited.to_string()).unwrap();
    assert_eq!(parsed, delimited);
}

#[test]
fn prefix_validation_errors() {
    let long = "a".repeat(64);
    assert_eq!(
        DynamicStrongId::<u8>::new(Prefix::from(long.as_str()), 1).unwrap_err(),
        Error::PrefixTooLong(64)
    );
    let longest = "a".repeat(63);
    assert!(DynamicStrongId::<u8>::new(Prefix::from(longest), 1).is_ok());
    assert_eq!(
        DynamicStrongId::<u8>::new("".into(), 1).unwrap_err(),
        Error::PrefixExpected
    );
    assert_eq!(
        DynamicStrongId::<u8>::new("User".into(), 1).unwrap_err(),
        Error::IncorrectPrefixCharacter('U')
    );
    assert_eq!(
        DynamicStrongId::<u8>::new("a_b".into(), 1).unwrap_err(),
        Error::IncorrectPrefixCharacter('_')
    );
    assert!(DynamicStrongId::<u8>::new_delimited("a_b".into(), 1).is_ok());
}

#[test]
fn missing_prefix_before_underscore() {
    assert_eq!(
        "_00".parse::<DynamicStrongId<u8>>().unwrap_err(),
        Error::MissingPrefix("".into())
    );
    assert_eq!(
        "  _00".parse::<DynamicStrongId<u8>>().unwrap_err(),
        Error::MissingPrefix("  ".into())
    );
    assert_eq!(
        " a_00".parse::<DynamicStrongId<u8>>().unwrap_err(),
        Error::IncorrectPrefixCharacter(' ')
    );
}

#[test]
fn non_ascii_prefix_reports_first_byte() {
    assert_eq!(
        "é_00".parse::<DynamicStrongId<u8>>().unwrap_err(),
        Error::IncorrectPrefixCharacter(0xc3u8 as char)
    );
}

#[test]
fn prefix_checked_before_suffix() {
    assert_eq!(
        "Bad_zzzz".parse::<DynamicStrongId<u16>>().unwrap_err(),
        Error::IncorrectPrefixCharacter('B')
    );
}

#[test]
fn assert_prefix_valid_checks_bytes() {
    assert!(strong_id::assert_prefix_valid("user", false));
    assert!(strong_id::assert_prefix_valid("", false));
    assert!(!strong_id::assert_prefix_valid("user_account", false));
    assert!(strong_id::assert_prefix_valid("user_account", true));
    assert!(!strong_id::assert_prefix_valid("USER", true));
    assert!(!strong_id::assert_prefix_valid(&"a".repeat(64), false));
}

#[test]
fn map_prefix_keeps_valid_text() {
    let p = strong_id::map_prefix("user".into(), false).unwrap();
    assert_eq!(p.as_str(), "user");
    assert_eq!(
        strong_id::map_prefix("us3r".into(), false).unwrap_err(),
        Error::IncorrectPrefixCharacter('3')
    );
}

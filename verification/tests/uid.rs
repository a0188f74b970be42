use ctf_codec::{Error, Uid};

#[test]
fn uid_test_try_from() {
    assert_eq!(Uid::default(), Uid::try_from("DEADBEEF8BADF00D").unwrap());
}

#[test]
fn uid_test_format() {
    assert_eq!("DEADBEEF8BADF00D", Uid::default().to_hex());
}

#[test]
fn uid_test_pack() {
    assert_eq!(
        [0xDE, 0xAD, 0xBE, 0xEF, 0x8B, 0xAD, 0xF0, 0x0D],
        Uid::default().pack()
    );
}

#[test]
fn uid_test_unpack() {
    assert_eq!(
        Uid::default(),
        Uid::unpack(&[0xDE, 0xAD, 0xBE, 0xEF, 0x8B, 0xAD, 0xF0, 0x0D])
    );
}

#[test]
fn uid_parses_either_case() {
    assert_eq!(Uid::default(), Uid::try_from("deadbeef8badf00d").unwrap());
    assert_eq!(Uid::from(0x0123456789ABCDEFu64), Uid::try_from("0123456789abcdef").unwrap());
}

#[test]
fn uid_rejects_text_that_is_not_hexadecimal() {
    assert!(matches!(Uid::try_from("XYZ45678DEADBEEF"), Err(Error::Decode(_))));
    // An odd number of characters is a decode failure as well.
    assert!(matches!(Uid::try_from("DEADBEEF8BADF00"), Err(Error::Decode(_))));
}

#[test]
fn uid_rejects_hexadecimal_of_the_wrong_length() {
    assert!(matches!(Uid::try_from("DEAD"), Err(Error::Convert(_))));
    assert!(matches!(Uid::try_from(""), Err(Error::Convert(_))));
    assert!(matches!(Uid::try_from("DEADBEEF8BADF00D00"), Err(Error::Convert(_))));
}

#[test]
fn uid_text_round_trips() {
    for v in [0u64, 1, 0xFF, 0x0123456789ABCDEF, u64::MAX] {
        let u = Uid::from(v);
        assert_eq!(u, Uid::try_from(u.to_hex().as_str()).unwrap());
    }
    assert_eq!("0000000000000000", Uid::from(0u64).to_hex());
    assert_eq!("FFFFFFFFFFFFFFFF", Uid::from(u64::MAX).to_hex());
}

#[test]
fn uid_bytes_round_trip() {
    for v in [0u64, 1, 0xDEADBEEF8BADF00D, u64::MAX] {
        let u = Uid::from(v);
        assert_eq!(u, Uid::unpack(&u.pack()));
        assert_eq!(v, u.to_u64());
    }
}

#[test]
fn uid_converts_to_and_from_the_signed_width() {
    assert_eq!(-1i64, Uid::from(u64::MAX).to_i64());
    assert_eq!(Uid::from(u64::MAX), Uid::from(-1i64));
    assert_eq!(42u64, Uid::from(42i64).to_u64());
}

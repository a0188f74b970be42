use ctf_codec::{Error, Vid};

#[test]
fn vid_test_try_from() {
    assert_eq!(Vid::default(), Vid::try_from("FFFF").unwrap());
}

#[test]
fn vid_test_format() {
    assert_eq!("FFFF", Vid::default().to_hex());
}

#[test]
fn vid_test_pack() {
    assert_eq!([0xFF, 0xFF], Vid::default().pack());
}

#[test]
fn vid_test_unpack() {
    assert_eq!(Vid::default(), Vid::unpack(&[0xFF, 0xFF]));
}

#[test]
fn vid_parses_either_case() {
    assert_eq!(Vid::from(0xABCDu16), Vid::try_from("abcd").unwrap());
    assert_eq!(Vid::from(0xABCDu16), Vid::try_from("ABCD").unwrap());
}

#[test]
fn vid_rejects_text_that_is_not_hexadecimal() {
    assert!(matches!(Vid::try_from("WXYZ"), Err(Error::Decode(_))));
    // An odd number of characters is a decode failure as well.
    assert!(matches!(Vid::try_from("FFF"), Err(Error::Decode(_))));
}

#[test]
fn vid_rejects_hexadecimal_of_the_wrong_length() {
    assert!(matches!(Vid::try_from("FF"), Err(Error::Convert(_))));
    assert!(matches!(Vid::try_from(""), Err(Error::Convert(_))));
    assert!(matches!(Vid::try_from("FFFFFF"), Err(Error::Convert(_))));
}

#[test]
fn vid_text_round_trips() {
    for v in [0u16, 1, 0xFF, 0x1234, u16::MAX] {
        let x = Vid::from(v);
        assert_eq!(x, Vid::try_from(x.to_hex().as_str()).unwrap());
    }
    assert_eq!("0000", Vid::from(0u16).to_hex());
    assert_eq!("1234", Vid::from(0x1234u16).to_hex());
}

#[test]
fn vid_bytes_round_trip() {
    for v in [0u16, 1, 0xABCD, u16::MAX] {
        let x = Vid::from(v);
        assert_eq!(x, Vid::unpack(&x.pack()));
        assert_eq!(v, x.to_u16());
    }
    assert_eq!([0x12, 0x34], Vid::from(0x1234u16).pack());
}

#[test]
fn vid_converts_to_and_from_the_signed_width() {
    assert_eq!(-1i16, Vid::from(u16::MAX).to_i16());
    assert_eq!(Vid::from(u16::MAX), Vid::from(-1i16));
    assert_eq!(42u16, Vid::from(42i16).to_u16());
}

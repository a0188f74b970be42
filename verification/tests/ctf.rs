use ctf_codec::Ctf;

#[test]
fn test_ctf() {
    assert_eq!(0usize, Ctf::default().into());
    assert_eq!([0x00], Ctf::default().pack());

    assert_eq!(507904usize, Ctf::saturated().into());
    assert_eq!([0xFF], Ctf::saturated().pack());

    assert_eq!([(0u8 << 5) | 0], Ctf::floor(0).pack());
    assert_eq!([(0u8 << 5) | 1], Ctf::floor(1).pack());
    assert_eq!([(0u8 << 5) | 31], Ctf::floor(31).pack());
    assert_eq!([(1u8 << 5) | 8], Ctf::floor(32).pack());
    assert_eq!([(1u8 << 5) | 8], Ctf::floor(33).pack());
    assert_eq!([(1u8 << 5) | 8], Ctf::floor(34).pack());
    assert_eq!([(1u8 << 5) | 8], Ctf::floor(35).pack());
    assert_eq!([(1u8 << 5) | 9], Ctf::floor(36).pack());

    assert_eq!([(3u8 << 5) | 16], Ctf::floor(1024).pack());

    assert_eq!(960usize, Ctf::floor(1023).into());
    assert_eq!(1024usize, Ctf::floor(1024).into());
    assert_eq!(1024usize, Ctf::floor(1025).into());
    assert_eq!(1024usize, Ctf::ceil(1023).into());
    assert_eq!(1024usize, Ctf::ceil(1024).into());
    assert_eq!(1088usize, Ctf::ceil(1025).into());
}

#[test]
fn small_magnitudes_are_exact() {
    for v in 0usize..=31 {
        assert_eq!(v, Ctf::floor(v).decode());
        assert_eq!(v, Ctf::ceil(v).decode());
        assert_eq!(Ctf::floor(v), Ctf::ceil(v));
    }
}

#[test]
fn floor_and_ceil_bracket_the_magnitude() {
    for v in 0usize..=5000 {
        assert!(Ctf::floor(v).decode() <= v);
        assert!(v <= Ctf::ceil(v).decode());
    }
    for v in 500000usize..=507904 {
        assert!(Ctf::floor(v).decode() <= v);
        assert!(v <= Ctf::ceil(v).decode());
    }
}

#[test]
fn floor_and_ceil_are_monotone() {
    let mut last_floor = 0usize;
    let mut last_ceil = 0usize;
    for v in 0usize..=20000 {
        let f = Ctf::floor(v).decode();
        let c = Ctf::ceil(v).decode();
        assert!(last_floor <= f);
        assert!(last_ceil <= c);
        last_floor = f;
        last_ceil = c;
    }
}

#[test]
fn exactly_representable_magnitudes_round_to_themselves() {
    for m in 0usize..=31 {
        for e in 0u32..=7 {
            let v = m * 4usize.pow(e);
            assert_eq!(v, Ctf::floor(v).decode());
            assert_eq!(v, Ctf::ceil(v).decode());
            assert_eq!(Ctf::floor(v), Ctf::ceil(v));
        }
    }
}

#[test]
fn magnitudes_at_or_past_the_top_saturate() {
    assert_eq!(507904usize, Ctf::saturated().decode());
    assert_eq!([0xFF], Ctf::saturated().pack());
    for v in [507904usize, 507905, 600000, 1 << 30, usize::MAX] {
        assert_eq!([0xFF], Ctf::floor(v).pack());
        assert_eq!([0xFF], Ctf::ceil(v).pack());
        assert_eq!(507904usize, Ctf::floor(v).decode());
        assert_eq!(507904usize, Ctf::ceil(v).decode());
    }
}

#[test]
fn every_byte_survives_an_unpack_pack_round_trip() {
    for b in 0u8..=255 {
        assert_eq!([b], Ctf::unpack(&[b]).pack());
    }
}

#[test]
fn equality_compares_decoded_magnitudes() {
    // Mantissa 16 at exponent 1 and mantissa 4 at exponent 2 both decode
    // to 64, under distinct bit patterns.
    let a = Ctf::unpack(&[(1u8 << 5) | 16]);
    let b = Ctf::unpack(&[(2u8 << 5) | 4]);
    assert_eq!(64usize, a.decode());
    assert_eq!(64usize, b.decode());
    assert_ne!(a.pack(), b.pack());
    assert_eq!(a, b);
    assert_ne!(Ctf::floor(31), Ctf::floor(32));
}

#[test]
fn ceil_rolls_the_mantissa_over_at_scale_boundaries() {
    // Just past 31 * 4^e the ceiling is mantissa 8 at exponent e + 1.
    assert_eq!([(1u8 << 5) | 8], Ctf::ceil(32).pack());
    assert_eq!(128usize, Ctf::ceil(125).decode());
    assert_eq!([(2u8 << 5) | 8], Ctf::ceil(125).pack());
    assert_eq!(512usize, Ctf::ceil(497).decode());
    assert_eq!([(3u8 << 5) | 8], Ctf::ceil(509).pack());
}

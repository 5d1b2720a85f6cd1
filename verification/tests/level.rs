use yell_guard::level::Dbfs;

fn db(x: f32) -> Dbfs {
    Dbfs::from_bits(x.to_bits())
}

fn samples() -> Vec<f32> {
    vec![
        f32::NEG_INFINITY,
        -120.0,
        -18.0,
        -17.999,
        -1.0,
        -f32::MIN_POSITIVE,
        -0.0,
        0.0,
        f32::MIN_POSITIVE,
        1.5,
        f32::MAX,
        f32::INFINITY,
        f32::NAN,
        -f32::NAN,
    ]
}

#[test]
fn bits_round_trip() {
    for x in samples() {
        assert_eq!(db(x).to_bits(), x.to_bits());
    }
    for key in [0u32, 1, 0x007F_FFFF, 0x7FFF_FFFF, 0x8000_0000, 0xC1900000, u32::MAX] {
        let d = Dbfs { key };
        assert_eq!(Dbfs::from_bits(d.to_bits()), d);
    }
}

#[test]
fn ge_is_float_ge() {
    for a in samples() {
        for b in samples() {
            assert_eq!(db(a).ge(db(b)), a >= b, "{a} >= {b}");
        }
    }
}

#[test]
fn max_is_float_max() {
    for a in samples() {
        for b in samples() {
            let m = f32::from_bits(db(a).max(db(b)).to_bits());
            let expected = a.max(b);
            if expected.is_nan() {
                assert!(m.is_nan());
            } else {
                assert_eq!(m, expected, "max({a}, {b})");
            }
        }
    }
}

#[test]
fn nan_and_infinity() {
    assert!(db(f32::NAN).is_nan());
    assert!(db(-f32::NAN).is_nan());
    assert!(!db(f32::INFINITY).is_nan());
    assert_eq!(f32::from_bits(Dbfs::neg_infinity().to_bits()), f32::NEG_INFINITY);
    assert!(db(-120.0).key > Dbfs::neg_infinity().key);
}

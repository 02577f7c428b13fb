use zkfl::field::Scalar;

const MODULUS_LE: [u8; 32] = [
    1, 0, 0, 240, 147, 245, 225, 67, 145, 112, 185, 121, 72, 232, 51, 40, 93, 88, 129, 129, 182,
    69, 80, 184, 41, 160, 49, 225, 114, 78, 100, 48,
];

fn modulus_minus_one() -> Scalar {
    let mut bytes = MODULUS_LE;
    bytes[0] = 0;
    Scalar::from_repr(bytes).unwrap()
}

#[test]
fn from_u64_encodes_little_endian() {
    let r = Scalar::from_u64(0x0102_0304_0506_0708).to_repr();
    let mut expected = [0u8; 32];
    expected[..8].copy_from_slice(&[8, 7, 6, 5, 4, 3, 2, 1]);
    assert_eq!(r, expected);
}

#[test]
fn from_u64_of_max() {
    let r = Scalar::from_u64(u64::MAX).to_repr();
    let mut expected = [0u8; 32];
    expected[..8].copy_from_slice(&[255; 8]);
    assert_eq!(r, expected);
}

#[test]
fn zero_is_all_zero_bytes() {
    assert_eq!(Scalar::zero().to_repr(), [0u8; 32]);
}

#[test]
fn add_small_values() {
    let r = Scalar::from_u64(5).add(&Scalar::from_u64(7));
    assert_eq!(r, Scalar::from_u64(12));
}

#[test]
fn add_wraps_at_the_modulus() {
    let r = modulus_minus_one().add(&Scalar::from_u64(1));
    assert_eq!(r, Scalar::zero());
    let r = modulus_minus_one().add(&Scalar::from_u64(3));
    assert_eq!(r, Scalar::from_u64(2));
}

#[test]
fn mul_small_values() {
    let r = Scalar::from_u64(6).mul(&Scalar::from_u64(7));
    assert_eq!(r, Scalar::from_u64(42));
}

#[test]
fn mul_of_minus_one_by_itself_is_one() {
    let m = modulus_minus_one();
    assert_eq!(m.mul(&m), Scalar::from_u64(1));
}

#[test]
fn mul_of_large_values() {
    // (2^64 - 1)^2 = 2^128 - 2^65 + 1, below the modulus.
    let m = Scalar::from_u64(u64::MAX);
    let mut expected = [0u8; 32];
    expected[0] = 1;
    for b in expected[8..16].iter_mut() {
        *b = 255;
    }
    expected[8] = 254;
    assert_eq!(m.mul(&m).to_repr(), expected);
}

#[test]
fn from_repr_rejects_the_modulus() {
    assert!(Scalar::from_repr(MODULUS_LE).is_none());
    assert!(Scalar::from_repr([255u8; 32]).is_none());
}

#[test]
fn from_repr_accepts_below_the_modulus() {
    let mut bytes = MODULUS_LE;
    bytes[0] = 0;
    let s = Scalar::from_repr(bytes).unwrap();
    assert_eq!(s.to_repr(), bytes);
    let mut small = [0u8; 32];
    small[0] = 9;
    assert_eq!(Scalar::from_repr(small).unwrap(), Scalar::from_u64(9));
}

#[test]
fn less_than_compares_values() {
    assert!(Scalar::from_u64(255).less_than(&Scalar::from_u64(256)));
    assert!(!Scalar::from_u64(256).less_than(&Scalar::from_u64(255)));
    assert!(!Scalar::from_u64(7).less_than(&Scalar::from_u64(7)));
    assert!(Scalar::from_u64(u64::MAX).less_than(&modulus_minus_one()));
    assert!(Scalar::zero().less_than(&Scalar::from_u64(1)));
}

#[test]
fn equals_compares_values() {
    assert!(Scalar::from_u64(3).equals(&Scalar::from_u64(3)));
    assert!(!Scalar::from_u64(3).equals(&Scalar::from_u64(4)));
    assert!(modulus_minus_one().add(&Scalar::from_u64(1)).equals(&Scalar::zero()));
}

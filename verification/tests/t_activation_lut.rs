use ai_pow_vi::activation_lut::ActivationKind;
use ai_pow_vi::activation_lut::ActivationLut;
use ai_pow_vi::activation_lut::LutError;
#[test]
fn identity_round_trips() {
    let lut = ActivationLut::identity();
    for x in i8::MIN..=i8::MAX {
        assert_eq!(lut.lookup(x), x, "identity LUT mismatch at {x}");
    }
}

#[test]
fn from_bytes_rejects_bad_length() {
    assert_eq!(
        ActivationLut::from_bytes(ActivationKind::SiLU, &[0u8; 100]).err(),
        Some(LutError::WrongLength(100)),
    );
    assert!(ActivationLut::from_bytes(ActivationKind::SiLU, &[0u8; 256]).is_ok());
}

#[test]
fn round_trip_bytes() {
    let lut = ActivationLut::identity();
    let bytes = lut.to_bytes();
    let again = ActivationLut::from_bytes(ActivationKind::Identity, &bytes).unwrap();
    assert_eq!(lut, again);
}

#[test]
fn apply_in_place_matches_per_element() {
    let lut = ActivationLut::identity();
    let mut xs: Vec<i8> = vec![-50, -1, 0, 1, 50, 127, -128];
    let expected = xs.clone();
    lut.apply(&mut xs);
    assert_eq!(xs, expected);
}

#[test]
fn commitment_is_kind_sensitive() {
    let mut bytes = [0u8; 256];
    for (i, slot) in bytes.iter_mut().enumerate() {
        *slot = (i as u8).wrapping_sub(128);
    }
    let silu = ActivationLut::from_bytes(ActivationKind::SiLU, &bytes).unwrap();
    let gelu = ActivationLut::from_bytes(ActivationKind::GeLU, &bytes).unwrap();
    // Same LUT bytes but different kind tag must produce different
    // commitments — protects against a registry that mislabels a curve.
    assert_ne!(silu.commit(), gelu.commit());
}

#[test]
fn commitment_changes_on_one_byte_flip() {
    let lut_a = ActivationLut::identity();
    let mut bytes = lut_a.to_bytes();
    bytes[42] ^= 1;
    let lut_b = ActivationLut::from_bytes(ActivationKind::Identity, &bytes).unwrap();
    assert_ne!(lut_a.commit(), lut_b.commit());
}

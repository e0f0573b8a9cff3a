use precompiles::anemoi;
use precompiles::anon;
use precompiles::errors::Error;

fn be_word(v: u128) -> Vec<u8> {
    let mut w = vec![0u8; 32];
    w[16..32].copy_from_slice(&v.to_be_bytes());
    w
}

#[test]
fn anemoi_gas_rejects_short_payloads() {
    for len in 0..4 {
        let data = vec![0x73u8; len];
        assert_eq!(anemoi::gas(&data), Err(Error::WrongSelectorLength));
    }
}

#[test]
fn anemoi_compute_rejects_short_payloads() {
    for len in 0..4 {
        let data = vec![0x73u8; len];
        assert!(matches!(anemoi::compute(&data), Err(Error::WrongSelectorLength)));
    }
}

#[test]
fn anon_gas_rejects_short_payloads() {
    for len in 0..4 {
        let data = vec![0x29u8; len];
        assert_eq!(anon::gas(&data), Err(Error::WrongSelectorLength));
    }
}

#[test]
fn anon_verify_rejects_short_payloads() {
    for len in 0..4 {
        let data = vec![0x29u8; len];
        assert_eq!(anon::verify(&data), Err(Error::WrongSelectorLength));
    }
}

#[test]
fn zero_selector_is_unknown_everywhere() {
    let mut data = vec![0u8, 0, 0, 0];
    data.extend_from_slice(&be_word(5));
    assert_eq!(anemoi::gas(&data), Err(Error::UnknownSelector));
    assert!(matches!(anemoi::compute(&data), Err(Error::UnknownSelector)));
    assert_eq!(anon::gas(&data), Err(Error::UnknownSelector));
    assert_eq!(anon::verify(&data), Err(Error::UnknownSelector));
}

#[test]
fn unknown_selectors_are_rejected_by_both_entry_points() {
    for sel in [[0xffu8, 0xff, 0xff, 0xff], [0x73, 0x80, 0x82, 0x64], [0x01, 0x02, 0x03, 0x04]] {
        let data = sel.to_vec();
        assert_eq!(anemoi::gas(&data), Err(Error::UnknownSelector));
        assert!(matches!(anemoi::compute(&data), Err(Error::UnknownSelector)));
        assert_eq!(anon::gas(&data), Err(Error::UnknownSelector));
        assert_eq!(anon::verify(&data), Err(Error::UnknownSelector));
    }
}

#[test]
fn anemoi_gas_constants() {
    let mut jive = vec![0x73u8, 0x80, 0x82, 0x63];
    for v in 1..5u128 {
        jive.extend_from_slice(&be_word(v));
    }
    assert_eq!(anemoi::gas(&jive), Ok(anemoi::ANEMOI_EVAL_4));
    assert_eq!(anemoi::gas(&jive), Ok(400));

    let mut salts = vec![0x51u8, 0xde, 0xc0, 0x97];
    salts.extend_from_slice(&be_word(5));
    assert_eq!(anemoi::gas(&salts), Ok(anemoi::ANEMOI_SALT_GAS));
    assert_eq!(anemoi::gas(&salts), Ok(10));

    let mut hash = vec![0x47u8, 0xf3, 0xb0, 0x98];
    hash.extend_from_slice(&be_word(7));
    hash.extend_from_slice(&be_word(9));
    assert_eq!(anemoi::gas(&hash), Ok(anemoi::ANEMOI_HASH_GAS));
}

#[test]
fn anemoi_gas_needs_only_the_selector() {
    // The gas model inspects the selector alone: a payload whose tuple would
    // not decode is still priced.
    let data = vec![0x73u8, 0x80, 0x82, 0x63, 0x01];
    assert_eq!(anemoi::gas(&data), Ok(400));
    assert!(matches!(anemoi::compute(&data), Err(Error::ParseDataFailed)));
}

#[test]
fn error_codes_are_stable_and_nonzero() {
    assert_eq!(Error::WrongSelectorLength.code(), 1);
    assert_eq!(Error::UnknownSelector.code(), 2);
    assert_eq!(Error::ParseDataFailed.code(), 3);
    assert_eq!(Error::InputOutOfBound.code(), 4);
    assert_eq!(Error::MismatchedLengths.code(), 5);
}

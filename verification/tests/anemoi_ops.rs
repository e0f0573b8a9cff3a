use precompiles::anemoi::{self, ComputeRequest};
use precompiles::errors::Error;

fn be_word(v: u128) -> Vec<u8> {
    let mut w = vec![0u8; 32];
    w[16..32].copy_from_slice(&v.to_be_bytes());
    w
}

fn le_word(v: u128) -> Vec<u8> {
    let mut w = vec![0u8; 32];
    w[0..16].copy_from_slice(&v.to_le_bytes());
    w
}

fn salts_payload(index: u128) -> Vec<u8> {
    let mut data = vec![0x51u8, 0xde, 0xc0, 0x97];
    data.extend_from_slice(&be_word(index));
    data
}

// The scalar-field order, as little-endian bytes.
const MODULUS_LE: [u8; 32] = [
    0x01, 0x00, 0x00, 0xf0, 0x93, 0xf5, 0xe1, 0x43, 0x91, 0x70, 0xb9, 0x79, 0x48, 0xe8, 0x33,
    0x28, 0x5d, 0x58, 0x81, 0x81, 0xb6, 0x45, 0x50, 0xb8, 0x29, 0xa0, 0x31, 0xe1, 0x72, 0x4e,
    0x64, 0x30,
];

#[test]
fn salt_lookup_low_and_high_indices_succeed() {
    for index in [0u128, 5, 63] {
        match anemoi::compute(&salts_payload(index)) {
            Ok(ComputeRequest::SaltLookup { index: got }) => assert_eq!(got as u128, index),
            _ => panic!("expected a salt lookup request"),
        }
    }
}

#[test]
fn salt_lookup_index_64_is_out_of_bound() {
    assert!(matches!(
        anemoi::compute(&salts_payload(64)),
        Err(Error::InputOutOfBound)
    ));
    assert!(matches!(
        anemoi::compute(&salts_payload(u128::MAX)),
        Err(Error::InputOutOfBound)
    ));
}

#[test]
fn salt_lookup_failure_output_layout() {
    // Index 64 maps to the out-of-bound code in the trailing byte, with the
    // result word left all-zero.
    let out = anemoi::encode_failure(&Error::InputOutOfBound);
    assert_eq!(out.len(), 64);
    assert_eq!(out[63], Error::InputOutOfBound.code());
    for i in 0..63 {
        assert_eq!(out[i], 0);
    }
}

#[test]
fn salt_index_with_high_bits_in_the_word_fails_parsing() {
    // A uint128 slot whose upper 16 word bytes are nonzero is rejected.
    let mut data = vec![0x51u8, 0xde, 0xc0, 0x97];
    let mut w = vec![0u8; 32];
    w[3] = 1;
    w[31] = 5;
    data.extend_from_slice(&w);
    assert!(matches!(anemoi::compute(&data), Err(Error::ParseDataFailed)));
}

fn jive4_payload(words: [&[u8]; 4]) -> Vec<u8> {
    let mut data = vec![0x73u8, 0x80, 0x82, 0x63];
    for w in words {
        data.extend_from_slice(w);
    }
    data
}

#[test]
fn jive4_decodes_canonical_field_elements() {
    let (a, b, c, d) = (le_word(1), le_word(2), le_word(3), le_word(4));
    match anemoi::compute(&jive4_payload([&a, &b, &c, &d])) {
        Ok(ComputeRequest::Jive4 { x0, x1, y0, y1 }) => {
            assert_eq!(x0, a);
            assert_eq!(x1, b);
            assert_eq!(y0, c);
            assert_eq!(y1, d);
        },
        _ => panic!("expected a jive request"),
    }
}

#[test]
fn jive4_rejects_non_canonical_words() {
    let good = le_word(1);
    let bad = vec![0xffu8; 32];
    assert!(matches!(
        anemoi::compute(&jive4_payload([&good, &good, &good, &bad])),
        Err(Error::ParseDataFailed)
    ));
}

#[test]
fn jive4_rejects_the_field_order_itself_but_takes_its_predecessor() {
    let order = MODULUS_LE.to_vec();
    let good = le_word(1);
    assert!(matches!(
        anemoi::compute(&jive4_payload([&order, &good, &good, &good])),
        Err(Error::ParseDataFailed)
    ));
    let mut below = MODULUS_LE;
    below[0] = 0x00;
    let below = below.to_vec();
    assert!(matches!(
        anemoi::compute(&jive4_payload([&below, &good, &good, &good])),
        Ok(ComputeRequest::Jive4 { .. })
    ));
}

#[test]
fn jive4_rejects_truncated_tuples() {
    let a = le_word(1);
    let mut data = vec![0x73u8, 0x80, 0x82, 0x63];
    data.extend_from_slice(&a);
    data.extend_from_slice(&a);
    assert!(matches!(anemoi::compute(&data), Err(Error::ParseDataFailed)));
}

fn var_hash_payload(tag_word: &[u8], word: &[u8]) -> Vec<u8> {
    let mut data = vec![0x47u8, 0xf3, 0xb0, 0x98];
    data.extend_from_slice(tag_word);
    data.extend_from_slice(word);
    data
}

#[test]
fn var_hash_decodes_tag_and_word() {
    let w = le_word(9);
    match anemoi::compute(&var_hash_payload(&be_word(7), &w)) {
        Ok(ComputeRequest::VariableLengthHash { tag, word }) => {
            assert_eq!(tag, 7);
            assert_eq!(word, w);
        },
        _ => panic!("expected a hash request"),
    }
}

#[test]
fn var_hash_wide_tag_fails_instead_of_truncating() {
    // A 64-bit slot whose upper 192 bits are nonzero must fail parsing.
    let mut tag = be_word(7);
    tag[0] = 0x01;
    let w = le_word(9);
    assert!(matches!(
        anemoi::compute(&var_hash_payload(&tag, &w)),
        Err(Error::ParseDataFailed)
    ));
    let mut tag2 = be_word(7);
    tag2[23] = 0x01;
    assert!(matches!(
        anemoi::compute(&var_hash_payload(&tag2, &w)),
        Err(Error::ParseDataFailed)
    ));
}

#[test]
fn success_output_is_exactly_64_bytes() {
    let word = le_word(77);
    let out = anemoi::encode_result(&word);
    assert_eq!(out.len(), 64);
    assert_eq!(&out[0..32], &word[..]);
    for i in 32..64 {
        assert_eq!(out[i], 0);
    }
    assert_eq!(out[63], 0);
}

#[test]
fn failure_output_is_exactly_64_bytes_for_every_kind() {
    for e in [
        Error::WrongSelectorLength,
        Error::UnknownSelector,
        Error::ParseDataFailed,
        Error::InputOutOfBound,
        Error::MismatchedLengths,
    ] {
        let out = anemoi::encode_failure(&e);
        assert_eq!(out.len(), 64);
        assert_eq!(out[63], e.code());
        for i in 0..63 {
            assert_eq!(out[i], 0);
        }
    }
}

#[test]
fn identical_payloads_build_identical_requests() {
    let payload = jive4_payload([&le_word(10), &le_word(20), &le_word(30), &le_word(40)]);
    let first = match anemoi::compute(&payload) {
        Ok(ComputeRequest::Jive4 { x0, x1, y0, y1 }) => (x0, x1, y0, y1),
        _ => panic!("expected a jive request"),
    };
    let second = match anemoi::compute(&payload.clone()) {
        Ok(ComputeRequest::Jive4 { x0, x1, y0, y1 }) => (x0, x1, y0, y1),
        _ => panic!("expected a jive request"),
    };
    assert_eq!(first, second);
}

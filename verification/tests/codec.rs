use ethabi::ethereum_types::U256;
use ethabi::{ParamType, Token};
use precompiles::abi::{decode, ParamKind, Value};
use precompiles::errors::Error;

fn be_word(v: u128) -> Vec<u8> {
    let mut w = vec![0u8; 32];
    w[16..32].copy_from_slice(&v.to_be_bytes());
    w
}

#[test]
fn codec_decodes_a_mixed_tuple_encoded_by_a_reference_encoder() {
    let tokens = [
        Token::FixedBytes(vec![0x11; 32]),
        Token::Uint(U256::from(42u64)),
        Token::Bytes(vec![9, 8, 7]),
        Token::Array(vec![Token::Bytes(vec![1]), Token::Bytes(vec![2, 2])]),
    ];
    let data = ethabi::encode(&tokens);
    let schema = vec![ParamKind::Word, ParamKind::U64, ParamKind::Bytes, ParamKind::BytesArray];
    let vals = decode(&schema, &data).unwrap();
    assert_eq!(vals.len(), 4);
    match &vals[0] {
        Value::Word(w) => assert_eq!(w, &vec![0x11u8; 32]),
        _ => panic!("expected a word"),
    }
    match &vals[1] {
        Value::U64(x) => assert_eq!(*x, 42),
        _ => panic!("expected a 64-bit integer"),
    }
    match &vals[2] {
        Value::Bytes(b) => assert_eq!(b, &vec![9u8, 8, 7]),
        _ => panic!("expected bytes"),
    }
    match &vals[3] {
        Value::BytesArray(v) => assert_eq!(v, &vec![vec![1u8], vec![2u8, 2]]),
        _ => panic!("expected a bytes array"),
    }
}

#[test]
fn codec_agrees_with_a_reference_decoder_on_word_arrays() {
    let tokens = [Token::Array(vec![
        Token::FixedBytes(vec![0x01; 32]),
        Token::FixedBytes(vec![0x02; 32]),
    ])];
    let data = ethabi::encode(&tokens);
    let schema = vec![ParamKind::WordArray];
    let vals = decode(&schema, &data).unwrap();
    match &vals[0] {
        Value::WordArray(v) => {
            assert_eq!(v, &vec![vec![0x01u8; 32], vec![0x02u8; 32]]);
        },
        _ => panic!("expected a word array"),
    }
    let reference = ethabi::decode(
        &[ParamType::Array(Box::new(ParamType::FixedBytes(32)))],
        &data,
    )
    .unwrap();
    assert_eq!(reference, tokens.to_vec());
}

#[test]
fn codec_rejects_a_truncated_head() {
    let schema = vec![ParamKind::Word, ParamKind::Word];
    let data = vec![0u8; 63];
    assert_eq!(
        decode(&schema, &data).map(|_| ()),
        Err(Error::ParseDataFailed)
    );
}

#[test]
fn codec_rejects_an_offset_outside_the_buffer() {
    let schema = vec![ParamKind::Bytes];
    // The head word points at offset 64 of a 32-byte buffer.
    let data = be_word(64);
    assert_eq!(
        decode(&schema, &data).map(|_| ()),
        Err(Error::ParseDataFailed)
    );
}

#[test]
fn codec_rejects_a_length_outside_the_buffer() {
    let schema = vec![ParamKind::Bytes];
    let mut data = be_word(32);
    data.extend_from_slice(&be_word(1000));
    assert_eq!(
        decode(&schema, &data).map(|_| ()),
        Err(Error::ParseDataFailed)
    );
}

#[test]
fn codec_enforces_the_declared_integer_width() {
    let schema = vec![ParamKind::U128];
    let mut w = be_word(5);
    w[10] = 1;
    assert_eq!(decode(&schema, &w).map(|_| ()), Err(Error::ParseDataFailed));
    let ok = decode(&schema, &be_word(5)).unwrap();
    match &ok[0] {
        Value::U128(x) => assert_eq!(*x, 5),
        _ => panic!("expected a 128-bit integer"),
    }
}

#[test]
fn codec_decodes_u128_arrays_and_checks_each_element() {
    let tokens = [Token::Array(vec![
        Token::Uint(U256::from(3u64)),
        Token::Uint(U256::from(u128::MAX)),
    ])];
    let data = ethabi::encode(&tokens);
    let schema = vec![ParamKind::U128Array];
    let vals = decode(&schema, &data).unwrap();
    match &vals[0] {
        Value::U128Array(v) => assert_eq!(v, &vec![3u128, u128::MAX]),
        _ => panic!("expected an integer array"),
    }
    // The same array with one element exceeding 128 bits is rejected.
    let wide = [Token::Array(vec![Token::Uint(U256::from(1u64) << 130)])];
    let data = ethabi::encode(&wide);
    assert_eq!(
        decode(&schema, &data).map(|_| ()),
        Err(Error::ParseDataFailed)
    );
}

#[test]
fn codec_accepts_an_empty_tuple() {
    let schema: Vec<ParamKind> = vec![];
    let data: Vec<u8> = vec![];
    let vals = decode(&schema, &data).unwrap();
    assert_eq!(vals.len(), 0);
}

#[test]
fn codec_accepts_empty_dynamic_fields() {
    let tokens = [
        Token::Bytes(vec![]),
        Token::Array(Vec::<Token>::new()),
    ];
    let data = ethabi::encode(&tokens);
    let schema = vec![ParamKind::Bytes, ParamKind::WordArray];
    let vals = decode(&schema, &data).unwrap();
    match &vals[0] {
        Value::Bytes(b) => assert_eq!(b.len(), 0),
        _ => panic!("expected bytes"),
    }
    match &vals[1] {
        Value::WordArray(v) => assert_eq!(v.len(), 0),
        _ => panic!("expected a word array"),
    }
}

#[test]
fn codec_accepts_the_largest_value_of_a_declared_width() {
    let schema = vec![ParamKind::U64];
    let vals = decode(&schema, &be_word(u64::MAX as u128)).unwrap();
    match &vals[0] {
        Value::U64(x) => assert_eq!(*x, u64::MAX),
        _ => panic!("expected a 64-bit integer"),
    }
}

#[test]
fn codec_tolerates_trailing_bytes_after_the_tuple() {
    let schema = vec![ParamKind::Word];
    let mut data = be_word(3);
    data.extend_from_slice(&[0xab, 0xcd]);
    let vals = decode(&schema, &data).unwrap();
    match &vals[0] {
        Value::Word(w) => assert_eq!(w, &be_word(3)),
        _ => panic!("expected a word"),
    }
}

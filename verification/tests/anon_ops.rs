use ethabi::ethereum_types::U256;
use ethabi::Token;
use precompiles::anon::{self, Arguments};
use precompiles::errors::Error;

fn deposit_payload(
    commitments: usize,
    nullifiers: usize,
    amounts: usize,
    proofs: usize,
    aux: usize,
    metadata: usize,
) -> Vec<u8> {
    let words = |n: usize| Token::Array((0..n).map(|i| Token::FixedBytes(vec![i as u8; 32])).collect());
    let uints = |n: usize| Token::Array((0..n).map(|i| Token::Uint(U256::from(i as u64 + 5))).collect());
    let blobs = |n: usize| Token::Array((0..n).map(|i| Token::Bytes(vec![i as u8 + 1; 3])).collect());
    let tokens = [
        words(commitments),
        words(nullifiers),
        uints(amounts),
        blobs(proofs),
        blobs(aux),
        words(metadata),
    ];
    let mut data = vec![0x29u8, 0xef, 0xb1, 0x48];
    data.extend_from_slice(&ethabi::encode(&tokens));
    data
}

fn transfer_payload(inputs: usize, outputs: usize, memos: usize) -> Vec<u8> {
    let words = |n: usize| Token::Array((0..n).map(|i| Token::FixedBytes(vec![i as u8; 32])).collect());
    let blobs = |n: usize| Token::Array((0..n).map(|i| Token::Bytes(vec![i as u8 + 9; 4])).collect());
    let tokens = [
        Token::FixedBytes(vec![0xaa; 32]),
        Token::Uint(U256::from(1000u64)),
        words(inputs),
        words(outputs),
        Token::FixedBytes(vec![0xbb; 32]),
        Token::Bytes(vec![1, 2, 3, 4]),
        Token::Bytes(vec![5, 6]),
        blobs(memos),
        Token::FixedBytes(vec![0xcc; 32]),
        Token::Uint(U256::from(7u64)),
        Token::Uint(U256::from(8u64)),
        Token::FixedBytes(vec![0xdd; 32]),
    ];
    let mut data = vec![0xd0u8, 0xb8, 0x51, 0xef];
    data.extend_from_slice(&ethabi::encode(&tokens));
    data
}

fn ownership_payload() -> Vec<u8> {
    let tokens = [
        Token::Uint(U256::from(11u64)),
        Token::Uint(U256::from(22u64)),
        Token::Bytes(vec![1; 5]),
        Token::Bytes(vec![2; 6]),
        Token::Bytes(vec![3; 7]),
        Token::Bytes(vec![4; 8]),
        Token::FixedBytes(vec![0xee; 32]),
        Token::Bytes(vec![5; 9]),
    ];
    let mut data = vec![0x29u8, 0x7d, 0xb2, 0x29];
    data.extend_from_slice(&ethabi::encode(&tokens));
    data
}

#[test]
fn deposit_decodes_field_by_field() {
    let data = deposit_payload(2, 2, 2, 2, 2, 2);
    match Arguments::new(&data) {
        Ok(Arguments::Deposit(d)) => {
            assert_eq!(d.commitments.len(), 2);
            assert_eq!(d.commitments[0], vec![0u8; 32]);
            assert_eq!(d.commitments[1], vec![1u8; 32]);
            assert_eq!(d.amounts, vec![5u128, 6]);
            assert_eq!(d.proofs, vec![vec![1u8; 3], vec![2u8; 3]]);
            assert_eq!(d.aux, vec![vec![1u8; 3], vec![2u8; 3]]);
            assert_eq!(d.metadata.len(), 2);
        },
        _ => panic!("expected a deposit argument set"),
    }
}

#[test]
fn deposit_verifies_when_all_fields_are_parallel() {
    assert_eq!(anon::verify(&deposit_payload(3, 3, 3, 3, 3, 3)), Ok(()));
}

#[test]
fn deposit_with_mismatched_parallel_arrays_fails_the_structural_check() {
    // A malformed tuple fails before any proof bytes are ever examined.
    let data = deposit_payload(2, 1, 2, 2, 2, 2);
    assert_eq!(anon::verify(&data), Err(Error::MismatchedLengths));
    let data = deposit_payload(2, 2, 2, 1, 2, 2);
    assert_eq!(anon::verify(&data), Err(Error::MismatchedLengths));
    let args = Arguments::new(&deposit_payload(2, 2, 3, 2, 2, 2)).unwrap();
    assert_eq!(args.check(), Err(Error::MismatchedLengths));
}

#[test]
fn deposit_gas_grows_with_the_note_count() {
    assert_eq!(
        anon::gas(&deposit_payload(0, 0, 0, 0, 0, 0)),
        Ok(anon::DEPOSIT_GAS_BASE)
    );
    assert_eq!(
        anon::gas(&deposit_payload(2, 2, 2, 2, 2, 2)),
        Ok(anon::DEPOSIT_GAS_BASE + 2 * anon::DEPOSIT_GAS_PER_NOTE)
    );
    // Gas is priced before the structural check, so a mismatched tuple is
    // still priced by its commitments array.
    assert_eq!(
        anon::gas(&deposit_payload(2, 1, 2, 2, 2, 2)),
        Ok(anon::DEPOSIT_GAS_BASE + 2 * anon::DEPOSIT_GAS_PER_NOTE)
    );
}

#[test]
fn transfer_decodes_field_by_field() {
    let data = transfer_payload(2, 1, 1);
    match Arguments::new(&data) {
        Ok(Arguments::Transfer(t)) => {
            assert_eq!(t.root, vec![0xaa; 32]);
            let mut fee_word = vec![0u8; 32];
            fee_word[31] = 7;
            assert_eq!(t.fee, fee_word);
            assert_eq!(t.nullifiers.len(), 2);
            assert_eq!(t.commitments.len(), 1);
            assert_eq!(t.proof_bytes, vec![1, 2, 3, 4]);
            assert_eq!(t.ciphertext, vec![5, 6]);
            assert_eq!(t.memos, vec![vec![9u8; 4]]);
            assert_eq!(t.binding, vec![0xdd; 32]);
        },
        _ => panic!("expected a transfer argument set"),
    }
}

#[test]
fn transfer_requires_one_memo_per_output() {
    assert_eq!(anon::verify(&transfer_payload(2, 2, 2)), Ok(()));
    assert_eq!(
        anon::verify(&transfer_payload(2, 2, 1)),
        Err(Error::MismatchedLengths)
    );
}

#[test]
fn transfer_gas_grows_with_inputs_and_outputs() {
    assert_eq!(
        anon::gas(&transfer_payload(2, 3, 3)),
        Ok(anon::TRANSFER_GAS_BASE
            + 2 * anon::TRANSFER_GAS_PER_INPUT
            + 3 * anon::TRANSFER_GAS_PER_OUTPUT)
    );
}

#[test]
fn ownership_decodes_and_verifies() {
    let data = ownership_payload();
    match Arguments::new(&data) {
        Ok(Arguments::OwnerShip(o)) => {
            let mut amount_word = vec![0u8; 32];
            amount_word[31] = 11;
            assert_eq!(o.amount, amount_word);
            assert_eq!(o.proof_a, vec![1; 5]);
            assert_eq!(o.proof_d, vec![4; 8]);
            assert_eq!(o.root, vec![0xee; 32]);
            assert_eq!(o.extra, vec![5; 9]);
        },
        _ => panic!("expected an ownership argument set"),
    }
    assert_eq!(anon::verify(&data), Ok(()));
    assert_eq!(anon::gas(&data), Ok(anon::OWNERSHIP_GAS));
}

#[test]
fn anon_truncated_tuple_fails_parsing() {
    let mut data = ownership_payload();
    data.truncate(40);
    assert_eq!(anon::verify(&data), Err(Error::ParseDataFailed));
    assert_eq!(anon::gas(&data), Err(Error::ParseDataFailed));
}

#[test]
fn anon_status_output_is_exactly_one_byte() {
    let ok = anon::encode_status(&Ok(()));
    assert_eq!(ok, vec![0u8]);
    let err = anon::encode_status(&Err(Error::MismatchedLengths));
    assert_eq!(err.len(), 1);
    assert_eq!(err[0], Error::MismatchedLengths.code());
}

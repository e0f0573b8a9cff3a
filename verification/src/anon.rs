//! The anonymous-transaction precompile facade.
//!
//! Three verification operations, routed by a 4-byte selector: deposit,
//! transfer and ownership/withdrawal. This core owns the dispatch, the schema
//! decoding into typed argument sets, the structural invariants that must
//! hold before any proof is examined, and the size-dependent gas model; the
//! zero-knowledge proof verification itself is the host's cryptographic
//! delegate, which receives a fully decoded, structurally valid argument set.

use vstd::prelude::*;

verus! {

use crate::abi::{
    decode, read_selector, spec_decode, spec_selector, take_bytes, take_bytes_array, take_u128_array,
    take_word, take_word_array, AbiVal, ParamKind,
};
use crate::errors::{code_of, Error};
use vstd::slice::slice_subrange;

// Selector of `verify_deposit(bytes32[],bytes32[],uint128[],bytes[],bytes[],bytes32[])`.
pub const VERIFY_DEPOSIT_SELECTOR: u32 = 0x29efb148;

// Selector of `verify_transfer(bytes32,uint256,bytes32[],bytes32[],bytes32,bytes,bytes,bytes[],bytes32,uint256,uint256,bytes32)`.
pub const VERIFY_TRANSFER_SELECTOR: u32 = 0xd0b851ef;

// Selector of `verify_ownership(uint256,uint256,bytes,bytes,bytes,bytes,bytes32,bytes)`.
pub const VERIFY_WITHDRAW_SELECTOR: u32 = 0x297db229;

/// Gas charged for a deposit verification before any per-note work.
pub const DEPOSIT_GAS_BASE: u64 = 20000;

/// Gas charged for each deposited note.
pub const DEPOSIT_GAS_PER_NOTE: u64 = 6000;

/// Gas charged for a transfer verification before any per-note work.
pub const TRANSFER_GAS_BASE: u64 = 30000;

/// Gas charged for each spent input of a transfer.
pub const TRANSFER_GAS_PER_INPUT: u64 = 8000;

/// Gas charged for each created output of a transfer.
pub const TRANSFER_GAS_PER_OUTPUT: u64 = 8000;

/// Gas charged for an ownership verification.
pub const OWNERSHIP_GAS: u64 = 25000;

// === the decoded argument sets ===

/// The decoded arguments of a deposit verification: six parallel per-note
/// fields.
pub struct Deposit {
    pub commitments: Vec<Vec<u8>>,
    pub nullifiers: Vec<Vec<u8>>,
    pub amounts: Vec<u128>,
    pub proofs: Vec<Vec<u8>>,
    pub aux: Vec<Vec<u8>>,
    pub metadata: Vec<Vec<u8>>,
}

/// The decoded arguments of a transfer verification.
pub struct Transfer {
    pub root: Vec<u8>,
    pub public_value: Vec<u8>,
    pub nullifiers: Vec<Vec<u8>>,
    pub commitments: Vec<Vec<u8>>,
    pub public_key: Vec<u8>,
    pub proof_bytes: Vec<u8>,
    pub ciphertext: Vec<u8>,
    pub memos: Vec<Vec<u8>>,
    pub extra: Vec<u8>,
    pub fee: Vec<u8>,
    pub fee_limit: Vec<u8>,
    pub binding: Vec<u8>,
}

/// The decoded arguments of an ownership/withdrawal verification.
pub struct OwnerShip {
    pub amount: Vec<u8>,
    pub asset: Vec<u8>,
    pub proof_a: Vec<u8>,
    pub proof_b: Vec<u8>,
    pub proof_c: Vec<u8>,
    pub proof_d: Vec<u8>,
    pub root: Vec<u8>,
    pub extra: Vec<u8>,
}

/// One decoded argument set, tagged by its operation.
pub enum Arguments {
    Deposit(Deposit),
    Transfer(Transfer),
    OwnerShip(OwnerShip),
}

pub open spec fn deposit_schema() -> Seq<ParamKind> {
    seq![
        ParamKind::WordArray,
        ParamKind::WordArray,
        ParamKind::U128Array,
        ParamKind::BytesArray,
        ParamKind::BytesArray,
        ParamKind::WordArray,
    ]
}

pub open spec fn transfer_schema() -> Seq<ParamKind> {
    seq![
        ParamKind::Word,
        ParamKind::Word,
        ParamKind::WordArray,
        ParamKind::WordArray,
        ParamKind::Word,
        ParamKind::Bytes,
        ParamKind::Bytes,
        ParamKind::BytesArray,
        ParamKind::Word,
        ParamKind::Word,
        ParamKind::Word,
        ParamKind::Word,
    ]
}

pub open spec fn ownership_schema() -> Seq<ParamKind> {
    seq![
        ParamKind::Word,
        ParamKind::Word,
        ParamKind::Bytes,
        ParamKind::Bytes,
        ParamKind::Bytes,
        ParamKind::Bytes,
        ParamKind::Word,
        ParamKind::Bytes,
    ]
}

/// Whether a deposit argument set carries exactly the given decoded tuple.
pub open spec fn deposit_matches(d: Deposit, vals: Seq<AbiVal>) -> bool {
    &&& vals[0] == AbiVal::WordArray(d.commitments@.map_values(|e: Vec<u8>| e@))
    &&& vals[1] == AbiVal::WordArray(d.nullifiers@.map_values(|e: Vec<u8>| e@))
    &&& vals[2] == AbiVal::U128Array(d.amounts@)
    &&& vals[3] == AbiVal::BytesArray(d.proofs@.map_values(|e: Vec<u8>| e@))
    &&& vals[4] == AbiVal::BytesArray(d.aux@.map_values(|e: Vec<u8>| e@))
    &&& vals[5] == AbiVal::WordArray(d.metadata@.map_values(|e: Vec<u8>| e@))
}

/// Whether a transfer argument set carries exactly the given decoded tuple.
pub open spec fn transfer_matches(t: Transfer, vals: Seq<AbiVal>) -> bool {
    &&& vals[0] == AbiVal::Word(t.root@)
    &&& vals[1] == AbiVal::Word(t.public_value@)
    &&& vals[2] == AbiVal::WordArray(t.nullifiers@.map_values(|e: Vec<u8>| e@))
    &&& vals[3] == AbiVal::WordArray(t.commitments@.map_values(|e: Vec<u8>| e@))
    &&& vals[4] == AbiVal::Word(t.public_key@)
    &&& vals[5] == AbiVal::Bytes(t.proof_bytes@)
    &&& vals[6] == AbiVal::Bytes(t.ciphertext@)
    &&& vals[7] == AbiVal::BytesArray(t.memos@.map_values(|e: Vec<u8>| e@))
    &&& vals[8] == AbiVal::Word(t.extra@)
    &&& vals[9] == AbiVal::Word(t.fee@)
    &&& vals[10] == AbiVal::Word(t.fee_limit@)
    &&& vals[11] == AbiVal::Word(t.binding@)
}

/// Whether an ownership argument set carries exactly the given decoded tuple.
pub open spec fn ownership_matches(o: OwnerShip, vals: Seq<AbiVal>) -> bool {
    &&& vals[0] == AbiVal::Word(o.amount@)
    &&& vals[1] == AbiVal::Word(o.asset@)
    &&& vals[2] == AbiVal::Bytes(o.proof_a@)
    &&& vals[3] == AbiVal::Bytes(o.proof_b@)
    &&& vals[4] == AbiVal::Bytes(o.proof_c@)
    &&& vals[5] == AbiVal::Bytes(o.proof_d@)
    &&& vals[6] == AbiVal::Word(o.root@)
    &&& vals[7] == AbiVal::Bytes(o.extra@)
}

/// Whether an argument set is exactly what the payload decodes to.
pub open spec fn arguments_match(args: Arguments, data: Seq<u8>) -> bool {
    data.len() >= 4 && {
        let sel = spec_selector(data);
        let tail = data.skip(4);
        match args {
            Arguments::Deposit(d) => sel == VERIFY_DEPOSIT_SELECTOR && spec_decode(
                deposit_schema(),
                tail,
            ) is Some && deposit_matches(d, spec_decode(deposit_schema(), tail)->0),
            Arguments::Transfer(t) => sel == VERIFY_TRANSFER_SELECTOR && spec_decode(
                transfer_schema(),
                tail,
            ) is Some && transfer_matches(t, spec_decode(transfer_schema(), tail)->0),
            Arguments::OwnerShip(o) => sel == VERIFY_WITHDRAW_SELECTOR && spec_decode(
                ownership_schema(),
                tail,
            ) is Some && ownership_matches(o, spec_decode(ownership_schema(), tail)->0),
        }
    }
}

/// The exact failure that decoding a payload into an argument set reports,
/// or nothing when decoding succeeds.
pub open spec fn new_err(data: Seq<u8>) -> Option<Error> {
    if data.len() < 4 {
        Some(Error::WrongSelectorLength)
    } else {
        let sel = spec_selector(data);
        let tail = data.skip(4);
        if sel == VERIFY_DEPOSIT_SELECTOR {
            if spec_decode(deposit_schema(), tail) is Some {
                None
            } else {
                Some(Error::ParseDataFailed)
            }
        } else if sel == VERIFY_TRANSFER_SELECTOR {
            if spec_decode(transfer_schema(), tail) is Some {
                None
            } else {
                Some(Error::ParseDataFailed)
            }
        } else if sel == VERIFY_WITHDRAW_SELECTOR {
            if spec_decode(ownership_schema(), tail) is Some {
                None
            } else {
                Some(Error::ParseDataFailed)
            }
        } else {
            Some(Error::UnknownSelector)
        }
    }
}

/// The structural invariant that must hold before the host's proof verifier
/// is consulted: every per-note field of a deposit has one entry per note,
/// and a transfer carries one memo per created output.
pub open spec fn structural_ok(args: Arguments) -> bool {
    match args {
        Arguments::Deposit(d) => {
            &&& d.commitments@.len() == d.nullifiers@.len()
            &&& d.commitments@.len() == d.amounts@.len()
            &&& d.commitments@.len() == d.proofs@.len()
            &&& d.commitments@.len() == d.aux@.len()
            &&& d.commitments@.len() == d.metadata@.len()
        },
        Arguments::Transfer(t) => t.memos@.len() == t.commitments@.len(),
        Arguments::OwnerShip(_) => true,
    }
}

/// Caps a mathematical gas total at the integer limit.
pub open spec fn sat64(n: int) -> u64 {
    if n > u64::MAX {
        u64::MAX
    } else {
        n as u64
    }
}

/// The gas charged for one decoded argument set.
pub open spec fn gas_of(args: Arguments) -> u64 {
    match args {
        Arguments::Deposit(d) => sat64(
            DEPOSIT_GAS_BASE + DEPOSIT_GAS_PER_NOTE * d.commitments@.len(),
        ),
        Arguments::Transfer(t) => sat64(
            TRANSFER_GAS_BASE + TRANSFER_GAS_PER_INPUT * t.nullifiers@.len()
                + TRANSFER_GAS_PER_OUTPUT * t.commitments@.len(),
        ),
        Arguments::OwnerShip(_) => OWNERSHIP_GAS,
    }
}

// === decoding ===

/// Decodes the argument tuple of a deposit verification.
fn new_deposit(tail: &[u8]) -> (r: Result<Deposit, Error>)
    ensures
        match r {
            Ok(d) => spec_decode(deposit_schema(), tail@) is Some && deposit_matches(
                d,
                spec_decode(deposit_schema(), tail@)->0,
            ),
            Err(e) => spec_decode(deposit_schema(), tail@) is None && e == Error::ParseDataFailed,
        },
{
    let mut schema: Vec<ParamKind> = Vec::new();
    schema.push(ParamKind::WordArray);
    schema.push(ParamKind::WordArray);
    schema.push(ParamKind::U128Array);
    schema.push(ParamKind::BytesArray);
    schema.push(ParamKind::BytesArray);
    schema.push(ParamKind::WordArray);
    proof {
        assert(schema@ =~= deposit_schema());
    }
    let mut vals = match decode(&schema, tail) {
        Ok(vals) => vals,
        Err(e) => {
            return Err(e);
        },
    };
    proof {
        let vs = crate::abi::decode_vals(deposit_schema(), tail@);
        assert(vals@.map_values(|v: crate::abi::Value| v@) == vs);
        assert(vals@.map_values(|v: crate::abi::Value| v@).len() == vals@.len());
        assert(vals@.map_values(|v: crate::abi::Value| v@)[0] == vals@[0]@);
        assert(vals@.map_values(|v: crate::abi::Value| v@)[1] == vals@[1]@);
        assert(vals@.map_values(|v: crate::abi::Value| v@)[2] == vals@[2]@);
        assert(vals@.map_values(|v: crate::abi::Value| v@)[3] == vals@[3]@);
        assert(vals@.map_values(|v: crate::abi::Value| v@)[4] == vals@[4]@);
        assert(vals@.map_values(|v: crate::abi::Value| v@)[5] == vals@[5]@);
        assert(vs[0] is WordArray);
        assert(vs[1] is WordArray);
        assert(vs[2] is U128Array);
        assert(vs[3] is BytesArray);
        assert(vs[4] is BytesArray);
        assert(vs[5] is WordArray);
    }
    let metadata = take_word_array(&mut vals);
    let aux = take_bytes_array(&mut vals);
    let proofs = take_bytes_array(&mut vals);
    let amounts = take_u128_array(&mut vals);
    let nullifiers = take_word_array(&mut vals);
    let commitments = take_word_array(&mut vals);
    Ok(Deposit { commitments, nullifiers, amounts, proofs, aux, metadata })
}

/// Decodes the argument tuple of a transfer verification.
#[verifier::rlimit(60)]
fn new_transfer(tail: &[u8]) -> (r: Result<Transfer, Error>)
    ensures
        match r {
            Ok(t) => spec_decode(transfer_schema(), tail@) is Some && transfer_matches(
                t,
                spec_decode(transfer_schema(), tail@)->0,
            ),
            Err(e) => spec_decode(transfer_schema(), tail@) is None && e == Error::ParseDataFailed,
        },
{
    let mut schema: Vec<ParamKind> = Vec::new();
    schema.push(ParamKind::Word);
    schema.push(ParamKind::Word);
    schema.push(ParamKind::WordArray);
    schema.push(ParamKind::WordArray);
    schema.push(ParamKind::Word);
    schema.push(ParamKind::Bytes);
    schema.push(ParamKind::Bytes);
    schema.push(ParamKind::BytesArray);
    schema.push(ParamKind::Word);
    schema.push(ParamKind::Word);
    schema.push(ParamKind::Word);
    schema.push(ParamKind::Word);
    proof {
        assert(schema@ =~= transfer_schema());
    }
    let mut vals = match decode(&schema, tail) {
        Ok(vals) => vals,
        Err(e) => {
            return Err(e);
        },
    };
    proof {
        let vs = crate::abi::decode_vals(transfer_schema(), tail@);
        assert(vals@.map_values(|v: crate::abi::Value| v@) == vs);
        assert(vals@.map_values(|v: crate::abi::Value| v@).len() == vals@.len());
        assert(vals@.map_values(|v: crate::abi::Value| v@)[0] == vals@[0]@);
        assert(vals@.map_values(|v: crate::abi::Value| v@)[1] == vals@[1]@);
        assert(vals@.map_values(|v: crate::abi::Value| v@)[2] == vals@[2]@);
        assert(vals@.map_values(|v: crate::abi::Value| v@)[3] == vals@[3]@);
        assert(vals@.map_values(|v: crate::abi::Value| v@)[4] == vals@[4]@);
        assert(vals@.map_values(|v: crate::abi::Value| v@)[5] == vals@[5]@);
        assert(vals@.map_values(|v: crate::abi::Value| v@)[6] == vals@[6]@);
        assert(vals@.map_values(|v: crate::abi::Value| v@)[7] == vals@[7]@);
        assert(vals@.map_values(|v: crate::abi::Value| v@)[8] == vals@[8]@);
        assert(vals@.map_values(|v: crate::abi::Value| v@)[9] == vals@[9]@);
        assert(vals@.map_values(|v: crate::abi::Value| v@)[10] == vals@[10]@);
        assert(vals@.map_values(|v: crate::abi::Value| v@)[11] == vals@[11]@);
        assert(vs[0] is Word);
        assert(vs[1] is Word);
        assert(vs[2] is WordArray);
        assert(vs[3] is WordArray);
        assert(vs[4] is Word);
        assert(vs[5] is Bytes);
        assert(vs[6] is Bytes);
        assert(vs[7] is BytesArray);
        assert(vs[8] is Word);
        assert(vs[9] is Word);
        assert(vs[10] is Word);
        assert(vs[11] is Word);
    }
    let binding = take_word(&mut vals);
    let fee_limit = take_word(&mut vals);
    let fee = take_word(&mut vals);
    let extra = take_word(&mut vals);
    let memos = take_bytes_array(&mut vals);
    let ciphertext = take_bytes(&mut vals);
    let proof_bytes = take_bytes(&mut vals);
    let public_key = take_word(&mut vals);
    let commitments = take_word_array(&mut vals);
    let nullifiers = take_word_array(&mut vals);
    let public_value = take_word(&mut vals);
    let root = take_word(&mut vals);
    Ok(
        Transfer {
            root,
            public_value,
            nullifiers,
            commitments,
            public_key,
            proof_bytes,
            ciphertext,
            memos,
            extra,
            fee,
            fee_limit,
            binding,
        },
    )
}

/// Decodes the argument tuple of an ownership verification.
#[verifier::rlimit(60)]
fn new_ownership(tail: &[u8]) -> (r: Result<OwnerShip, Error>)
    ensures
        match r {
            Ok(o) => spec_decode(ownership_schema(), tail@) is Some && ownership_matches(
                o,
                spec_decode(ownership_schema(), tail@)->0,
            ),
            Err(e) => spec_decode(ownership_schema(), tail@) is None && e == Error::ParseDataFailed,
        },
{
    let mut schema: Vec<ParamKind> = Vec::new();
    schema.push(ParamKind::Word);
    schema.push(ParamKind::Word);
    schema.push(ParamKind::Bytes);
    schema.push(ParamKind::Bytes);
    schema.push(ParamKind::Bytes);
    schema.push(ParamKind::Bytes);
    schema.push(ParamKind::Word);
    schema.push(ParamKind::Bytes);
    proof {
        assert(schema@ =~= ownership_schema());
    }
    let mut vals = match decode(&schema, tail) {
        Ok(vals) => vals,
        Err(e) => {
            return Err(e);
        },
    };
    proof {
        let vs = crate::abi::decode_vals(ownership_schema(), tail@);
        assert(vals@.map_values(|v: crate::abi::Value| v@) == vs);
        assert(vals@.map_values(|v: crate::abi::Value| v@).len() == vals@.len());
        assert(vals@.map_values(|v: crate::abi::Value| v@)[0] == vals@[0]@);
        assert(vals@.map_values(|v: crate::abi::Value| v@)[1] == vals@[1]@);
        assert(vals@.map_values(|v: crate::abi::Value| v@)[2] == vals@[2]@);
        assert(vals@.map_values(|v: crate::abi::Value| v@)[3] == vals@[3]@);
        assert(vals@.map_values(|v: crate::abi::Value| v@)[4] == vals@[4]@);
        assert(vals@.map_values(|v: crate::abi::Value| v@)[5] == vals@[5]@);
        assert(vals@.map_values(|v: crate::abi::Value| v@)[6] == vals@[6]@);
        assert(vals@.map_values(|v: crate::abi::Value| v@)[7] == vals@[7]@);
        assert(vs[0] is Word);
        assert(vs[1] is Word);
        assert(vs[2] is Bytes);
        assert(vs[3] is Bytes);
        assert(vs[4] is Bytes);
        assert(vs[5] is Bytes);
        assert(vs[6] is Word);
        assert(vs[7] is Bytes);
    }
    let extra = take_bytes(&mut vals);
    let root = take_word(&mut vals);
    let proof_d = take_bytes(&mut vals);
    let proof_c = take_bytes(&mut vals);
    let proof_b = take_bytes(&mut vals);
    let proof_a = take_bytes(&mut vals);
    let asset = take_word(&mut vals);
    let amount = take_word(&mut vals);
    Ok(OwnerShip { amount, asset, proof_a, proof_b, proof_c, proof_d, root, extra })
}

impl Arguments {
    /// Dispatches a payload by its selector and decodes the remaining bytes
    /// under that operation's schema into a typed argument set.
    pub fn new(data: &[u8]) -> (r: Result<Arguments, Error>)
        ensures
            match r {
                Ok(args) => new_err(data@) is None && arguments_match(args, data@),
                Err(e) => new_err(data@) == Some(e),
            },
    {
        let dn = data.len();
        if dn < 4 {
            return Err(Error::WrongSelectorLength);
        }
        let sel = read_selector(data);
        let tail = slice_subrange(data, 4, dn);
        proof {
            assert(tail@ =~= data@.skip(4));
        }
        if sel == VERIFY_DEPOSIT_SELECTOR as u128 {
            match new_deposit(tail) {
                Ok(d) => Ok(Arguments::Deposit(d)),
                Err(e) => Err(e),
            }
        } else if sel == VERIFY_TRANSFER_SELECTOR as u128 {
            match new_transfer(tail) {
                Ok(t) => Ok(Arguments::Transfer(t)),
                Err(e) => Err(e),
            }
        } else if sel == VERIFY_WITHDRAW_SELECTOR as u128 {
            match new_ownership(tail) {
                Ok(o) => Ok(Arguments::OwnerShip(o)),
                Err(e) => Err(e),
            }
        } else {
            Err(Error::UnknownSelector)
        }
    }

    /// The structural stage of verification: succeeds exactly when the
    /// argument set satisfies its structural invariant, and fails before the
    /// host's cryptographic verifier is ever consulted. The proof
    /// verification itself is the host's delegate and happens only after
    /// this check has passed.
    pub fn check(self) -> (r: Result<(), Error>)
        ensures
            r == if structural_ok(self) {
                Ok::<(), Error>(())
            } else {
                Err::<(), Error>(Error::MismatchedLengths)
            },
    {
        match self {
            Arguments::Deposit(d) => {
                let n = d.commitments.len();
                if d.nullifiers.len() == n && d.amounts.len() == n && d.proofs.len() == n
                    && d.aux.len() == n && d.metadata.len() == n {
                    Ok(())
                } else {
                    Err(Error::MismatchedLengths)
                }
            },
            Arguments::Transfer(t) => {
                if t.memos.len() == t.commitments.len() {
                    Ok(())
                } else {
                    Err(Error::MismatchedLengths)
                }
            },
            Arguments::OwnerShip(_) => Ok(()),
        }
    }

    /// The gas charged for this argument set: a per-operation base plus a
    /// per-note amount for the dynamic fields, capped at the integer limit.
    pub fn gas(self) -> (g: u64)
        ensures
            g == gas_of(self),
    {
        match self {
            Arguments::Deposit(d) => {
                let total: u128 = DEPOSIT_GAS_BASE as u128 + (DEPOSIT_GAS_PER_NOTE as u128) * (
                d.commitments.len() as u128);
                if total > u64::MAX as u128 {
                    u64::MAX
                } else {
                    total as u64
                }
            },
            Arguments::Transfer(t) => {
                let total: u128 = TRANSFER_GAS_BASE as u128 + (TRANSFER_GAS_PER_INPUT as u128) * (
                t.nullifiers.len() as u128) + (TRANSFER_GAS_PER_OUTPUT as u128) * (
                t.commitments.len() as u128);
                if total > u64::MAX as u128 {
                    u64::MAX
                } else {
                    total as u64
                }
            },
            Arguments::OwnerShip(_) => OWNERSHIP_GAS,
        }
    }
}

// === the facade ===

/// The gas a payload is charged, decided by the selector and the sizes of
/// the decoded dynamic fields alone.
pub open spec fn gas_spec(data: Seq<u8>) -> Result<u64, Error> {
    if data.len() < 4 {
        Err(Error::WrongSelectorLength)
    } else {
        let sel = spec_selector(data);
        let tail = data.skip(4);
        if sel == VERIFY_DEPOSIT_SELECTOR {
            match spec_decode(deposit_schema(), tail) {
                Some(vals) => Ok(
                    sat64(
                        DEPOSIT_GAS_BASE + DEPOSIT_GAS_PER_NOTE * (vals[0]->WordArray_0).len(),
                    ),
                ),
                None => Err(Error::ParseDataFailed),
            }
        } else if sel == VERIFY_TRANSFER_SELECTOR {
            match spec_decode(transfer_schema(), tail) {
                Some(vals) => Ok(
                    sat64(
                        TRANSFER_GAS_BASE + TRANSFER_GAS_PER_INPUT * (vals[2]->WordArray_0).len()
                            + TRANSFER_GAS_PER_OUTPUT * (vals[3]->WordArray_0).len(),
                    ),
                ),
                None => Err(Error::ParseDataFailed),
            }
        } else if sel == VERIFY_WITHDRAW_SELECTOR {
            match spec_decode(ownership_schema(), tail) {
                Some(_) => Ok(OWNERSHIP_GAS),
                None => Err(Error::ParseDataFailed),
            }
        } else {
            Err(Error::UnknownSelector)
        }
    }
}

/// What verifying a payload reports: success exactly when the payload
/// decodes and its argument set is structurally sound; the proof itself is
/// then examined by the host's delegate.
pub open spec fn verify_spec(data: Seq<u8>) -> Result<(), Error> {
    if data.len() < 4 {
        Err(Error::WrongSelectorLength)
    } else {
        let sel = spec_selector(data);
        let tail = data.skip(4);
        if sel == VERIFY_DEPOSIT_SELECTOR {
            match spec_decode(deposit_schema(), tail) {
                Some(vals) => {
                    let n = (vals[0]->WordArray_0).len();
                    if (vals[1]->WordArray_0).len() == n && (vals[2]->U128Array_0).len() == n && (
                    vals[3]->BytesArray_0).len() == n && (vals[4]->BytesArray_0).len() == n && (
                    vals[5]->WordArray_0).len() == n {
                        Ok(())
                    } else {
                        Err(Error::MismatchedLengths)
                    }
                },
                None => Err(Error::ParseDataFailed),
            }
        } else if sel == VERIFY_TRANSFER_SELECTOR {
            match spec_decode(transfer_schema(), tail) {
                Some(vals) => {
                    if (vals[7]->BytesArray_0).len() == (vals[3]->WordArray_0).len() {
                        Ok(())
                    } else {
                        Err(Error::MismatchedLengths)
                    }
                },
                None => Err(Error::ParseDataFailed),
            }
        } else if sel == VERIFY_WITHDRAW_SELECTOR {
            match spec_decode(ownership_schema(), tail) {
                Some(_) => Ok(()),
                None => Err(Error::ParseDataFailed),
            }
        } else {
            Err(Error::UnknownSelector)
        }
    }
}

/// Pre-execution gas metering for the family: decodes the payload and prices
/// it, failing on exactly the payloads whose decoding fails.
pub fn gas(data: &[u8]) -> (r: Result<u64, Error>)
    ensures
        r == gas_spec(data@),
{
    let args = match Arguments::new(data) {
        Ok(args) => args,
        Err(e) => {
            return Err(e);
        },
    };
    Ok(args.gas())
}

/// The structural stage of running a verification call: decodes the payload
/// and checks the argument set's structural invariant; the host's proof
/// verifier runs only after this succeeds.
pub fn verify(data: &[u8]) -> (r: Result<(), Error>)
    ensures
        r == verify_spec(data@),
{
    let args = match Arguments::new(data) {
        Ok(args) => args,
        Err(e) => {
            return Err(e);
        },
    };
    match args.check() {
        Ok(_) => Ok(()),
        Err(e) => Err(e),
    }
}

/// Encodes a verification outcome into the family's 1-byte output: zero for
/// success, else the failure's wire code.
pub fn encode_status(r: &Result<(), Error>) -> (out: Vec<u8>)
    ensures
        out@.len() == 1,
        match r {
            Ok(_) => out@[0] == 0,
            Err(e) => out@[0] == code_of(*e),
        },
{
    let mut out: Vec<u8> = Vec::new();
    match r {
        Ok(_) => {
            out.push(0);
        },
        Err(e) => {
            out.push(e.code());
        },
    }
    out
}

// === dispatch laws ===

/// Every payload shorter than the selector is rejected the same way by the
/// gas model and by verification.
pub proof fn lemma_short_payload(data: Seq<u8>)
    requires
        data.len() < 4,
    ensures
        gas_spec(data) == Err::<u64, Error>(Error::WrongSelectorLength),
        verify_spec(data) == Err::<(), Error>(Error::WrongSelectorLength),
{
}

/// Every 4-byte prefix outside the registry is rejected as unknown, by the
/// gas model and by verification alike.
pub proof fn lemma_unknown_selector_anon(data: Seq<u8>)
    requires
        data.len() >= 4,
        spec_selector(data) != VERIFY_DEPOSIT_SELECTOR,
        spec_selector(data) != VERIFY_TRANSFER_SELECTOR,
        spec_selector(data) != VERIFY_WITHDRAW_SELECTOR,
    ensures
        gas_spec(data) == Err::<u64, Error>(Error::UnknownSelector),
        verify_spec(data) == Err::<(), Error>(Error::UnknownSelector),
        new_err(data) == Some(Error::UnknownSelector),
{
}

/// Whenever the gas model rejects a payload, verification rejects it with
/// the very same failure; when the gas model accepts it, verification can
/// only fail on the structural invariant.
pub proof fn lemma_gas_verify_agree(data: Seq<u8>)
    ensures
        match gas_spec(data) {
            Ok(_) => verify_spec(data) is Ok || verify_spec(data) == Err::<(), Error>(
                Error::MismatchedLengths,
            ),
            Err(e) => verify_spec(data) == Err::<(), Error>(e),
        },
{
}

} // verus!

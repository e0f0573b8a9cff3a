//! The Anemoi-family precompile facade.
//!
//! Three operations, routed by a 4-byte selector: Jive-4 compression over two
//! pairs of field elements, a variable-length hash over a tagged word, and a
//! lookup into the family's 64-entry salt table. This core owns the dispatch,
//! the schema decoding, the range checks and the 64-byte output layout; the
//! field arithmetic itself (the Jive permutation, the hash sponge, the salt
//! constants) is the host's cryptographic delegate, which receives a fully
//! validated [`ComputeRequest`] and hands back a 32-byte result word.

use vstd::prelude::*;

verus! {

use crate::abi::{
    decode, lemma_pow256_mono, lemma_pow256_values, pow256, read_selector, spec_decode,
    spec_selector, take_u128, take_u64, take_word, AbiVal, ParamKind,
};
use crate::errors::{code_of, Error};
use vstd::slice::slice_subrange;

// Selector of the Jive-4 evaluation, `anemoi_jive_4(bytes32,bytes32,bytes32,bytes32)`.
pub const ANEMOI_JIVE_4_SELECTOR: u32 = 0x73808263;

// Selector of the salt-table lookup, `anemoi_jive_254_salts(uint128)`.
pub const ANEMOI_JIVE_254_SALTS_SELECTOR: u32 = 0x51dec097;

// Selector of the variable-length hash, `anemoi_variable_length_hash(uint64,bytes32)`.
pub const ANEMO_EVAL_V_LENGTH: u32 = 0x47f3b098;

/// Gas charged for one salt-table lookup.
pub const ANEMOI_SALT_GAS: u64 = 10;

/// Gas charged for one Jive-4 evaluation.
pub const ANEMOI_EVAL_4: u64 = 400;

/// Gas charged for one variable-length hash evaluation.
pub const ANEMOI_HASH_GAS: u64 = 400;

/// The number of entries in the salt table.
pub const SALT_TABLE_LEN: u64 = 64;

// === the little-endian value of a byte sequence ===

pub open spec fn le_nat(s: Seq<u8>) -> nat
    decreases s.len(),
{
    if s.len() == 0 {
        0
    } else {
        (s[0] as nat) + 256 * le_nat(s.skip(1))
    }
}

pub proof fn lemma_le_nat_bound(s: Seq<u8>)
    ensures
        le_nat(s) < pow256(s.len()),
    decreases s.len(),
{
    if s.len() > 0 {
        lemma_le_nat_bound(s.skip(1));
        let r = le_nat(s.skip(1));
        assert(256 * r <= 256 * (pow256((s.len() - 1) as nat) - 1));
    }
}

pub proof fn lemma_le_nat_split(s: Seq<u8>, k: int)
    requires
        0 <= k <= s.len(),
    ensures
        le_nat(s) == le_nat(s.take(k)) + pow256(k as nat) * le_nat(s.skip(k)),
    decreases k,
{
    if k == 0 {
        assert(s.take(0) =~= Seq::<u8>::empty());
        assert(s.skip(0) =~= s);
        assert(1 * le_nat(s) == le_nat(s)) by (nonlinear_arith);
    } else {
        lemma_le_nat_split(s.skip(1), k - 1);
        assert(s.take(k).skip(1) =~= s.skip(1).take(k - 1));
        assert(s.skip(1).skip(k - 1) =~= s.skip(k));
        let a = le_nat(s.skip(1).take(k - 1));
        let p = pow256((k - 1) as nat);
        let q = le_nat(s.skip(k));
        assert(le_nat(s.skip(1)) == a + p * q);
        assert(le_nat(s) == (s[0] as nat) + 256 * (a + p * q));
        assert(s.take(k)[0] == s[0]);
        assert(s.take(k).len() == k);
        assert(le_nat(s.take(k)) == (s[0] as nat) + 256 * a);
        assert(256 * (a + p * q) == 256 * a + (256 * p) * q) by (nonlinear_arith);
        assert(pow256(k as nat) == 256 * p);
    }
}

/// The order of the scalar field that the hash family works over, assembled
/// from its two 128-bit halves: a 32-byte word is a canonical field-element
/// encoding exactly when its little-endian value lies below this bound.
pub open spec fn scalar_modulus() -> nat {
    (SCALAR_MODULUS_LO as nat) + pow256(16) * (SCALAR_MODULUS_HI as nat)
}

/// Whether a 32-byte word is a canonical little-endian field-element
/// encoding.
pub open spec fn scalar_valid(w: Seq<u8>) -> bool {
    w.len() == 32 && le_nat(w) < scalar_modulus()
}

// The scalar-field order split into two 128-bit halves, high and low.
pub const SCALAR_MODULUS_HI: u128 = 0x30644e72e131a029b85045b68181585d;

pub const SCALAR_MODULUS_LO: u128 = 0x2833e84879b9709143e1f593f0000001;

proof fn lemma_base_cmp(lo: nat, hi: nat, mlo: nat, mhi: nat, p: nat)
    requires
        lo < p,
        mlo < p,
    ensures
        (lo + p * hi < mlo + p * mhi) <==> (hi < mhi || (hi == mhi && lo < mlo)),
{
    if hi < mhi {
        assert(lo + p * hi < mlo + p * mhi) by (nonlinear_arith)
            requires
                lo < p,
                hi < mhi,
                0 <= mlo,
        ;
    } else if hi > mhi {
        assert(!(lo + p * hi < mlo + p * mhi)) by (nonlinear_arith)
            requires
                mlo < p,
                hi > mhi,
                0 <= lo,
        ;
    }
}

/// The little-endian value of `count` bytes of `w` starting at `start`.
pub fn le_uint(w: &Vec<u8>, start: usize, count: usize) -> (x: u128)
    requires
        start + count <= w@.len(),
        count <= 16,
    ensures
        x as nat == le_nat(w@.subrange(start as int, start as int + count as int)),
{
    proof {
        lemma_pow256_values();
        assert(w@.subrange(start as int + count as int, start as int + count as int)
            =~= Seq::<u8>::empty());
    }
    let wn = w.len();
    let mut x: u128 = 0;
    let mut j: usize = count;
    while j > 0
        invariant
            j <= count,
            count <= 16,
            wn == w@.len(),
            start + count <= wn,
            x as nat == le_nat(w@.subrange(start as int + j as int, start as int + count as int)),
            (x as nat) < pow256((count - j) as nat),
        decreases j,
    {
        proof {
            lemma_pow256_mono((count - j) as nat, 15);
            lemma_pow256_values();
        }
        j = j - 1;
        let b = w[start + j];
        x = x * 256 + (b as u128);
        proof {
            let sub = w@.subrange(start as int + j as int, start as int + count as int);
            assert(sub[0] == w@[start as int + j as int]);
            assert(sub.skip(1) =~= w@.subrange(
                start as int + j as int + 1,
                start as int + count as int,
            ));
            lemma_le_nat_bound(sub);
        }
    }
    x
}

/// Whether a 32-byte word carries a canonical field-element encoding: its
/// little-endian value must lie below the scalar-field order.
pub fn scalar_check(w: &Vec<u8>) -> (r: bool)
    requires
        w@.len() == 32,
    ensures
        r == scalar_valid(w@),
{
    let lo = le_uint(w, 0, 16);
    let hi = le_uint(w, 16, 16);
    proof {
        lemma_le_nat_split(w@, 16);
        assert(w@.take(16) =~= w@.subrange(0, 16));
        assert(w@.skip(16) =~= w@.subrange(16, 32));
        lemma_le_nat_bound(w@.subrange(0, 16));
        lemma_pow256_values();
        lemma_base_cmp(
            lo as nat,
            hi as nat,
            SCALAR_MODULUS_LO as nat,
            SCALAR_MODULUS_HI as nat,
            pow256(16),
        );
    }
    hi < SCALAR_MODULUS_HI || (hi == SCALAR_MODULUS_HI && lo < SCALAR_MODULUS_LO)
}

// === dispatch and decoding ===

/// A fully decoded and validated operation, ready for the host's
/// cryptographic delegate.
pub enum ComputeRequest {
    /// Jive-4 compression of the column pair `(x0, x1)` and `(y0, y1)`; each
    /// word is a canonical field-element encoding.
    Jive4 { x0: Vec<u8>, x1: Vec<u8>, y0: Vec<u8>, y1: Vec<u8> },
    /// Variable-length hash of a 64-bit tag and one canonical field element.
    VariableLengthHash { tag: u64, word: Vec<u8> },
    /// Lookup of the salt-table entry at `index`, already checked to lie
    /// below [`SALT_TABLE_LEN`].
    SaltLookup { index: u8 },
}

/// The mathematical form of a validated operation.
pub enum ComputeRequestV {
    Jive4 { x0: Seq<u8>, x1: Seq<u8>, y0: Seq<u8>, y1: Seq<u8> },
    VariableLengthHash { tag: u64, word: Seq<u8> },
    SaltLookup { index: u8 },
}

impl View for ComputeRequest {
    type V = ComputeRequestV;

    open spec fn view(&self) -> ComputeRequestV {
        match self {
            ComputeRequest::Jive4 { x0, x1, y0, y1 } => ComputeRequestV::Jive4 {
                x0: x0@,
                x1: x1@,
                y0: y0@,
                y1: y1@,
            },
            ComputeRequest::VariableLengthHash { tag, word } => {
                ComputeRequestV::VariableLengthHash { tag: *tag, word: word@ }
            },
            ComputeRequest::SaltLookup { index } => (ComputeRequestV::SaltLookup { index: *index }),
        }
    }
}

pub open spec fn jive4_schema() -> Seq<ParamKind> {
    seq![ParamKind::Word, ParamKind::Word, ParamKind::Word, ParamKind::Word]
}

pub open spec fn salts_schema() -> Seq<ParamKind> {
    seq![ParamKind::U128]
}

pub open spec fn var_hash_schema() -> Seq<ParamKind> {
    seq![ParamKind::U64, ParamKind::Word]
}

pub open spec fn jive4_request(vals: Seq<AbiVal>) -> Result<ComputeRequestV, Error> {
    let x0 = vals[0]->Word_0;
    let x1 = vals[1]->Word_0;
    let y0 = vals[2]->Word_0;
    let y1 = vals[3]->Word_0;
    if scalar_valid(x0) && scalar_valid(x1) && scalar_valid(y0) && scalar_valid(y1) {
        Ok(ComputeRequestV::Jive4 { x0, x1, y0, y1 })
    } else {
        Err(Error::ParseDataFailed)
    }
}

pub open spec fn salt_request(vals: Seq<AbiVal>) -> Result<ComputeRequestV, Error> {
    let index = vals[0]->U128_0;
    if index < SALT_TABLE_LEN {
        Ok(ComputeRequestV::SaltLookup { index: index as u8 })
    } else {
        Err(Error::InputOutOfBound)
    }
}

pub open spec fn var_hash_request(vals: Seq<AbiVal>) -> Result<ComputeRequestV, Error> {
    let tag = vals[0]->U64_0;
    let word = vals[1]->Word_0;
    if scalar_valid(word) {
        Ok(ComputeRequestV::VariableLengthHash { tag, word })
    } else {
        Err(Error::ParseDataFailed)
    }
}

/// The outcome of the Jive-4 operation on an argument buffer.
pub open spec fn jive4_spec(tail: Seq<u8>) -> Result<ComputeRequestV, Error> {
    match spec_decode(jive4_schema(), tail) {
        Some(vals) => jive4_request(vals),
        None => Err(Error::ParseDataFailed),
    }
}

/// The outcome of the salt-lookup operation on an argument buffer.
pub open spec fn salts_spec(tail: Seq<u8>) -> Result<ComputeRequestV, Error> {
    match spec_decode(salts_schema(), tail) {
        Some(vals) => salt_request(vals),
        None => Err(Error::ParseDataFailed),
    }
}

/// The outcome of the variable-length-hash operation on an argument buffer.
pub open spec fn var_hash_spec(tail: Seq<u8>) -> Result<ComputeRequestV, Error> {
    match spec_decode(var_hash_schema(), tail) {
        Some(vals) => var_hash_request(vals),
        None => Err(Error::ParseDataFailed),
    }
}

/// What dispatching and decoding a payload yields: the request handed to the
/// cryptographic delegate, or the exact failure written into the output.
pub open spec fn compute_spec(data: Seq<u8>) -> Result<ComputeRequestV, Error> {
    if data.len() < 4 {
        Err(Error::WrongSelectorLength)
    } else {
        let sel = spec_selector(data);
        let tail = data.skip(4);
        if sel == ANEMOI_JIVE_4_SELECTOR {
            jive4_spec(tail)
        } else if sel == ANEMOI_JIVE_254_SALTS_SELECTOR {
            salts_spec(tail)
        } else if sel == ANEMO_EVAL_V_LENGTH {
            var_hash_spec(tail)
        } else {
            Err(Error::UnknownSelector)
        }
    }
}

/// The gas charged for a payload, decided by the selector alone.
pub open spec fn gas_spec(data: Seq<u8>) -> Result<u64, Error> {
    if data.len() < 4 {
        Err(Error::WrongSelectorLength)
    } else {
        let sel = spec_selector(data);
        if sel == ANEMOI_JIVE_4_SELECTOR {
            Ok(ANEMOI_EVAL_4)
        } else if sel == ANEMOI_JIVE_254_SALTS_SELECTOR {
            Ok(ANEMOI_SALT_GAS)
        } else if sel == ANEMO_EVAL_V_LENGTH {
            Ok(ANEMOI_HASH_GAS)
        } else {
            Err(Error::UnknownSelector)
        }
    }
}

/// Pre-execution gas metering: a pure function of the selector that fails on
/// exactly the payloads whose dispatch fails, and never consults the
/// cryptographic delegate.
pub fn gas(data: &[u8]) -> (r: Result<u64, Error>)
    ensures
        r == gas_spec(data@),
{
    if data.len() < 4 {
        return Err(Error::WrongSelectorLength);
    }
    let sel = read_selector(data);
    if sel == ANEMOI_JIVE_4_SELECTOR as u128 {
        Ok(ANEMOI_EVAL_4)
    } else if sel == ANEMOI_JIVE_254_SALTS_SELECTOR as u128 {
        Ok(ANEMOI_SALT_GAS)
    } else if sel == ANEMO_EVAL_V_LENGTH as u128 {
        Ok(ANEMOI_HASH_GAS)
    } else {
        Err(Error::UnknownSelector)
    }
}

/// Decodes and validates the four field-element words of a Jive-4 call.
fn eval_jive4(tail: &[u8]) -> (r: Result<ComputeRequest, Error>)
    ensures
        match r {
            Ok(req) => jive4_spec(tail@) == Ok::<ComputeRequestV, Error>(req@),
            Err(e) => jive4_spec(tail@) == Err::<ComputeRequestV, Error>(e),
        },
{
    let mut schema: Vec<ParamKind> = Vec::new();
    schema.push(ParamKind::Word);
    schema.push(ParamKind::Word);
    schema.push(ParamKind::Word);
    schema.push(ParamKind::Word);
    proof {
        assert(schema@ =~= jive4_schema());
    }
    let mut vals = match decode(&schema, tail) {
        Ok(vals) => vals,
        Err(e) => {
            return Err(e);
        },
    };
    proof {
        let vs = crate::abi::decode_vals(jive4_schema(), tail@);
        assert(vals@.map_values(|v: crate::abi::Value| v@) == vs);
        assert(vals@.map_values(|v: crate::abi::Value| v@).len() == vals@.len());
        assert(vals@.map_values(|v: crate::abi::Value| v@)[0] == vals@[0]@);
        assert(vals@.map_values(|v: crate::abi::Value| v@)[1] == vals@[1]@);
        assert(vals@.map_values(|v: crate::abi::Value| v@)[2] == vals@[2]@);
        assert(vals@.map_values(|v: crate::abi::Value| v@)[3] == vals@[3]@);
        assert(vals@[0]@ == vs[0]);
        assert(vals@[1]@ == vs[1]);
        assert(vals@[2]@ == vs[2]);
        assert(vals@[3]@ == vs[3]);
        assert(vs[0] is Word);
        assert(vs[1] is Word);
        assert(vs[2] is Word);
        assert(vs[3] is Word);
    }
    let y1 = take_word(&mut vals);
    let y0 = take_word(&mut vals);
    let x1 = take_word(&mut vals);
    let x0 = take_word(&mut vals);
    if scalar_check(&x0) && scalar_check(&x1) && scalar_check(&y0) && scalar_check(&y1) {
        Ok(ComputeRequest::Jive4 { x0, x1, y0, y1 })
    } else {
        Err(Error::ParseDataFailed)
    }
}

/// Decodes the index of a salt-table lookup and enforces its range.
fn jive_254_salts(tail: &[u8]) -> (r: Result<ComputeRequest, Error>)
    ensures
        match r {
            Ok(req) => salts_spec(tail@) == Ok::<ComputeRequestV, Error>(req@),
            Err(e) => salts_spec(tail@) == Err::<ComputeRequestV, Error>(e),
        },
{
    let mut schema: Vec<ParamKind> = Vec::new();
    schema.push(ParamKind::U128);
    proof {
        assert(schema@ =~= salts_schema());
    }
    let mut vals = match decode(&schema, tail) {
        Ok(vals) => vals,
        Err(e) => {
            return Err(e);
        },
    };
    proof {
        let vs = crate::abi::decode_vals(salts_schema(), tail@);
        assert(vals@.map_values(|v: crate::abi::Value| v@) == vs);
        assert(vals@.map_values(|v: crate::abi::Value| v@).len() == vals@.len());
        assert(vals@.map_values(|v: crate::abi::Value| v@)[0] == vals@[0]@);
        assert(vals@[0]@ == vs[0]);
        assert(vs[0] is U128);
    }
    let index = take_u128(&mut vals);
    if index < SALT_TABLE_LEN as u128 {
        Ok(ComputeRequest::SaltLookup { index: index as u8 })
    } else {
        Err(Error::InputOutOfBound)
    }
}

/// Decodes and validates the tag and word of a variable-length-hash call.
fn eval_variable_length_hash(tail: &[u8]) -> (r: Result<ComputeRequest, Error>)
    ensures
        match r {
            Ok(req) => var_hash_spec(tail@) == Ok::<ComputeRequestV, Error>(req@),
            Err(e) => var_hash_spec(tail@) == Err::<ComputeRequestV, Error>(e),
        },
{
    let mut schema: Vec<ParamKind> = Vec::new();
    schema.push(ParamKind::U64);
    schema.push(ParamKind::Word);
    proof {
        assert(schema@ =~= var_hash_schema());
    }
    let mut vals = match decode(&schema, tail) {
        Ok(vals) => vals,
        Err(e) => {
            return Err(e);
        },
    };
    proof {
        let vs = crate::abi::decode_vals(var_hash_schema(), tail@);
        assert(vals@.map_values(|v: crate::abi::Value| v@) == vs);
        assert(vals@.map_values(|v: crate::abi::Value| v@).len() == vals@.len());
        assert(vals@.map_values(|v: crate::abi::Value| v@)[0] == vals@[0]@);
        assert(vals@.map_values(|v: crate::abi::Value| v@)[1] == vals@[1]@);
        assert(vals@[0]@ == vs[0]);
        assert(vals@[1]@ == vs[1]);
        assert(vs[0] is U64);
        assert(vs[1] is Word);
    }
    let word = take_word(&mut vals);
    let tag = take_u64(&mut vals);
    if scalar_check(&word) {
        Ok(ComputeRequest::VariableLengthHash { tag, word })
    } else {
        Err(Error::ParseDataFailed)
    }
}

/// Dispatches a payload to its operation, decodes the argument tuple under
/// the operation's schema, and validates every decoded word, so that the
/// cryptographic delegate only ever sees well-formed input.
pub fn compute(data: &[u8]) -> (r: Result<ComputeRequest, Error>)
    ensures
        match r {
            Ok(req) => compute_spec(data@) == Ok::<ComputeRequestV, Error>(req@),
            Err(e) => compute_spec(data@) == Err::<ComputeRequestV, Error>(e),
        },
{
    let dn = data.len();
    if dn < 4 {
        return Err(Error::WrongSelectorLength);
    }
    let sel = read_selector(data);
    let tail = slice_subrange(data, 4, dn);
    proof {
        assert(tail@ =~= data@.skip(4));
    }
    if sel == ANEMOI_JIVE_4_SELECTOR as u128 {
        eval_jive4(tail)
    } else if sel == ANEMOI_JIVE_254_SALTS_SELECTOR as u128 {
        jive_254_salts(tail)
    } else if sel == ANEMO_EVAL_V_LENGTH as u128 {
        eval_variable_length_hash(tail)
    } else {
        Err(Error::UnknownSelector)
    }
}

// === the 64-byte output layout ===

/// Encodes a successful 32-byte result word into the fixed 64-byte output:
/// the word fills bytes 0 to 31, everything after is zero, and the trailing
/// status byte zero means success.
pub fn encode_result(word: &Vec<u8>) -> (out: Vec<u8>)
    requires
        word@.len() == 32,
    ensures
        out@.len() == 64,
        out@.subrange(0, 32) == word@,
        forall|i: int| 32 <= i < 64 ==> out@[i] == 0,
{
    let mut out: Vec<u8> = Vec::new();
    let mut j: usize = 0;
    while j < 32
        invariant
            j <= 32,
            word@.len() == 32,
            out@ == word@.subrange(0, j as int),
        decreases 32 - j,
    {
        out.push(word[j]);
        j = j + 1;
        proof {
            assert(out@ =~= word@.subrange(0, j as int));
        }
    }
    while j < 64
        invariant
            32 <= j <= 64,
            out@.len() == j,
            out@.subrange(0, 32) =~= word@,
            forall|i: int| 32 <= i < j ==> out@[i] == 0,
        decreases 64 - j,
    {
        out.push(0);
        j = j + 1;
        proof {
            assert(out@.subrange(0, 32) =~= word@);
        }
    }
    out
}

/// Encodes a failure into the fixed 64-byte output: the result half stays
/// all-zero and the trailing byte carries the failure's wire code.
pub fn encode_failure(e: &Error) -> (out: Vec<u8>)
    ensures
        out@.len() == 64,
        forall|i: int| 0 <= i < 63 ==> out@[i] == 0,
        out@[63] == code_of(*e),
{
    let mut out: Vec<u8> = Vec::new();
    let mut j: usize = 0;
    while j < 63
        invariant
            j <= 63,
            out@.len() == j,
            forall|i: int| 0 <= i < j ==> out@[i] == 0,
        decreases 63 - j,
    {
        out.push(0);
        j = j + 1;
    }
    out.push(e.code());
    out
}

// === dispatch laws ===

/// Every payload shorter than the selector is rejected the same way by the
/// gas model and by dispatch.
pub proof fn lemma_short_payload(data: Seq<u8>)
    requires
        data.len() < 4,
    ensures
        gas_spec(data) == Err::<u64, Error>(Error::WrongSelectorLength),
        compute_spec(data) == Err::<ComputeRequestV, Error>(Error::WrongSelectorLength),
{
}

/// Whenever the gas model rejects a payload, dispatch rejects it with the
/// very same failure: a host can refuse an operation before charging for it.
pub proof fn lemma_gas_run_agree(data: Seq<u8>)
    ensures
        match gas_spec(data) {
            Ok(_) => true,
            Err(e) => compute_spec(data) == Err::<ComputeRequestV, Error>(e),
        },
{
}

/// Every 4-byte prefix outside the registry is rejected as unknown, by the
/// gas model and by dispatch alike.
pub proof fn lemma_unknown_selector(data: Seq<u8>)
    requires
        data.len() >= 4,
        spec_selector(data) != ANEMOI_JIVE_4_SELECTOR,
        spec_selector(data) != ANEMOI_JIVE_254_SALTS_SELECTOR,
        spec_selector(data) != ANEMO_EVAL_V_LENGTH,
    ensures
        gas_spec(data) == Err::<u64, Error>(Error::UnknownSelector),
        compute_spec(data) == Err::<ComputeRequestV, Error>(Error::UnknownSelector),
{
}

/// A 64-bit integer slot transported in a 256-bit word must be genuinely
/// 64-bit: when any of the word's upper 24 bytes is nonzero, the hash
/// operation reports a parse failure instead of silently truncating.
pub proof fn lemma_wide_integer_rejected(data: Seq<u8>)
    requires
        data.len() >= 4,
        spec_selector(data) == ANEMO_EVAL_V_LENGTH,
        !crate::abi::high_zero(crate::abi::word_at(data.skip(4), 0), 24),
    ensures
        compute_spec(data) == Err::<ComputeRequestV, Error>(Error::ParseDataFailed),
{
    let tail = data.skip(4);
    if crate::abi::decode_ok(var_hash_schema(), tail) {
        assert(crate::abi::decode_slot(
            var_hash_schema()[0],
            tail,
            crate::abi::word_at(tail, 0),
        ) is Some);
        assert(false);
    }
}

/// The request handed to the cryptographic delegate is a function of the
/// payload bytes alone: two calls on equal payloads build equal requests, so
/// the delegate's determinism carries through to the full operation.
pub proof fn lemma_compute_deterministic(d1: Seq<u8>, d2: Seq<u8>)
    requires
        d1 == d2,
    ensures
        compute_spec(d1) == compute_spec(d2),
{
}

} // verus!

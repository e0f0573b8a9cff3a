//! Head/tail ABI tuple codec.
//!
//! A call's argument tuple is a flat byte buffer: one 32-byte head word per
//! schema slot, where a static slot carries its value directly (big-endian,
//! zero-extended) and a dynamic slot carries the offset of its payload in the
//! tail. The spec functions here define the format once, mathematically, and
//! the executable decoder is proved to agree with them on every input.

use vstd::prelude::*;

verus! {

use crate::errors::Error;

/// One slot of a parameter schema.
#[derive(Clone, Copy, PartialEq, Eq, Structural, Debug)]
pub enum ParamKind {
    /// A full 32-byte head word: `bytes32`, or an unsigned integer wide
    /// enough to use all 256 bits of its slot.
    Word,
    /// An unsigned 64-bit integer carried zero-extended in a 32-byte word.
    U64,
    /// An unsigned 128-bit integer carried zero-extended in a 32-byte word.
    U128,
    /// A dynamic byte string, addressed through an offset word.
    Bytes,
    /// A dynamic array of 32-byte words.
    WordArray,
    /// A dynamic array of unsigned 128-bit integers.
    U128Array,
    /// A dynamic array of dynamic byte strings.
    BytesArray,
}

/// A decoded slot value.
pub enum Value {
    Word(Vec<u8>),
    U64(u64),
    U128(u128),
    Bytes(Vec<u8>),
    WordArray(Vec<Vec<u8>>),
    U128Array(Vec<u128>),
    BytesArray(Vec<Vec<u8>>),
}

/// The mathematical form of a decoded slot value.
pub enum AbiVal {
    Word(Seq<u8>),
    U64(u64),
    U128(u128),
    Bytes(Seq<u8>),
    WordArray(Seq<Seq<u8>>),
    U128Array(Seq<u128>),
    BytesArray(Seq<Seq<u8>>),
}

impl View for Value {
    type V = AbiVal;

    open spec fn view(&self) -> AbiVal {
        match self {
            Value::Word(w) => AbiVal::Word(w@),
            Value::U64(x) => AbiVal::U64(*x),
            Value::U128(x) => AbiVal::U128(*x),
            Value::Bytes(b) => AbiVal::Bytes(b@),
            Value::WordArray(v) => AbiVal::WordArray(v@.map_values(|e: Vec<u8>| e@)),
            Value::U128Array(v) => AbiVal::U128Array(v@),
            Value::BytesArray(v) => AbiVal::BytesArray(v@.map_values(|e: Vec<u8>| e@)),
        }
    }
}

// === the big-endian value of a byte sequence ===

pub open spec fn be_nat(s: Seq<u8>) -> nat
    decreases s.len(),
{
    if s.len() == 0 {
        0
    } else {
        be_nat(s.drop_last()) * 256 + (s.last() as nat)
    }
}

pub open spec fn pow256(n: nat) -> nat
    decreases n,
{
    if n == 0 {
        1
    } else {
        256 * pow256((n - 1) as nat)
    }
}

/// The powers of 256 that the decoder's overflow arguments rest on.
pub proof fn lemma_pow256_values()
    ensures
        pow256(8) == 0x10000000000000000,
        pow256(15) == 0x1000000000000000000000000000000,
        pow256(16) == 0x100000000000000000000000000000000,
{
    reveal_with_fuel(pow256, 17);
}

pub proof fn lemma_pow256_pos(n: nat)
    ensures
        pow256(n) >= 1,
    decreases n,
{
    if n > 0 {
        lemma_pow256_pos((n - 1) as nat);
    }
}

pub proof fn lemma_pow256_mono(a: nat, b: nat)
    requires
        a <= b,
    ensures
        pow256(a) <= pow256(b),
        pow256(a) >= 1,
    decreases b,
{
    lemma_pow256_pos(a);
    if a < b {
        lemma_pow256_mono(a, (b - 1) as nat);
    }
}

pub proof fn lemma_be_nat_bound(s: Seq<u8>)
    ensures
        be_nat(s) < pow256(s.len()),
    decreases s.len(),
{
    if s.len() > 0 {
        lemma_be_nat_bound(s.drop_last());
    }
}

pub proof fn lemma_be_nat_front(s: Seq<u8>)
    requires
        s.len() > 0,
    ensures
        be_nat(s) == (s[0] as nat) * pow256((s.len() - 1) as nat) + be_nat(s.skip(1)),
    decreases s.len(),
{
    if s.len() == 1 {
        assert(s.drop_last() =~= Seq::<u8>::empty());
        assert(s.skip(1) =~= Seq::<u8>::empty());
        assert(s.last() == s[0]);
        assert(be_nat(Seq::<u8>::empty()) == 0);
        assert(be_nat(s) == (s[0] as nat));
        assert(pow256((s.len() - 1) as nat) == 1);
        assert((s[0] as nat) * 1 == (s[0] as nat)) by (nonlinear_arith);
    } else {
        let d = s.drop_last();
        lemma_be_nat_front(d);
        assert(d.skip(1) =~= s.skip(1).drop_last());
        assert(s.skip(1).last() == s.last());
        assert(be_nat(s.skip(1)) == be_nat(d.skip(1)) * 256 + (s.last() as nat));
        let a = s[0] as nat;
        let p = pow256((s.len() - 2) as nat);
        assert(d[0] == s[0]);
        assert(be_nat(d) == a * p + be_nat(d.skip(1)));
        assert(be_nat(s) == be_nat(d) * 256 + (s.last() as nat));
        assert(be_nat(s) == (a * p) * 256 + be_nat(d.skip(1)) * 256 + (s.last() as nat))
            by (nonlinear_arith)
            requires
                be_nat(s) == be_nat(d) * 256 + (s.last() as nat),
                be_nat(d) == a * p + be_nat(d.skip(1)),
        ;
        assert(pow256((s.len() - 1) as nat) == 256 * p);
        assert((a * p) * 256 == a * (256 * p)) by (nonlinear_arith);
        assert(a * (256 * p) == a * pow256((s.len() - 1) as nat));
        assert(be_nat(s) == a * pow256((s.len() - 1) as nat) + be_nat(s.skip(1)));
    }
}

pub proof fn lemma_be_nat_zero_prefix(s: Seq<u8>, k: int)
    requires
        0 <= k <= s.len(),
        forall|i: int| 0 <= i < k ==> s[i] == 0,
    ensures
        be_nat(s) == be_nat(s.skip(k)),
    decreases k,
{
    if k == 0 {
        assert(s.skip(0) =~= s);
    } else {
        lemma_be_nat_front(s);
        lemma_be_nat_zero_prefix(s.skip(1), k - 1);
        assert(s.skip(1).skip(k - 1) =~= s.skip(k));
    }
}

pub proof fn lemma_be_nat_digit(s: Seq<u8>, i: int)
    requires
        0 <= i < s.len(),
    ensures
        be_nat(s) >= (s[i] as nat) * pow256((s.len() - 1 - i) as nat),
    decreases i,
{
    lemma_be_nat_front(s);
    if i == 0 {
    } else {
        lemma_be_nat_digit(s.skip(1), i - 1);
        assert(s.skip(1)[i - 1] == s[i]);
    }
}

pub proof fn lemma_be_nat_high_nonzero(s: Seq<u8>, k: int)
    requires
        0 <= k <= s.len(),
        exists|i: int| 0 <= i < k && s[i] != 0,
    ensures
        be_nat(s) >= pow256((s.len() - k) as nat),
    decreases s.len(),
{
    let i = choose|i: int| 0 <= i < k && s[i] != 0;
    lemma_be_nat_digit(s, i);
    let e = (s.len() - 1 - i) as nat;
    assert((s[i] as nat) * pow256(e) >= pow256(e)) by (nonlinear_arith)
        requires
            s[i] >= 1,
            pow256(e) >= 0,
    ;
    lemma_pow256_mono((s.len() - k) as nat, e);
}

// === the head/tail layout ===

/// Whether the first `k` bytes of a word are zero.
pub open spec fn high_zero(w: Seq<u8>, k: int) -> bool {
    forall|i: int| 0 <= i < k ==> w[i] == 0
}

/// The `i`-th 32-byte head word.
pub open spec fn word_at(data: Seq<u8>, i: int) -> Seq<u8> {
    data.subrange(32 * i, 32 * i + 32)
}

/// The `i`-th 32-byte word of the tail region that begins right after the
/// count word of a dynamic array at offset `off`.
pub open spec fn array_elem(data: Seq<u8>, off: int, i: int) -> Seq<u8> {
    data.subrange(off + 32 + 32 * i, off + 32 + 32 * i + 32)
}

/// A dynamic byte string at tail offset `off`: a count word, then that many
/// payload bytes, all inside the buffer.
pub open spec fn bytes_at(data: Seq<u8>, off: int) -> Option<Seq<u8>> {
    if 0 <= off && off + 32 <= data.len() {
        let n = be_nat(data.subrange(off, off + 32)) as int;
        if off + 32 + n <= data.len() {
            Some(data.subrange(off + 32, off + 32 + n))
        } else {
            None
        }
    } else {
        None
    }
}

/// A dynamic array of 32-byte words at tail offset `off`.
pub open spec fn word_array_at(data: Seq<u8>, off: int) -> Option<Seq<Seq<u8>>> {
    if 0 <= off && off + 32 <= data.len() {
        let n = be_nat(data.subrange(off, off + 32)) as int;
        if off + 32 + 32 * n <= data.len() {
            Some(Seq::new(n as nat, |i: int| array_elem(data, off, i)))
        } else {
            None
        }
    } else {
        None
    }
}

/// A dynamic array of 128-bit integers at tail offset `off`; every element
/// word must be zero outside its low 16 bytes.
pub open spec fn u128_array_at(data: Seq<u8>, off: int) -> Option<Seq<u128>> {
    if 0 <= off && off + 32 <= data.len() {
        let n = be_nat(data.subrange(off, off + 32)) as int;
        if off + 32 + 32 * n <= data.len() {
            if forall|i: int| 0 <= i < n ==> high_zero(#[trigger] array_elem(data, off, i), 16) {
                Some(Seq::new(n as nat, |i: int| be_nat(array_elem(data, off, i).skip(16)) as u128))
            } else {
                None
            }
        } else {
            None
        }
    } else {
        None
    }
}

/// A dynamic array of dynamic byte strings at tail offset `off`: a count
/// word, then one offset word per element, each relative to the end of the
/// count word, each leading to a well-formed byte string.
pub open spec fn bytes_array_at(data: Seq<u8>, off: int) -> Option<Seq<Seq<u8>>> {
    if 0 <= off && off + 32 <= data.len() {
        let n = be_nat(data.subrange(off, off + 32)) as int;
        if off + 32 + 32 * n <= data.len() {
            if forall|i: int| 0 <= i < n
                ==> #[trigger] bytes_at(data, off + 32 + be_nat(array_elem(data, off, i))) is Some {
                Some(
                    Seq::new(
                        n as nat,
                        |i: int| bytes_at(data, off + 32 + be_nat(array_elem(data, off, i)))->0,
                    ),
                )
            } else {
                None
            }
        } else {
            None
        }
    } else {
        None
    }
}

/// The value of one schema slot whose head word is `w`.
pub open spec fn decode_slot(kind: ParamKind, data: Seq<u8>, w: Seq<u8>) -> Option<AbiVal> {
    match kind {
        ParamKind::Word => Some(AbiVal::Word(w)),
        ParamKind::U64 => if high_zero(w, 24) {
            Some(AbiVal::U64(be_nat(w.skip(24)) as u64))
        } else {
            None
        },
        ParamKind::U128 => if high_zero(w, 16) {
            Some(AbiVal::U128(be_nat(w.skip(16)) as u128))
        } else {
            None
        },
        ParamKind::Bytes => match bytes_at(data, be_nat(w) as int) {
            Some(b) => Some(AbiVal::Bytes(b)),
            None => None,
        },
        ParamKind::WordArray => match word_array_at(data, be_nat(w) as int) {
            Some(v) => Some(AbiVal::WordArray(v)),
            None => None,
        },
        ParamKind::U128Array => match u128_array_at(data, be_nat(w) as int) {
            Some(v) => Some(AbiVal::U128Array(v)),
            None => None,
        },
        ParamKind::BytesArray => match bytes_array_at(data, be_nat(w) as int) {
            Some(v) => Some(AbiVal::BytesArray(v)),
            None => None,
        },
    }
}

/// Whether `data` decodes under `schema`: the head fits, and every slot is
/// well-formed.
pub open spec fn decode_ok(schema: Seq<ParamKind>, data: Seq<u8>) -> bool {
    32 * schema.len() <= data.len() && forall|i: int|
        0 <= i < schema.len() ==> #[trigger] decode_slot(schema[i], data, word_at(data, i)) is Some
}

/// The decoded tuple, when `decode_ok` holds.
pub open spec fn decode_vals(schema: Seq<ParamKind>, data: Seq<u8>) -> Seq<AbiVal> {
    Seq::new(schema.len(), |i: int| decode_slot(schema[i], data, word_at(data, i))->0)
}

/// What decoding a buffer under a schema yields: the format definition that
/// the executable decoder is held to.
pub open spec fn spec_decode(schema: Seq<ParamKind>, data: Seq<u8>) -> Option<Seq<AbiVal>> {
    if decode_ok(schema, data) {
        Some(decode_vals(schema, data))
    } else {
        None
    }
}

// === the executable decoder ===

/// Copies `n` bytes of `data` starting at `start`.
pub fn read_bytes(data: &[u8], start: usize, n: usize) -> (out: Vec<u8>)
    requires
        start + n <= data@.len(),
    ensures
        out@ == data@.subrange(start as int, start as int + n as int),
{
    let dn = data.len();
    let mut out: Vec<u8> = Vec::new();
    let mut j: usize = 0;
    while j < n
        invariant
            j <= n,
            start + n <= data@.len(),
            dn == data@.len(),
            out@ == data@.subrange(start as int, start as int + j as int),
        decreases n - j,
    {
        out.push(data[start + j]);
        j = j + 1;
        proof {
            assert(out@ =~= data@.subrange(start as int, start as int + j as int));
        }
    }
    out
}

/// The big-endian value of `count` bytes of `w` starting at `start`.
pub fn be_uint(w: &Vec<u8>, start: usize, count: usize) -> (x: u128)
    requires
        start + count <= w@.len(),
        count <= 16,
    ensures
        x as nat == be_nat(w@.subrange(start as int, start as int + count as int)),
{
    proof {
        lemma_pow256_values();
        assert(w@.subrange(start as int, start as int) =~= Seq::<u8>::empty());
    }
    let wn = w.len();
    let mut x: u128 = 0;
    let mut j: usize = 0;
    while j < count
        invariant
            j <= count,
            count <= 16,
            wn == w@.len(),
            start + count <= w@.len(),
            x as nat == be_nat(w@.subrange(start as int, start as int + j as int)),
            (x as nat) < pow256(j as nat),
        decreases count - j,
    {
        proof {
            lemma_pow256_mono(j as nat, 15);
            lemma_pow256_values();
        }
        let b = w[start + j];
        x = x * 256 + (b as u128);
        j = j + 1;
        proof {
            let sub = w@.subrange(start as int, start as int + j as int);
            assert(sub.drop_last() =~= w@.subrange(start as int, start as int + j - 1));
            assert(sub.last() == w@[start + j - 1]);
            lemma_be_nat_bound(sub);
        }
    }
    x
}

/// Whether the first `k` bytes of `w` are all zero.
pub fn check_zero(w: &Vec<u8>, k: usize) -> (r: bool)
    requires
        k <= w@.len(),
    ensures
        r == high_zero(w@, k as int),
{
    let wn = w.len();
    let mut j: usize = 0;
    while j < k
        invariant
            j <= k,
            wn == w@.len(),
            k <= w@.len(),
            forall|i: int| 0 <= i < j ==> w@[i] == 0,
        decreases k - j,
    {
        if w[j] != 0 {
            assert(!high_zero(w@, k as int));
            return false;
        }
        j = j + 1;
    }
    true
}

/// Reads a 32-byte head word as a big-endian offset or count, rejecting any
/// value that cannot address a position of `data`.
pub fn word_to_index(data: &[u8], w: &Vec<u8>) -> (r: Option<usize>)
    requires
        w@.len() == 32,
    ensures
        match r {
            Some(off) => off as nat == be_nat(w@) && off <= data@.len(),
            None => be_nat(w@) > data@.len(),
        },
{
    let dn = data.len();
    if !check_zero(w, 24) {
        proof {
            assert(exists|i: int| 0 <= i < 24 && w@[i] != 0);
            lemma_be_nat_high_nonzero(w@, 24);
            lemma_pow256_values();
        }
        return None;
    }
    let x = be_uint(w, 24, 8);
    proof {
        lemma_be_nat_zero_prefix(w@, 24);
        assert(w@.subrange(24, 32) =~= w@.skip(24));
    }
    if x <= dn as u128 {
        proof {
            assert(x <= usize::MAX as u128);
        }
        Some(x as usize)
    } else {
        None
    }
}

/// Decodes the dynamic byte string whose tail region starts at `off`.
pub fn decode_bytes_at(data: &[u8], off: usize) -> (r: Option<Vec<u8>>)
    requires
        off <= data@.len(),
    ensures
        match r {
            Some(b) => bytes_at(data@, off as int) == Some(b@),
            None => bytes_at(data@, off as int) is None,
        },
{
    let dn = data.len();
    if dn - off < 32 {
        return None;
    }
    let cw = read_bytes(data, off, 32);
    match word_to_index(data, &cw) {
        None => None,
        Some(m) => {
            if m <= dn - (off + 32) {
                let b = read_bytes(data, off + 32, m);
                Some(b)
            } else {
                None
            }
        },
    }
}

/// Decodes the dynamic array of 32-byte words whose tail region starts at
/// `off`.
pub fn decode_word_array_at(data: &[u8], off: usize) -> (r: Option<Vec<Vec<u8>>>)
    requires
        off <= data@.len(),
    ensures
        match r {
            Some(v) => word_array_at(data@, off as int) == Some(
                v@.map_values(|e: Vec<u8>| e@),
            ),
            None => word_array_at(data@, off as int) is None,
        },
{
    let dn = data.len();
    if dn - off < 32 {
        return None;
    }
    let cw = read_bytes(data, off, 32);
    match word_to_index(data, &cw) {
        None => None,
        Some(cnt) => {
            if (off as u128) + 32 + 32 * (cnt as u128) > dn as u128 {
                return None;
            }
            let mut v: Vec<Vec<u8>> = Vec::new();
            let mut i: usize = 0;
            while i < cnt
                invariant
                    i <= cnt,
                    dn == data@.len(),
                    (off as int) + 32 + 32 * (cnt as int) <= dn as int,
                    cnt as nat == be_nat(data@.subrange(off as int, off as int + 32)),
                    v@.len() == i,
                    forall|j: int| 0 <= j < i
                        ==> #[trigger] v@[j]@ == array_elem(data@, off as int, j),
                decreases cnt - i,
            {
                let w = read_bytes(data, off + 32 + 32 * i, 32);
                v.push(w);
                i = i + 1;
            }
            proof {
                assert(word_array_at(data@, off as int) is Some);
                assert(v@.map_values(|e: Vec<u8>| e@) =~= word_array_at(data@, off as int)->0);
            }
            Some(v)
        },
    }
}

/// Decodes the dynamic array of 128-bit integers whose tail region starts at
/// `off`.
pub fn decode_u128_array_at(data: &[u8], off: usize) -> (r: Option<Vec<u128>>)
    requires
        off <= data@.len(),
    ensures
        match r {
            Some(v) => u128_array_at(data@, off as int) == Some(v@),
            None => u128_array_at(data@, off as int) is None,
        },
{
    let dn = data.len();
    if dn - off < 32 {
        return None;
    }
    let cw = read_bytes(data, off, 32);
    match word_to_index(data, &cw) {
        None => None,
        Some(cnt) => {
            if (off as u128) + 32 + 32 * (cnt as u128) > dn as u128 {
                return None;
            }
            proof {
                lemma_pow256_values();
            }
            let mut v: Vec<u128> = Vec::new();
            let mut i: usize = 0;
            while i < cnt
                invariant
                    i <= cnt,
                    dn == data@.len(),
                    (off as int) + 32 + 32 * (cnt as int) <= dn as int,
                    cnt as nat == be_nat(data@.subrange(off as int, off as int + 32)),
                    v@.len() == i,
                    forall|j: int| 0 <= j < i ==> high_zero(
                        #[trigger] array_elem(data@, off as int, j),
                        16,
                    ) && v@[j] == be_nat(array_elem(data@, off as int, j).skip(16)) as u128,
                decreases cnt - i,
            {
                let w = read_bytes(data, off + 32 + 32 * i, 32);
                if !check_zero(&w, 16) {
                    proof {
                        assert(!high_zero(array_elem(data@, off as int, i as int), 16));
                        assert(u128_array_at(data@, off as int) is None);
                    }
                    return None;
                }
                let x = be_uint(&w, 16, 16);
                proof {
                    assert(w@.subrange(16, 32) =~= array_elem(data@, off as int, i as int).skip(
                        16,
                    ));
                    lemma_be_nat_bound(w@.subrange(16, 32));
                }
                v.push(x);
                i = i + 1;
            }
            proof {
                assert(u128_array_at(data@, off as int) is Some);
                assert(v@ =~= u128_array_at(data@, off as int)->0);
            }
            Some(v)
        },
    }
}

/// Decodes the dynamic array of dynamic byte strings whose tail region starts
/// at `off`.
pub fn decode_bytes_array_at(data: &[u8], off: usize) -> (r: Option<Vec<Vec<u8>>>)
    requires
        off <= data@.len(),
    ensures
        match r {
            Some(v) => bytes_array_at(data@, off as int) == Some(
                v@.map_values(|e: Vec<u8>| e@),
            ),
            None => bytes_array_at(data@, off as int) is None,
        },
{
    let dn = data.len();
    if dn - off < 32 {
        return None;
    }
    let cw = read_bytes(data, off, 32);
    match word_to_index(data, &cw) {
        None => None,
        Some(cnt) => {
            if (off as u128) + 32 + 32 * (cnt as u128) > dn as u128 {
                return None;
            }
            let mut v: Vec<Vec<u8>> = Vec::new();
            let mut i: usize = 0;
            while i < cnt
                invariant
                    i <= cnt,
                    dn == data@.len(),
                    (off as int) + 32 + 32 * (cnt as int) <= dn as int,
                    cnt as nat == be_nat(data@.subrange(off as int, off as int + 32)),
                    v@.len() == i,
                    forall|j: int| 0 <= j < i ==> #[trigger] bytes_at(
                        data@,
                        off as int + 32 + be_nat(array_elem(data@, off as int, j)),
                    ) is Some && v@[j]@ == bytes_at(
                        data@,
                        off as int + 32 + be_nat(array_elem(data@, off as int, j)),
                    )->0,
                decreases cnt - i,
            {
                let relw = read_bytes(data, off + 32 + 32 * i, 32);
                let ghost eoff_spec = off as int + 32 + be_nat(
                    array_elem(data@, off as int, i as int),
                );
                match word_to_index(data, &relw) {
                    None => {
                        proof {
                            assert(bytes_at(data@, eoff_spec) is None);
                            assert(bytes_array_at(data@, off as int) is None);
                        }
                        return None;
                    },
                    Some(rel) => {
                        if (off as u128) + 32 + (rel as u128) > dn as u128 {
                            proof {
                                assert(bytes_at(data@, eoff_spec) is None);
                                assert(bytes_array_at(data@, off as int) is None);
                            }
                            return None;
                        }
                        let eoff = off + 32 + rel;
                        match decode_bytes_at(data, eoff) {
                            None => {
                                proof {
                                    assert(bytes_at(data@, eoff_spec) is None);
                                    assert(bytes_array_at(data@, off as int) is None);
                                }
                                return None;
                            },
                            Some(b) => {
                                v.push(b);
                                i = i + 1;
                            },
                        }
                    },
                }
            }
            proof {
                assert(bytes_array_at(data@, off as int) is Some);
                assert(v@.map_values(|e: Vec<u8>| e@) =~= bytes_array_at(data@, off as int)->0);
            }
            Some(v)
        },
    }
}

/// Decodes `data` as the head/tail tuple declared by `schema`.
///
/// The result is exactly `spec_decode(schema@, data@)`: decoding succeeds if
/// and only if the buffer is well-formed under the schema, and every failure
/// is reported as a parse failure.
pub fn decode(schema: &Vec<ParamKind>, data: &[u8]) -> (r: Result<Vec<Value>, Error>)
    ensures
        match r {
            Ok(vals) => spec_decode(schema@, data@) == Some(
                vals@.map_values(|v: Value| v@),
            ),
            Err(e) => spec_decode(schema@, data@) is None && e == Error::ParseDataFailed,
        },
{
    let dn = data.len();
    let m = schema.len();
    if 32 * (m as u128) > dn as u128 {
        return Err(Error::ParseDataFailed);
    }
    let mut vals: Vec<Value> = Vec::new();
    let mut i: usize = 0;
    while i < m
        invariant
            i <= m,
            m == schema@.len(),
            dn == data@.len(),
            32 * (m as int) <= dn as int,
            vals@.len() == i,
            forall|j: int| 0 <= j < i ==> #[trigger] decode_slot(
                schema@[j],
                data@,
                word_at(data@, j),
            ) is Some && vals@[j]@ == decode_slot(schema@[j], data@, word_at(data@, j))->0,
        decreases m - i,
    {
        let w = read_bytes(data, 32 * i, 32);
        proof {
            assert(w@ == word_at(data@, i as int));
        }
        let ghost slot = decode_slot(schema@[i as int], data@, word_at(data@, i as int));
        match schema[i] {
            ParamKind::Word => {
                vals.push(Value::Word(w));
            },
            ParamKind::U64 => {
                if !check_zero(&w, 24) {
                    proof {
                        assert(slot is None);
                        assert(!decode_ok(schema@, data@));
                    }
                    return Err(Error::ParseDataFailed);
                }
                let x = be_uint(&w, 24, 8);
                proof {
                    assert(w@.subrange(24, 32) =~= w@.skip(24));
                    lemma_be_nat_bound(w@.skip(24));
                    lemma_pow256_values();
                }
                vals.push(Value::U64(x as u64));
            },
            ParamKind::U128 => {
                if !check_zero(&w, 16) {
                    proof {
                        assert(slot is None);
                        assert(!decode_ok(schema@, data@));
                    }
                    return Err(Error::ParseDataFailed);
                }
                let x = be_uint(&w, 16, 16);
                proof {
                    assert(w@.subrange(16, 32) =~= w@.skip(16));
                    lemma_be_nat_bound(w@.skip(16));
                    lemma_pow256_values();
                }
                vals.push(Value::U128(x));
            },
            ParamKind::Bytes => {
                match word_to_index(data, &w) {
                    None => {
                        proof {
                            assert(slot is None);
                            assert(!decode_ok(schema@, data@));
                        }
                        return Err(Error::ParseDataFailed);
                    },
                    Some(off) => {
                        match decode_bytes_at(data, off) {
                            None => {
                                proof {
                                    assert(slot is None);
                                    assert(!decode_ok(schema@, data@));
                                }
                                return Err(Error::ParseDataFailed);
                            },
                            Some(b) => {
                                vals.push(Value::Bytes(b));
                            },
                        }
                    },
                }
            },
            ParamKind::WordArray => {
                match word_to_index(data, &w) {
                    None => {
                        proof {
                            assert(slot is None);
                            assert(!decode_ok(schema@, data@));
                        }
                        return Err(Error::ParseDataFailed);
                    },
                    Some(off) => {
                        match decode_word_array_at(data, off) {
                            None => {
                                proof {
                                    assert(slot is None);
                                    assert(!decode_ok(schema@, data@));
                                }
                                return Err(Error::ParseDataFailed);
                            },
                            Some(v) => {
                                vals.push(Value::WordArray(v));
                            },
                        }
                    },
                }
            },
            ParamKind::U128Array => {
                match word_to_index(data, &w) {
                    None => {
                        proof {
                            assert(slot is None);
                            assert(!decode_ok(schema@, data@));
                        }
                        return Err(Error::ParseDataFailed);
                    },
                    Some(off) => {
                        match decode_u128_array_at(data, off) {
                            None => {
                                proof {
                                    assert(slot is None);
                                    assert(!decode_ok(schema@, data@));
                                }
                                return Err(Error::ParseDataFailed);
                            },
                            Some(v) => {
                                vals.push(Value::U128Array(v));
                            },
                        }
                    },
                }
            },
            ParamKind::BytesArray => {
                match word_to_index(data, &w) {
                    None => {
                        proof {
                            assert(slot is None);
                            assert(!decode_ok(schema@, data@));
                        }
                        return Err(Error::ParseDataFailed);
                    },
                    Some(off) => {
                        match decode_bytes_array_at(data, off) {
                            None => {
                                proof {
                                    assert(slot is None);
                                    assert(!decode_ok(schema@, data@));
                                }
                                return Err(Error::ParseDataFailed);
                            },
                            Some(v) => {
                                vals.push(Value::BytesArray(v));
                            },
                        }
                    },
                }
            },
        }
        i = i + 1;
    }
    proof {
        assert(decode_ok(schema@, data@));
        assert(vals@.map_values(|v: Value| v@) =~= decode_vals(schema@, data@));
    }
    Ok(vals)
}

// === typed extraction from a decoded tuple ===

/// Removes the trailing decoded value, which must be a word.
pub fn take_word(vals: &mut Vec<Value>) -> (w: Vec<u8>)
    requires
        old(vals)@.len() > 0,
        old(vals)@.last()@ is Word,
    ensures
        final(vals)@ == old(vals)@.drop_last(),
        old(vals)@.last()@ == AbiVal::Word(w@),
{
    let v = vals.pop().unwrap();
    match v {
        Value::Word(w) => w,
        Value::U64(_) => { proof { assert(false); } Vec::new() },
        Value::U128(_) => { proof { assert(false); } Vec::new() },
        Value::Bytes(_) => { proof { assert(false); } Vec::new() },
        Value::WordArray(_) => { proof { assert(false); } Vec::new() },
        Value::U128Array(_) => { proof { assert(false); } Vec::new() },
        Value::BytesArray(_) => { proof { assert(false); } Vec::new() },
    }
}

/// Removes the trailing decoded value, which must be a 64-bit integer.
pub fn take_u64(vals: &mut Vec<Value>) -> (x: u64)
    requires
        old(vals)@.len() > 0,
        old(vals)@.last()@ is U64,
    ensures
        final(vals)@ == old(vals)@.drop_last(),
        old(vals)@.last()@ == AbiVal::U64(x),
{
    let v = vals.pop().unwrap();
    match v {
        Value::U64(x) => x,
        Value::Word(_) => { proof { assert(false); } 0 },
        Value::U128(_) => { proof { assert(false); } 0 },
        Value::Bytes(_) => { proof { assert(false); } 0 },
        Value::WordArray(_) => { proof { assert(false); } 0 },
        Value::U128Array(_) => { proof { assert(false); } 0 },
        Value::BytesArray(_) => { proof { assert(false); } 0 },
    }
}

/// Removes the trailing decoded value, which must be a 128-bit integer.
pub fn take_u128(vals: &mut Vec<Value>) -> (x: u128)
    requires
        old(vals)@.len() > 0,
        old(vals)@.last()@ is U128,
    ensures
        final(vals)@ == old(vals)@.drop_last(),
        old(vals)@.last()@ == AbiVal::U128(x),
{
    let v = vals.pop().unwrap();
    match v {
        Value::U128(x) => x,
        Value::Word(_) => { proof { assert(false); } 0 },
        Value::U64(_) => { proof { assert(false); } 0 },
        Value::Bytes(_) => { proof { assert(false); } 0 },
        Value::WordArray(_) => { proof { assert(false); } 0 },
        Value::U128Array(_) => { proof { assert(false); } 0 },
        Value::BytesArray(_) => { proof { assert(false); } 0 },
    }
}

/// Removes the trailing decoded value, which must be a byte string.
pub fn take_bytes(vals: &mut Vec<Value>) -> (b: Vec<u8>)
    requires
        old(vals)@.len() > 0,
        old(vals)@.last()@ is Bytes,
    ensures
        final(vals)@ == old(vals)@.drop_last(),
        old(vals)@.last()@ == AbiVal::Bytes(b@),
{
    let v = vals.pop().unwrap();
    match v {
        Value::Bytes(b) => b,
        Value::Word(_) => { proof { assert(false); } Vec::new() },
        Value::U64(_) => { proof { assert(false); } Vec::new() },
        Value::U128(_) => { proof { assert(false); } Vec::new() },
        Value::WordArray(_) => { proof { assert(false); } Vec::new() },
        Value::U128Array(_) => { proof { assert(false); } Vec::new() },
        Value::BytesArray(_) => { proof { assert(false); } Vec::new() },
    }
}

/// Removes the trailing decoded value, which must be an array of words.
pub fn take_word_array(vals: &mut Vec<Value>) -> (v: Vec<Vec<u8>>)
    requires
        old(vals)@.len() > 0,
        old(vals)@.last()@ is WordArray,
    ensures
        final(vals)@ == old(vals)@.drop_last(),
        old(vals)@.last()@ == AbiVal::WordArray(v@.map_values(|e: Vec<u8>| e@)),
{
    let v = vals.pop().unwrap();
    match v {
        Value::WordArray(v) => v,
        Value::Word(_) => { proof { assert(false); } Vec::new() },
        Value::U64(_) => { proof { assert(false); } Vec::new() },
        Value::U128(_) => { proof { assert(false); } Vec::new() },
        Value::Bytes(_) => { proof { assert(false); } Vec::new() },
        Value::U128Array(_) => { proof { assert(false); } Vec::new() },
        Value::BytesArray(_) => { proof { assert(false); } Vec::new() },
    }
}

/// Removes the trailing decoded value, which must be an array of 128-bit
/// integers.
pub fn take_u128_array(vals: &mut Vec<Value>) -> (v: Vec<u128>)
    requires
        old(vals)@.len() > 0,
        old(vals)@.last()@ is U128Array,
    ensures
        final(vals)@ == old(vals)@.drop_last(),
        old(vals)@.last()@ == AbiVal::U128Array(v@),
{
    let v = vals.pop().unwrap();
    match v {
        Value::U128Array(v) => v,
        Value::Word(_) => { proof { assert(false); } Vec::new() },
        Value::U64(_) => { proof { assert(false); } Vec::new() },
        Value::U128(_) => { proof { assert(false); } Vec::new() },
        Value::Bytes(_) => { proof { assert(false); } Vec::new() },
        Value::WordArray(_) => { proof { assert(false); } Vec::new() },
        Value::BytesArray(_) => { proof { assert(false); } Vec::new() },
    }
}

/// Removes the trailing decoded value, which must be an array of byte
/// strings.
pub fn take_bytes_array(vals: &mut Vec<Value>) -> (v: Vec<Vec<u8>>)
    requires
        old(vals)@.len() > 0,
        old(vals)@.last()@ is BytesArray,
    ensures
        final(vals)@ == old(vals)@.drop_last(),
        old(vals)@.last()@ == AbiVal::BytesArray(v@.map_values(|e: Vec<u8>| e@)),
{
    let v = vals.pop().unwrap();
    match v {
        Value::BytesArray(v) => v,
        Value::Word(_) => { proof { assert(false); } Vec::new() },
        Value::U64(_) => { proof { assert(false); } Vec::new() },
        Value::U128(_) => { proof { assert(false); } Vec::new() },
        Value::Bytes(_) => { proof { assert(false); } Vec::new() },
        Value::WordArray(_) => { proof { assert(false); } Vec::new() },
        Value::U128Array(_) => { proof { assert(false); } Vec::new() },
    }
}

// === the payload selector ===

/// The operation selector carried by the first four payload bytes.
pub open spec fn spec_selector(data: Seq<u8>) -> nat {
    be_nat(data.subrange(0, 4))
}

/// Reads the selector of a payload of at least four bytes.
pub fn read_selector(data: &[u8]) -> (sel: u128)
    requires
        data@.len() >= 4,
    ensures
        sel as nat == spec_selector(data@),
{
    let selb = read_bytes(data, 0, 4);
    let sel = be_uint(&selb, 0, 4);
    proof {
        assert(selb@.subrange(0, 4) =~= selb@);
    }
    sel
}

} // verus!

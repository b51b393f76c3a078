//! Element types that containers hold: their encoding, decoding and tree-hash
//! kind.
use crate::merkle::{le_bytes, lemma_le_bytes_len, Hash256};
use crate::DecodeError;
use vstd::prelude::*;

verus! {

/// How an element takes part in a container's Merkle tree.
#[derive(PartialEq, Eq, Structural, Debug, Clone, Copy)]
pub enum TreeHashKind {
    /// A fixed-width scalar: several values are packed into one 32-byte leaf.
    Basic,
    /// A container or list: each element is one leaf, its own root.
    Composite,
}

/// A type whose values can be held in a container.
pub trait SszElement: Sized {
    /// Whether every value encodes to `spec_fixed_len()` bytes.
    spec fn spec_is_fixed_len() -> bool;

    /// The size of every encoding, for a fixed-length type.
    spec fn spec_fixed_len() -> nat;

    /// The tree-hash kind of the type.
    spec fn spec_kind() -> TreeHashKind;

    /// The encoding of `v`.
    spec fn spec_encode(v: Self) -> Seq<u8>;

    /// What `bytes` decode to.
    spec fn spec_decode(bytes: Seq<u8>) -> Result<Self, DecodeError>;

    /// The tree-hash root of `v`.
    spec fn spec_root(v: Self) -> Seq<u8>;

    /// A basic type is fixed-length and its size divides a 32-byte chunk.
    proof fn lemma_layout()
        ensures
            Self::spec_kind() == TreeHashKind::Basic ==> {
                &&& Self::spec_is_fixed_len()
                &&& 1 <= Self::spec_fixed_len() <= 32
                &&& 32nat % Self::spec_fixed_len() == 0
            },
            Self::spec_fixed_len() <= 0xffff_ffff,
    ;

    /// Encodings have the declared size and decode back to their value.
    proof fn lemma_round_trip(v: Self)
        ensures
            Self::spec_is_fixed_len() ==> Self::spec_encode(v).len() == Self::spec_fixed_len(),
            Self::spec_decode(Self::spec_encode(v)) == Ok::<Self, DecodeError>(v),
    ;

    /// Returns whether every value encodes to the same number of bytes.
    fn is_ssz_fixed_len() -> (r: bool)
        ensures
            r == Self::spec_is_fixed_len(),
    ;

    /// Returns the size of every encoding for a fixed-length type, and the
    /// size of an offset otherwise.
    fn ssz_fixed_len() -> (r: usize)
        ensures
            Self::spec_is_fixed_len() ==> r == Self::spec_fixed_len(),
            !Self::spec_is_fixed_len() ==> r == 4,
    ;

    /// Returns the tree-hash kind of the type.
    fn tree_hash_kind() -> (r: TreeHashKind)
        ensures
            r == Self::spec_kind(),
    ;

    /// Returns the size of the encoding of `self`.
    fn ssz_bytes_len(&self) -> (r: usize)
        requires
            Self::spec_encode(*self).len() <= usize::MAX,
        ensures
            r == Self::spec_encode(*self).len(),
    ;

    /// Appends the encoding of `self` to `buf`.
    fn ssz_append(&self, buf: &mut Vec<u8>)
        ensures
            final(buf)@ == old(buf)@ + Self::spec_encode(*self),
    ;

    /// Decodes a value from `bytes`.
    fn from_ssz_bytes(bytes: &[u8]) -> (r: Result<Self, DecodeError>)
        ensures
            r == Self::spec_decode(bytes@),
    ;

    /// Returns the tree-hash root of `self`.
    fn tree_hash_root(&self) -> (r: Hash256)
        ensures
            r@ == Self::spec_root(*self),
    ;
}

/// `256^n`.
pub open spec fn pow256(n: nat) -> nat
    decreases n,
{
    if n == 0 {
        1
    } else {
        256 * pow256((n - 1) as nat)
    }
}

/// The number whose little-endian bytes are `bytes`.
pub open spec fn le_value(bytes: Seq<u8>) -> nat
    decreases bytes.len(),
{
    if bytes.len() == 0 {
        0
    } else {
        bytes[0] as nat + 256 * le_value(bytes.drop_first())
    }
}

/// `bytes` padded with zeros to a 32-byte chunk.
pub open spec fn pad_to_chunk(bytes: Seq<u8>) -> Seq<u8> {
    bytes + Seq::new((32 - bytes.len()) as nat, |i: int| 0u8)
}

/// The decoding of an unsigned integer of `size` bytes.
pub open spec fn uint_decode(bytes: Seq<u8>, size: nat) -> Result<nat, DecodeError> {
    if bytes.len() == size {
        Ok(le_value(bytes))
    } else {
        Err(DecodeError::InvalidByteLength { len: bytes.len() as usize, expected: size as usize })
    }
}

pub proof fn lemma_pow256_values()
    ensures
        pow256(1) == 0x100,
        pow256(2) == 0x1_0000,
        pow256(4) == 0x1_0000_0000,
        pow256(7) == 0x100_0000_0000_0000,
        pow256(8) == 0x1_0000_0000_0000_0000,
{
    reveal_with_fuel(pow256, 9);
}

pub proof fn lemma_pow256_mono(a: nat, b: nat)
    requires
        a <= b,
    ensures
        pow256(a) <= pow256(b),
    decreases b,
{
    if a < b {
        lemma_pow256_mono(a, (b - 1) as nat);
    }
}

pub proof fn lemma_le_value_bound(bytes: Seq<u8>)
    ensures
        le_value(bytes) < pow256(bytes.len()),
    decreases bytes.len(),
{
    if bytes.len() > 0 {
        lemma_le_value_bound(bytes.drop_first());
    }
}

/// Reading back the little-endian bytes of a value that fits gives the value.
pub proof fn lemma_le_round_trip(v: nat, n: nat)
    requires
        v < pow256(n),
    ensures
        le_value(le_bytes(v, n)) == v,
    decreases n,
{
    if n > 0 {
        let rest = le_bytes(v / 256, (n - 1) as nat);
        assert(le_bytes(v, n).drop_first() =~= rest);
        assert(v / 256 < pow256((n - 1) as nat)) by (nonlinear_arith)
            requires
                v < 256 * pow256((n - 1) as nat),
        ;
        lemma_le_round_trip(v / 256, (n - 1) as nat);
    }
}

/// Appends the `n` low bytes of `v` to `buf`, least significant first.
fn append_le(buf: &mut Vec<u8>, v: u64, n: usize)
    ensures
        final(buf)@ == old(buf)@ + le_bytes(v as nat, n as nat),
{
    let ghost start = buf@;
    let mut x: u64 = v;
    let mut i: usize = 0;
    while i < n
        invariant
            i <= n,
            start + le_bytes(v as nat, n as nat) == buf@ + le_bytes(x as nat, (n - i) as nat),
        decreases n - i,
    {
        let ghost before = buf@;
        let ghost rest = le_bytes((x / 256) as nat, (n - i - 1) as nat);
        buf.push((x % 256) as u8);
        assert(before + le_bytes(x as nat, (n - i) as nat) =~= buf@ + rest);
        x = x / 256;
        i = i + 1;
    }
    assert(buf@ + le_bytes(x as nat, 0) =~= buf@);
}

/// Returns the number whose little-endian bytes are `bytes`.
fn read_le(bytes: &[u8]) -> (r: u64)
    requires
        bytes@.len() <= 8,
    ensures
        r == le_value(bytes@),
{
    let len = bytes.len();
    let mut acc: u64 = 0;
    let mut i: usize = len;
    proof {
        assert(bytes@.subrange(len as int, len as int) =~= Seq::<u8>::empty());
    }
    while i > 0
        invariant
            i <= len,
            len == bytes@.len(),
            len <= 8,
            acc as nat == le_value(bytes@.subrange(i as int, len as int)),
        decreases i,
    {
        proof {
            let s = bytes@.subrange(i - 1, len as int);
            assert(s.drop_first() =~= bytes@.subrange(i as int, len as int));
            lemma_le_value_bound(bytes@.subrange(i as int, len as int));
            lemma_pow256_mono((len - i) as nat, 7);
            lemma_pow256_values();
        }
        acc = acc * 256 + bytes[i - 1] as u64;
        i = i - 1;
    }
    assert(bytes@.subrange(0, len as int) =~= bytes@);
    acc
}

/// Returns `v`'s `n` little-endian bytes padded to a chunk.
fn uint_root(v: u64, n: usize) -> (r: Hash256)
    requires
        n <= 32,
    ensures
        r@ == pad_to_chunk(le_bytes(v as nat, n as nat)),
{
    let mut buf: Vec<u8> = Vec::new();
    append_le(&mut buf, v, n);
    proof {
        lemma_le_bytes_len(v as nat, n as nat);
    }
    let mut out: Hash256 = [0u8; 32];
    let mut i: usize = 0;
    while i < n
        invariant
            i <= n,
            n <= 32,
            buf@.len() == n,
            out@.len() == 32,
            forall|j: int| 0 <= j < i ==> out@[j] == buf@[j],
            forall|j: int| i <= j < 32 ==> out@[j] == 0u8,
        decreases n - i,
    {
        out[i] = buf[i];
        i = i + 1;
    }
    assert(out@ =~= pad_to_chunk(le_bytes(v as nat, n as nat)));
    out
}

impl SszElement for u8 {
    open spec fn spec_is_fixed_len() -> bool {
        true
    }

    open spec fn spec_fixed_len() -> nat {
        1
    }

    open spec fn spec_kind() -> TreeHashKind {
        TreeHashKind::Basic
    }

    open spec fn spec_encode(v: u8) -> Seq<u8> {
        le_bytes(v as nat, 1)
    }

    open spec fn spec_decode(bytes: Seq<u8>) -> Result<u8, DecodeError> {
        match uint_decode(bytes, 1) {
            Ok(v) => Ok(v as u8),
            Err(e) => Err(e),
        }
    }

    open spec fn spec_root(v: u8) -> Seq<u8> {
        pad_to_chunk(le_bytes(v as nat, 1))
    }

    proof fn lemma_layout() {
    }

    proof fn lemma_round_trip(v: u8) {
        lemma_le_bytes_len(v as nat, 1);
        lemma_pow256_values();
        lemma_le_round_trip(v as nat, 1);
    }

    fn is_ssz_fixed_len() -> (r: bool) {
        true
    }

    fn ssz_fixed_len() -> (r: usize) {
        1
    }

    fn tree_hash_kind() -> (r: TreeHashKind) {
        TreeHashKind::Basic
    }

    fn ssz_bytes_len(&self) -> (r: usize) {
        proof {
            lemma_le_bytes_len(*self as nat, 1);
        }
        1
    }

    fn ssz_append(&self, buf: &mut Vec<u8>) {
        append_le(buf, *self as u64, 1);
    }

    fn from_ssz_bytes(bytes: &[u8]) -> (r: Result<u8, DecodeError>) {
        if bytes.len() != 1 {
            Err(DecodeError::InvalidByteLength { len: bytes.len(), expected: 1 })
        } else {
            proof {
                lemma_le_value_bound(bytes@);
                lemma_pow256_values();
            }
            Ok(read_le(bytes) as u8)
        }
    }

    fn tree_hash_root(&self) -> (r: Hash256) {
        uint_root(*self as u64, 1)
    }
}

impl SszElement for u16 {
    open spec fn spec_is_fixed_len() -> bool {
        true
    }

    open spec fn spec_fixed_len() -> nat {
        2
    }

    open spec fn spec_kind() -> TreeHashKind {
        TreeHashKind::Basic
    }

    open spec fn spec_encode(v: u16) -> Seq<u8> {
        le_bytes(v as nat, 2)
    }

    open spec fn spec_decode(bytes: Seq<u8>) -> Result<u16, DecodeError> {
        match uint_decode(bytes, 2) {
            Ok(v) => Ok(v as u16),
            Err(e) => Err(e),
        }
    }

    open spec fn spec_root(v: u16) -> Seq<u8> {
        pad_to_chunk(le_bytes(v as nat, 2))
    }

    proof fn lemma_layout() {
    }

    proof fn lemma_round_trip(v: u16) {
        lemma_le_bytes_len(v as nat, 2);
        lemma_pow256_values();
        lemma_le_round_trip(v as nat, 2);
    }

    fn is_ssz_fixed_len() -> (r: bool) {
        true
    }

    fn ssz_fixed_len() -> (r: usize) {
        2
    }

    fn tree_hash_kind() -> (r: TreeHashKind) {
        TreeHashKind::Basic
    }

    fn ssz_bytes_len(&self) -> (r: usize) {
        proof {
            lemma_le_bytes_len(*self as nat, 2);
        }
        2
    }

    fn ssz_append(&self, buf: &mut Vec<u8>) {
        append_le(buf, *self as u64, 2);
    }

    fn from_ssz_bytes(bytes: &[u8]) -> (r: Result<u16, DecodeError>) {
        if bytes.len() != 2 {
            Err(DecodeError::InvalidByteLength { len: bytes.len(), expected: 2 })
        } else {
            proof {
                lemma_le_value_bound(bytes@);
                lemma_pow256_values();
            }
            Ok(read_le(bytes) as u16)
        }
    }

    fn tree_hash_root(&self) -> (r: Hash256) {
        uint_root(*self as u64, 2)
    }
}

impl SszElement for u32 {
    open spec fn spec_is_fixed_len() -> bool {
        true
    }

    open spec fn spec_fixed_len() -> nat {
        4
    }

    open spec fn spec_kind() -> TreeHashKind {
        TreeHashKind::Basic
    }

    open spec fn spec_encode(v: u32) -> Seq<u8> {
        le_bytes(v as nat, 4)
    }

    open spec fn spec_decode(bytes: Seq<u8>) -> Result<u32, DecodeError> {
        match uint_decode(bytes, 4) {
            Ok(v) => Ok(v as u32),
            Err(e) => Err(e),
        }
    }

    open spec fn spec_root(v: u32) -> Seq<u8> {
        pad_to_chunk(le_bytes(v as nat, 4))
    }

    proof fn lemma_layout() {
    }

    proof fn lemma_round_trip(v: u32) {
        lemma_le_bytes_len(v as nat, 4);
        lemma_pow256_values();
        lemma_le_round_trip(v as nat, 4);
    }

    fn is_ssz_fixed_len() -> (r: bool) {
        true
    }

    fn ssz_fixed_len() -> (r: usize) {
        4
    }

    fn tree_hash_kind() -> (r: TreeHashKind) {
        TreeHashKind::Basic
    }

    fn ssz_bytes_len(&self) -> (r: usize) {
        proof {
            lemma_le_bytes_len(*self as nat, 4);
        }
        4
    }

    fn ssz_append(&self, buf: &mut Vec<u8>) {
        append_le(buf, *self as u64, 4);
    }

    fn from_ssz_bytes(bytes: &[u8]) -> (r: Result<u32, DecodeError>) {
        if bytes.len() != 4 {
            Err(DecodeError::InvalidByteLength { len: bytes.len(), expected: 4 })
        } else {
            proof {
                lemma_le_value_bound(bytes@);
                lemma_pow256_values();
            }
            Ok(read_le(bytes) as u32)
        }
    }

    fn tree_hash_root(&self) -> (r: Hash256) {
        uint_root(*self as u64, 4)
    }
}

impl SszElement for u64 {
    open spec fn spec_is_fixed_len() -> bool {
        true
    }

    open spec fn spec_fixed_len() -> nat {
        8
    }

    open spec fn spec_kind() -> TreeHashKind {
        TreeHashKind::Basic
    }

    open spec fn spec_encode(v: u64) -> Seq<u8> {
        le_bytes(v as nat, 8)
    }

    open spec fn spec_decode(bytes: Seq<u8>) -> Result<u64, DecodeError> {
        match uint_decode(bytes, 8) {
            Ok(v) => Ok(v as u64),
            Err(e) => Err(e),
        }
    }

    open spec fn spec_root(v: u64) -> Seq<u8> {
        pad_to_chunk(le_bytes(v as nat, 8))
    }

    proof fn lemma_layout() {
    }

    proof fn lemma_round_trip(v: u64) {
        lemma_le_bytes_len(v as nat, 8);
        lemma_pow256_values();
        lemma_le_round_trip(v as nat, 8);
    }

    fn is_ssz_fixed_len() -> (r: bool) {
        true
    }

    fn ssz_fixed_len() -> (r: usize) {
        8
    }

    fn tree_hash_kind() -> (r: TreeHashKind) {
        TreeHashKind::Basic
    }

    fn ssz_bytes_len(&self) -> (r: usize) {
        proof {
            lemma_le_bytes_len(*self as nat, 8);
        }
        8
    }

    fn ssz_append(&self, buf: &mut Vec<u8>) {
        append_le(buf, *self, 8);
    }

    fn from_ssz_bytes(bytes: &[u8]) -> (r: Result<u64, DecodeError>) {
        if bytes.len() != 8 {
            Err(DecodeError::InvalidByteLength { len: bytes.len(), expected: 8 })
        } else {
            proof {
                lemma_le_value_bound(bytes@);
                lemma_pow256_values();
            }
            Ok(read_le(bytes))
        }
    }

    fn tree_hash_root(&self) -> (r: Hash256) {
        uint_root(*self, 8)
    }
}

impl SszElement for Hash256 {
    open spec fn spec_is_fixed_len() -> bool {
        true
    }

    open spec fn spec_fixed_len() -> nat {
        32
    }

    open spec fn spec_kind() -> TreeHashKind {
        TreeHashKind::Composite
    }

    open spec fn spec_encode(v: Hash256) -> Seq<u8> {
        v@
    }

    open spec fn spec_decode(bytes: Seq<u8>) -> Result<Hash256, DecodeError> {
        if bytes.len() == 32 {
            Ok(choose|h: Hash256| h@ == bytes)
        } else {
            Err(DecodeError::InvalidByteLength { len: bytes.len() as usize, expected: 32 })
        }
    }

    open spec fn spec_root(v: Hash256) -> Seq<u8> {
        v@
    }

    proof fn lemma_layout() {
    }

    proof fn lemma_round_trip(v: Hash256) {
        let h = choose|h: Hash256| h@ == v@;
        assert(h =~= v);
    }

    fn is_ssz_fixed_len() -> (r: bool) {
        true
    }

    fn ssz_fixed_len() -> (r: usize) {
        32
    }

    fn tree_hash_kind() -> (r: TreeHashKind) {
        TreeHashKind::Composite
    }

    fn ssz_bytes_len(&self) -> (r: usize) {
        32
    }

    fn ssz_append(&self, buf: &mut Vec<u8>) {
        let ghost start = buf@;
        let mut i: usize = 0;
        while i < 32
            invariant
                i <= 32,
                buf@ == start + self@.subrange(0, i as int),
            decreases 32 - i,
        {
            buf.push(self[i]);
            i = i + 1;
            assert(buf@ =~= start + self@.subrange(0, i as int));
        }
        assert(self@.subrange(0, 32) =~= self@);
    }

    fn from_ssz_bytes(bytes: &[u8]) -> (r: Result<Hash256, DecodeError>) {
        if bytes.len() != 32 {
            Err(DecodeError::InvalidByteLength { len: bytes.len(), expected: 32 })
        } else {
            let mut out: Hash256 = [0u8; 32];
            let mut i: usize = 0;
            while i < 32
                invariant
                    i <= 32,
                    bytes@.len() == 32,
                    out@.len() == 32,
                    forall|j: int| 0 <= j < i ==> out@[j] == bytes@[j],
                decreases 32 - i,
            {
                out[i] = bytes[i];
                i = i + 1;
            }
            proof {
                assert(out@ =~= bytes@);
                let h = choose|h: Hash256| h@ == bytes@;
                assert(h =~= out);
            }
            Ok(out)
        }
    }

    fn tree_hash_root(&self) -> (r: Hash256) {
        *self
    }
}

} // verus!

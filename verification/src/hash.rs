//! Hash outputs, the long-term hash function and commitments built on it.
use vstd::prelude::*;
use crate::bytes::{le_bytes, lemma_pow256_values, write_le};
use crate::codec::{Deserializable, RoundTrip, Serializable};
use crate::versioned::{CodecError, Version, Versioned};

verus! {

broadcast use vstd::array::group_array_axioms;

/// The number of bytes of a hash output.
pub const PERSISTENT_HASH_BYTES: usize = 32;

/// A 32-byte hash output.
#[derive(Clone, Copy, Debug, PartialEq, Eq, PartialOrd, Ord, Hash)]
pub struct HashOutput(pub [u8; 32]);

impl DeepView for HashOutput {
    type V = HashOutput;

    open spec fn deep_view(&self) -> HashOutput {
        *self
    }
}

/// The SHA-256 digest of a byte sequence.
pub uninterp spec fn sha256(data: Seq<u8>) -> Seq<u8>;

/// Calls `sha2::Sha256::digest` on `data`. Trusted: the 32 bytes returned are
/// the SHA-256 digest of `data`, named `sha256`; nothing else is claimed of them.
#[verifier::external_body]
fn sha256_digest(data: &[u8]) -> (r: [u8; 32])
    ensures
        r@ == sha256(data@),
{
    <sha2::Sha256 as sha2::Digest>::digest(data).into()
}

/// The hash output whose bytes are `s`, for a 32-byte `s`.
pub open spec fn hash_of_bytes(s: Seq<u8>) -> HashOutput {
    HashOutput(choose|a: [u8; 32]| #[trigger] vstd::array::array_view(a) == s)
}

/// Every hash output is the hash output of its own bytes.
pub proof fn lemma_hash_of_bytes(h: HashOutput)
    ensures
        hash_of_bytes(h.0@) == h,
{
    assert(vstd::array::array_view(h.0) == h.0@);
    let c = hash_of_bytes(h.0@).0;
    assert(vstd::array::array_view(c) == h.0@);
    assert(c@ == h.0@);
    assert(c == h.0);
}

/// A zeroed hash output.
pub fn blank_hash() -> (h: HashOutput)
    ensures
        h.0@ == Seq::new(32, |i: int| 0u8),
{
    let h = HashOutput([0u8; 32]);
    assert(h.0@ =~= Seq::new(32, |i: int| 0u8));
    h
}

impl HashOutput {
    /// Whether two hash outputs hold the same bytes.
    pub fn same_as(&self, other: &HashOutput) -> (b: bool)
        ensures
            b == (*self == *other),
    {
        let mut i: usize = 0;
        while i < 32
            invariant
                i <= 32,
                forall|j: int| 0 <= j < i ==> self.0@[j] == other.0@[j],
            decreases 32 - i,
        {
            if self.0[i] != other.0[i] {
                return false;
            }
            i = i + 1;
        }
        assert(self.0@ =~= other.0@);
        assert(self.0 == other.0);
        true
    }

    /// Appends the 32 bytes of this hash output to `out`.
    pub fn write_bytes(&self, out: &mut Vec<u8>)
        ensures
            final(out)@ == old(out)@ + self.0@,
    {
        let ghost start = out@;
        let mut i: usize = 0;
        while i < 32
            invariant
                i <= 32,
                out@ == start + self.0@.take(i as int),
            decreases 32 - i,
        {
            out.push(self.0[i]);
            assert(self.0@.take(i + 1) =~= self.0@.take(i as int).push(self.0@[i as int]));
            i = i + 1;
        }
        assert(self.0@.take(32) =~= self.0@);
    }

    /// Reads 32 bytes of `data` starting at `pos` as a hash output.
    pub fn read_bytes(data: &[u8], pos: usize) -> (h: HashOutput)
        requires
            pos + 32 <= data@.len(),
        ensures
            h.0@ == data@.subrange(pos as int, pos + 32),
            h == hash_of_bytes(data@.subrange(pos as int, pos + 32)),
    {
        let mut a = [0u8; 32];
        let mut i: usize = 0;
        while i < 32
            invariant
                i <= 32,
                pos + 32 <= data.len(),
                a@.len() == 32,
                forall|j: int| 0 <= j < i ==> a@[j] == data@[pos + j],
            decreases 32 - i,
        {
            a[i] = data[pos + i];
            i = i + 1;
        }
        assert(a@ =~= data@.subrange(pos as int, pos + 32));
        let h = HashOutput(a);
        proof {
            lemma_hash_of_bytes(h);
        }
        h
    }
}

/// The long-term hash of `a`.
pub fn persistent_hash(a: &[u8]) -> (h: HashOutput)
    ensures
        h.0@ == sha256(a@),
{
    HashOutput(sha256_digest(a))
}

/// Values with a canonical byte representation for hashing.
pub trait BinaryHashRepr {
    /// The bytes that represent the value.
    spec fn spec_binary_repr(&self) -> Seq<u8>;

    /// Appends the representation of the value to `out`.
    fn binary_repr(&self, out: &mut Vec<u8>)
        ensures
            final(out)@ == old(out)@ + self.spec_binary_repr(),
    ;
}

impl BinaryHashRepr for HashOutput {
    /// The 32 bytes themselves.
    open spec fn spec_binary_repr(&self) -> Seq<u8> {
        self.0@
    }

    fn binary_repr(&self, out: &mut Vec<u8>) {
        self.write_bytes(out);
    }
}

impl BinaryHashRepr for bool {
    /// One byte, `1` for `true` and `0` for `false`.
    open spec fn spec_binary_repr(&self) -> Seq<u8> {
        seq![if *self { 1u8 } else { 0u8 }]
    }

    fn binary_repr(&self, out: &mut Vec<u8>) {
        out.push(if *self { 1u8 } else { 0u8 });
    }
}

impl BinaryHashRepr for u64 {
    /// Eight bytes, little-endian.
    open spec fn spec_binary_repr(&self) -> Seq<u8> {
        le_bytes(*self as nat, 8)
    }

    fn binary_repr(&self, out: &mut Vec<u8>) {
        proof {
            lemma_pow256_values();
        }
        write_le(out, *self as u128, 8);
    }
}

impl BinaryHashRepr for u128 {
    /// Sixteen bytes, little-endian.
    open spec fn spec_binary_repr(&self) -> Seq<u8> {
        le_bytes(*self as nat, 16)
    }

    fn binary_repr(&self, out: &mut Vec<u8>) {
        proof {
            lemma_pow256_values();
        }
        write_le(out, *self, 16);
    }
}

impl BinaryHashRepr for Vec<u8> {
    /// The bytes themselves.
    open spec fn spec_binary_repr(&self) -> Seq<u8> {
        self@
    }

    fn binary_repr(&self, out: &mut Vec<u8>) {
        let ghost start = out@;
        let mut i: usize = 0;
        while i < self.len()
            invariant
                i <= self@.len(),
                out@ == start + self@.take(i as int),
            decreases self@.len() - i,
        {
            out.push(self[i]);
            assert(self@.take(i + 1) =~= self@.take(i as int).push(self@[i as int]));
            i = i + 1;
        }
        assert(self@.take(self@.len() as int) =~= self@);
    }
}

impl<A: BinaryHashRepr, B: BinaryHashRepr> BinaryHashRepr for (A, B) {
    /// The first component, then the second.
    open spec fn spec_binary_repr(&self) -> Seq<u8> {
        self.0.spec_binary_repr() + self.1.spec_binary_repr()
    }

    fn binary_repr(&self, out: &mut Vec<u8>) {
        let ghost start = out@;
        self.0.binary_repr(out);
        self.1.binary_repr(out);
        assert(out@ =~= start + (self.0.spec_binary_repr() + self.1.spec_binary_repr()));
    }
}

/// The bytes a commitment to `value` under `opening` hashes.
pub open spec fn commit_preimage<T: BinaryHashRepr>(value: &T, opening: HashOutput) -> Seq<u8> {
    opening.0@ + value.spec_binary_repr()
}

/// Commits to `value` with the hash of the opening's bytes followed by the value's representation.
pub fn persistent_commit<T: BinaryHashRepr>(value: &T, opening: HashOutput) -> (h: HashOutput)
    ensures
        h.0@ == sha256(commit_preimage(value, opening)),
{
    let mut data: Vec<u8> = Vec::new();
    opening.binary_repr(&mut data);
    value.binary_repr(&mut data);
    assert(data@ =~= commit_preimage(value, opening));
    persistent_hash(data.as_slice())
}

impl Versioned for HashOutput {
    open spec fn obeys_codec_spec() -> bool {
        true
    }

    open spec fn spec_version() -> Option<Version> {
        None
    }

    open spec fn spec_network_specific() -> bool {
        false
    }

    open spec fn spec_limit_recursion() -> bool {
        false
    }

    fn version() -> (r: Option<Version>) {
        None
    }

    fn network_specific() -> (r: bool) {
        false
    }

    fn limit_recursion() -> (r: bool) {
        false
    }
}

impl Serializable for HashOutput {
    open spec fn spec_serializable(v: HashOutput) -> bool {
        true
    }

    /// The 32 bytes themselves.
    open spec fn spec_unversioned(v: HashOutput) -> Seq<u8> {
        v.0@
    }

    open spec fn spec_unversioned_size(v: HashOutput) -> nat {
        32
    }

    fn unversioned_serialize(value: &HashOutput, out: &mut Vec<u8>) -> (r: Result<(), CodecError>) {
        value.write_bytes(out);
        Ok(())
    }

    fn unversioned_serialized_size(value: &HashOutput) -> (n: usize) {
        32
    }
}

impl Deserializable for HashOutput {
    open spec fn spec_versioned_deserialize(data: Seq<u8>, version: Option<Version>, depth: u32)
        -> Option<(HashOutput, nat)> {
        if data.len() < 32 {
            None
        } else {
            Some((hash_of_bytes(data.take(32)), 32))
        }
    }

    open spec fn spec_decodable(v: HashOutput, depth: u32) -> bool {
        true
    }

    fn versioned_deserialize(
        data: &[u8],
        pos: &mut usize,
        version: Option<Version>,
        depth: u32,
    ) -> (r: Result<HashOutput, CodecError>) {
        if data.len() - *pos < 32 {
            return Err(CodecError::UnexpectedEndOfInput);
        }
        let h = HashOutput::read_bytes(data, *pos);
        assert(data@.skip(*pos as int).take(32) =~= data@.subrange(*pos as int, *pos + 32));
        *pos = *pos + 32;
        Ok(h)
    }
}

impl RoundTrip for HashOutput {
    proof fn lemma_unversioned_roundtrip(v: HashOutput, rest: Seq<u8>, depth: u32) {
        let s = v.0@ + rest;
        assert(s.take(32) =~= v.0@);
        lemma_hash_of_bytes(v);
    }

    proof fn lemma_unversioned_size(v: HashOutput) {
    }
}

} // verus!

//! Schnorr signatures over secp256k1 (BIP 340): keys and signatures held as
//! their bytes, with the curve arithmetic done by `k256`.
use vstd::prelude::*;
use crate::codec::{Deserializable, RoundTrip, Serializable};
use crate::versioned::{CodecError, Version, Versioned};

verus! {

broadcast use vstd::array::group_array_axioms;

/// Whether `b` is the 32-byte x-coordinate of a BIP 340 public key.
pub uninterp spec fn schnorr_public_key_valid(b: Seq<u8>) -> bool;

/// Whether `b` is a 64-byte BIP 340 signature in canonical form.
pub uninterp spec fn schnorr_signature_valid(b: Seq<u8>) -> bool;

/// Whether `b` is the 32-byte big-endian encoding of a nonzero secret scalar.
pub uninterp spec fn schnorr_secret_valid(b: Seq<u8>) -> bool;

/// Whether `sig` is a valid signature of `msg` under the public key `vk`.
pub uninterp spec fn schnorr_verifies(vk: Seq<u8>, msg: Seq<u8>, sig: Seq<u8>) -> bool;

/// The public key of the secret key `sk`.
pub uninterp spec fn schnorr_public_key(sk: Seq<u8>) -> Seq<u8>;

/// The bytes `k256` keeps for the secret key `sk`: the scalar, negated where
/// its point has an odd y-coordinate.
pub uninterp spec fn schnorr_normalized_secret(sk: Seq<u8>) -> Seq<u8>;

/// Parses `sk` with `k256::schnorr::SigningKey::from_bytes` and returns
/// `to_bytes` of the key. Trusted: `from_bytes` keeps the scalar negated where
/// its point's y-coordinate is odd; the result is again a valid secret, is its
/// own normalization (its point's y is even), and has the same x-only public key.
#[verifier::external_body]
fn normalized_secret(sk: &[u8; 32]) -> (r: [u8; 32])
    requires
        schnorr_secret_valid(sk@),
    ensures
        r@ == schnorr_normalized_secret(sk@),
        schnorr_secret_valid(r@),
        schnorr_normalized_secret(r@) == r@,
        schnorr_public_key(r@) == schnorr_public_key(sk@),
{
    k256::schnorr::SigningKey::from_bytes(&sk[..]).expect("the secret key bytes are valid").to_bytes().into()
}

/// Calls `k256::schnorr::VerifyingKey::from_bytes`. Trusted: whether it accepts
/// the bytes depends on the bytes alone.
#[verifier::external_body]
fn public_key_bytes_valid(b: &[u8; 32]) -> (r: bool)
    ensures
        r == schnorr_public_key_valid(b@),
{
    k256::schnorr::VerifyingKey::from_bytes(&b[..]).is_ok()
}

/// Calls `k256::schnorr::Signature::try_from` on 64 bytes. Trusted: whether it
/// accepts the bytes depends on the bytes alone.
#[verifier::external_body]
fn signature_bytes_valid(b: &[u8; 64]) -> (r: bool)
    ensures
        r == schnorr_signature_valid(b@),
{
    k256::schnorr::Signature::try_from(&b[..]).is_ok()
}

/// Calls `k256::schnorr::SigningKey::from_bytes`. Trusted: whether it accepts
/// the bytes depends on the bytes alone.
#[verifier::external_body]
fn secret_bytes_valid(b: &[u8; 32]) -> (r: bool)
    ensures
        r == schnorr_secret_valid(b@),
{
    k256::schnorr::SigningKey::from_bytes(&b[..]).is_ok()
}

/// Parses `vk` and `sig` with `k256` and calls `Verifier::verify` on `msg`;
/// false when either fails to parse. Trusted: the answer depends on the three
/// byte strings alone.
#[verifier::external_body]
fn schnorr_verify(vk: &[u8; 32], msg: &[u8], sig: &[u8; 64]) -> (r: bool)
    ensures
        r == schnorr_verifies(vk@, msg@, sig@),
{
    match (k256::schnorr::VerifyingKey::from_bytes(&vk[..]), k256::schnorr::Signature::try_from(&sig[..])) {
        (Ok(k), Ok(s)) => k256::schnorr::signature::Verifier::verify(&k, msg, &s).is_ok(),
        _ => false,
    }
}

/// Parses the secret key `sk` with `k256` and returns the bytes of its
/// verifying key. Trusted: the bytes depend on `sk` alone and are those of a
/// public key that `VerifyingKey::from_bytes` accepts.
#[verifier::external_body]
fn schnorr_verifying_key(sk: &[u8; 32]) -> (r: [u8; 32])
    requires
        schnorr_secret_valid(sk@),
    ensures
        r@ == schnorr_public_key(sk@),
        schnorr_public_key_valid(r@),
{
    let k = k256::schnorr::SigningKey::from_bytes(&sk[..]).expect("the secret key bytes are valid");
    k.verifying_key().to_bytes().into()
}

/// Calls `k256::schnorr::SigningKey::random` with the operating system's
/// generator and returns the key's bytes. Trusted: the bytes are a nonzero
/// scalar that `SigningKey::from_bytes` accepts, already normalized (`random`
/// goes through the same negation as `from_bytes`); which one is left to chance.
#[verifier::external_body]
fn schnorr_random_secret() -> (r: [u8; 32])
    ensures
        schnorr_secret_valid(r@),
        schnorr_normalized_secret(r@) == r@,
{
    k256::schnorr::SigningKey::random(&mut rand::rngs::OsRng).to_bytes().into()
}

/// Signs `msg` with the secret key `sk` through `RandomizedSigner::sign_with_rng`
/// and the operating system's generator. Trusted: the signature verifies over
/// `msg` under the key's public key (BIP 340 signing; `sign_raw` checks it in
/// debug builds), and `Signature::try_from` accepts its bytes (an x-coordinate
/// and a nonzero scalar); which signature comes out is left to chance.
#[verifier::external_body]
fn schnorr_sign(sk: &[u8; 32], msg: &[u8]) -> (r: [u8; 64])
    requires
        schnorr_secret_valid(sk@),
    ensures
        schnorr_verifies(schnorr_public_key(sk@), msg@, r@),
        schnorr_signature_valid(r@),
{
    let k = k256::schnorr::SigningKey::from_bytes(&sk[..]).expect("the secret key bytes are valid");
    k256::schnorr::signature::RandomizedSigner::sign_with_rng(&k, &mut rand::rngs::OsRng, msg).to_bytes()
}

/// A verifying public key: the 32 bytes of its x-coordinate, always a valid key.
#[derive(Clone, Copy, Debug, PartialEq, Eq, PartialOrd, Ord, Hash)]
pub struct VerifyingKey([u8; 32]);

/// A signing secret key.
#[derive(Clone, Copy)]
pub struct SigningKey([u8; 32]);

/// A Schnorr signature: 64 bytes, always in valid form.
#[derive(Clone, Copy, Debug, PartialEq, Eq, PartialOrd, Ord, Hash)]
pub struct Signature([u8; 64]);

impl View for VerifyingKey {
    type V = Seq<u8>;

    closed spec fn view(&self) -> Seq<u8> {
        self.0@
    }
}

impl View for Signature {
    type V = Seq<u8>;

    closed spec fn view(&self) -> Seq<u8> {
        self.0@
    }
}

/// The key whose bytes are `s`.
pub closed spec fn key_of(s: Seq<u8>) -> VerifyingKey {
    VerifyingKey(array32_of(s))
}

/// The signature whose bytes are `s`.
pub closed spec fn signature_of(s: Seq<u8>) -> Signature {
    Signature(array64_of(s))
}

/// Keys with the same bytes are the same key.
pub proof fn lemma_key_view_injective(a: VerifyingKey, b: VerifyingKey)
    ensures
        a@ == b@ ==> a == b,
{
    if a@ == b@ {
        assert(a.0 == b.0);
    }
}

/// Signatures with the same bytes are the same signature.
pub proof fn lemma_signature_view_injective(a: Signature, b: Signature)
    ensures
        a@ == b@ ==> a == b,
{
    if a@ == b@ {
        assert(a.0 == b.0);
    }
}

/// A key's bytes are 32.
pub proof fn lemma_key_len(k: VerifyingKey)
    ensures
        k@.len() == 32,
{
}

/// A signature's bytes are 64.
pub proof fn lemma_signature_len(s: Signature)
    ensures
        s@.len() == 64,
{
}

impl VerifyingKey {
    /// The key's bytes are a valid public key.
    #[verifier::type_invariant]
    spec fn valid(self) -> bool {
        schnorr_public_key_valid(self.0@)
    }

    /// The key whose bytes are `bytes`, if they are a valid public key.
    pub fn from_bytes(bytes: [u8; 32]) -> (r: Option<VerifyingKey>)
        ensures
            match r {
                Some(k) => schnorr_public_key_valid(bytes@) && k@ == bytes@,
                None => !schnorr_public_key_valid(bytes@),
            },
    {
        if public_key_bytes_valid(&bytes) {
            Some(VerifyingKey(bytes))
        } else {
            None
        }
    }

    /// The key's 32 bytes.
    pub fn as_bytes(&self) -> (b: &[u8; 32])
        ensures
            b@ == self@,
    {
        &self.0
    }
}

impl Signature {
    /// The signature's bytes are in valid form.
    #[verifier::type_invariant]
    spec fn valid(self) -> bool {
        schnorr_signature_valid(self.0@)
    }

    /// The signature whose bytes are `bytes`, if they are in valid form.
    pub fn from_bytes(bytes: [u8; 64]) -> (r: Option<Signature>)
        ensures
            match r {
                Some(s) => schnorr_signature_valid(bytes@) && s@ == bytes@,
                None => !schnorr_signature_valid(bytes@),
            },
    {
        if signature_bytes_valid(&bytes) {
            Some(Signature(bytes))
        } else {
            None
        }
    }

    /// The signature's 64 bytes.
    pub fn as_bytes(&self) -> (b: &[u8; 64])
        ensures
            b@ == self@,
    {
        &self.0
    }
}

impl VerifyingKey {
    /// Whether `signature` is a valid signature of `msg` under this key.
    pub fn verify(&self, msg: &[u8], signature: &Signature) -> (b: bool)
        ensures
            b == schnorr_verifies(self@, msg@, signature@),
    {
        schnorr_verify(&self.0, msg, &signature.0)
    }
}

impl SigningKey {
    /// The key's bytes are a nonzero secret scalar, in the normalized form `k256` keeps.
    #[verifier::type_invariant]
    spec fn valid(self) -> bool {
        &&& schnorr_secret_valid(self.0@)
        &&& schnorr_normalized_secret(self.0@) == self.0@
    }

    /// A fresh key from secure randomness.
    pub fn sample() -> (k: SigningKey)
        ensures
            schnorr_secret_valid(k.deep_view()),
            schnorr_normalized_secret(k.deep_view()) == k.deep_view(),
    {
        SigningKey(schnorr_random_secret())
    }

    /// The key whose bytes are `bytes`, if they are a nonzero secret scalar; the
    /// key keeps the scalar's normalized form, which has the same public key.
    pub fn from_bytes(bytes: [u8; 32]) -> (r: Option<SigningKey>)
        ensures
            match r {
                Some(k) => schnorr_secret_valid(bytes@) && k.deep_view() == schnorr_normalized_secret(bytes@)
                    && schnorr_public_key(k.deep_view()) == schnorr_public_key(bytes@),
                None => !schnorr_secret_valid(bytes@),
            },
    {
        if secret_bytes_valid(&bytes) {
            Some(SigningKey(normalized_secret(&bytes)))
        } else {
            None
        }
    }

    /// The matching verifying public key.
    pub fn verifying_key(&self) -> (vk: VerifyingKey)
        ensures
            vk@ == schnorr_public_key(self.deep_view()),
            schnorr_public_key_valid(vk@),
    {
        proof {
            use_type_invariant(self);
        }
        VerifyingKey(schnorr_verifying_key(&self.0))
    }

    /// Signs `msg`; the signature verifies under this key's verifying key.
    pub fn sign(&self, msg: &[u8]) -> (s: Signature)
        ensures
            schnorr_verifies(schnorr_public_key(self.deep_view()), msg@, s@),
    {
        proof {
            use_type_invariant(self);
        }
        Signature(schnorr_sign(&self.0, msg))
    }
}

impl DeepView for VerifyingKey {
    type V = VerifyingKey;

    open spec fn deep_view(&self) -> VerifyingKey {
        *self
    }
}

impl Versioned for VerifyingKey {
    open spec fn obeys_codec_spec() -> bool {
        true
    }

    open spec fn spec_version() -> Option<Version> {
        Some(Version { major: 1, minor: 0 })
    }

    open spec fn spec_network_specific() -> bool {
        true
    }

    open spec fn spec_limit_recursion() -> bool {
        false
    }

    fn version() -> (r: Option<Version>) {
        Some(Version { major: 1, minor: 0 })
    }

    fn network_specific() -> (r: bool) {
        true
    }

    fn limit_recursion() -> (r: bool) {
        false
    }
}

/// The `n`-byte array at `pos` in `data`.
fn read_array32(data: &[u8], pos: usize) -> (a: [u8; 32])
    requires
        pos + 32 <= data@.len(),
    ensures
        a@ == data@.subrange(pos as int, pos + 32),
{
    let mut a = [0u8; 32];
    let mut i: usize = 0;
    while i < 32
        invariant
            i <= 32,
            pos + 32 <= data.len(),
            a@.len() == 32,
            forall|j: int| 0 <= j < i ==> a@[j] == data@[pos + j],
        decreases 32 - i,
    {
        a[i] = data[pos + i];
        i = i + 1;
    }
    assert(a@ =~= data@.subrange(pos as int, pos + 32));
    a
}

/// The 64-byte array at `pos` in `data`.
fn read_array64(data: &[u8], pos: usize) -> (a: [u8; 64])
    requires
        pos + 64 <= data@.len(),
    ensures
        a@ == data@.subrange(pos as int, pos + 64),
{
    let mut a = [0u8; 64];
    let mut i: usize = 0;
    while i < 64
        invariant
            i <= 64,
            pos + 64 <= data.len(),
            a@.len() == 64,
            forall|j: int| 0 <= j < i ==> a@[j] == data@[pos + j],
        decreases 64 - i,
    {
        a[i] = data[pos + i];
        i = i + 1;
    }
    assert(a@ =~= data@.subrange(pos as int, pos + 64));
    a
}

/// Appends the bytes of `a` to `out`.
fn write_array(a: &[u8], out: &mut Vec<u8>)
    ensures
        final(out)@ == old(out)@ + a@,
{
    let ghost start = out@;
    let mut i: usize = 0;
    while i < a.len()
        invariant
            i <= a@.len(),
            out@ == start + a@.take(i as int),
        decreases a@.len() - i,
    {
        out.push(a[i]);
        assert(a@.take(i + 1) =~= a@.take(i as int).push(a@[i as int]));
        i = i + 1;
    }
    assert(a@.take(a@.len() as int) =~= a@);
}

impl Serializable for VerifyingKey {
    open spec fn spec_serializable(v: VerifyingKey) -> bool {
        true
    }

    /// The 32 key bytes.
    open spec fn spec_unversioned(v: VerifyingKey) -> Seq<u8> {
        v@
    }

    open spec fn spec_unversioned_size(v: VerifyingKey) -> nat {
        32
    }

    fn unversioned_serialize(value: &VerifyingKey, out: &mut Vec<u8>) -> (r: Result<(), CodecError>) {
        write_array(&value.0, out);
        Ok(())
    }

    fn unversioned_serialized_size(value: &VerifyingKey) -> (n: usize) {
        32
    }
}

/// The array whose view is the 32-byte `s`.
pub open spec fn array32_of(s: Seq<u8>) -> [u8; 32] {
    choose|a: [u8; 32]| #[trigger] vstd::array::array_view(a) == s
}

/// The array whose view is the 64-byte `s`.
pub open spec fn array64_of(s: Seq<u8>) -> [u8; 64] {
    choose|a: [u8; 64]| #[trigger] vstd::array::array_view(a) == s
}

/// Every 32-byte array is the array of its own bytes.
pub proof fn lemma_array32_of(a: [u8; 32])
    ensures
        array32_of(a@) == a,
{
    assert(vstd::array::array_view(a) == a@);
    let c = array32_of(a@);
    assert(vstd::array::array_view(c) == a@);
    assert(c@ == a@);
    assert(c == a);
}

/// Every 64-byte array is the array of its own bytes.
pub proof fn lemma_array64_of(a: [u8; 64])
    ensures
        array64_of(a@) == a,
{
    assert(vstd::array::array_view(a) == a@);
    let c = array64_of(a@);
    assert(vstd::array::array_view(c) == a@);
    assert(c@ == a@);
    assert(c == a);
}

impl Deserializable for VerifyingKey {
    /// Version 1.0 only: 32 bytes that are a public key.
    open spec fn spec_versioned_deserialize(data: Seq<u8>, version: Option<Version>, depth: u32) -> Option<
        (VerifyingKey, nat),
    > {
        if version != Some(Version { major: 1, minor: 0 }) || data.len() < 32 || !schnorr_public_key_valid(
            data.take(32),
        ) {
            None
        } else {
            Some((key_of(data.take(32)), 32))
        }
    }

    open spec fn spec_decodable(v: VerifyingKey, depth: u32) -> bool {
        schnorr_public_key_valid(v@)
    }

    fn versioned_deserialize(data: &[u8], pos: &mut usize, version: Option<Version>, depth: u32) -> (r: Result<
        VerifyingKey,
        CodecError,
    >) {
        match version {
            Some(Version { major: 1, minor: 0 }) => {
                if data.len() - *pos < 32 {
                    return Err(CodecError::UnexpectedEndOfInput);
                }
                let a = read_array32(data, *pos);
                proof {
                    assert(a@ =~= data@.skip(*pos as int).take(32));
                    lemma_array32_of(a);
                }
                if !public_key_bytes_valid(&a) {
                    return Err(CodecError::InvalidData);
                }
                *pos = *pos + 32;
                Ok(VerifyingKey(a))
            },
            _ => Err(CodecError::UnsupportedVersion),
        }
    }
}

impl RoundTrip for VerifyingKey {
    proof fn lemma_unversioned_roundtrip(v: VerifyingKey, rest: Seq<u8>, depth: u32) {
        assert((v.0@ + rest).take(32) =~= v.0@);
        lemma_array32_of(v.0);
    }

    proof fn lemma_unversioned_size(v: VerifyingKey) {
    }
}

impl DeepView for Signature {
    type V = Signature;

    open spec fn deep_view(&self) -> Signature {
        *self
    }
}

impl Versioned for Signature {
    open spec fn obeys_codec_spec() -> bool {
        true
    }

    open spec fn spec_version() -> Option<Version> {
        Some(Version { major: 1, minor: 0 })
    }

    open spec fn spec_network_specific() -> bool {
        true
    }

    open spec fn spec_limit_recursion() -> bool {
        false
    }

    fn version() -> (r: Option<Version>) {
        Some(Version { major: 1, minor: 0 })
    }

    fn network_specific() -> (r: bool) {
        true
    }

    fn limit_recursion() -> (r: bool) {
        false
    }
}

impl Serializable for Signature {
    open spec fn spec_serializable(v: Signature) -> bool {
        true
    }

    /// The 64 signature bytes.
    open spec fn spec_unversioned(v: Signature) -> Seq<u8> {
        v@
    }

    open spec fn spec_unversioned_size(v: Signature) -> nat {
        64
    }

    fn unversioned_serialize(value: &Signature, out: &mut Vec<u8>) -> (r: Result<(), CodecError>) {
        write_array(&value.0, out);
        Ok(())
    }

    fn unversioned_serialized_size(value: &Signature) -> (n: usize) {
        64
    }
}

impl Deserializable for Signature {
    /// Version 1.0 only: 64 bytes that are a signature.
    open spec fn spec_versioned_deserialize(data: Seq<u8>, version: Option<Version>, depth: u32) -> Option<
        (Signature, nat),
    > {
        if version != Some(Version { major: 1, minor: 0 }) || data.len() < 64 || !schnorr_signature_valid(
            data.take(64),
        ) {
            None
        } else {
            Some((signature_of(data.take(64)), 64))
        }
    }

    open spec fn spec_decodable(v: Signature, depth: u32) -> bool {
        schnorr_signature_valid(v@)
    }

    fn versioned_deserialize(data: &[u8], pos: &mut usize, version: Option<Version>, depth: u32) -> (r: Result<
        Signature,
        CodecError,
    >) {
        match version {
            Some(Version { major: 1, minor: 0 }) => {
                if data.len() - *pos < 64 {
                    return Err(CodecError::UnexpectedEndOfInput);
                }
                let a = read_array64(data, *pos);
                proof {
                    assert(a@ =~= data@.skip(*pos as int).take(64));
                    lemma_array64_of(a);
                }
                if !signature_bytes_valid(&a) {
                    return Err(CodecError::InvalidData);
                }
                *pos = *pos + 64;
                Ok(Signature(a))
            },
            _ => Err(CodecError::UnsupportedVersion),
        }
    }
}

impl RoundTrip for Signature {
    proof fn lemma_unversioned_roundtrip(v: Signature, rest: Seq<u8>, depth: u32) {
        assert((v.0@ + rest).take(64) =~= v.0@);
        lemma_array64_of(v.0);
    }

    proof fn lemma_unversioned_size(v: Signature) {
    }
}


impl DeepView for SigningKey {
    type V = Seq<u8>;

    closed spec fn deep_view(&self) -> Seq<u8> {
        self.0@
    }
}

impl Versioned for SigningKey {
    open spec fn obeys_codec_spec() -> bool {
        true
    }

    open spec fn spec_version() -> Option<Version> {
        Some(Version { major: 1, minor: 0 })
    }

    open spec fn spec_network_specific() -> bool {
        true
    }

    open spec fn spec_limit_recursion() -> bool {
        false
    }

    fn version() -> (r: Option<Version>) {
        Some(Version { major: 1, minor: 0 })
    }

    fn network_specific() -> (r: bool) {
        true
    }

    fn limit_recursion() -> (r: bool) {
        false
    }
}

impl Serializable for SigningKey {
    open spec fn spec_serializable(v: Seq<u8>) -> bool {
        true
    }

    /// The 32 secret bytes.
    open spec fn spec_unversioned(v: Seq<u8>) -> Seq<u8> {
        v
    }

    open spec fn spec_unversioned_size(v: Seq<u8>) -> nat {
        v.len()
    }

    fn unversioned_serialize(value: &SigningKey, out: &mut Vec<u8>) -> (r: Result<(), CodecError>) {
        write_array(&value.0, out);
        Ok(())
    }

    fn unversioned_serialized_size(value: &SigningKey) -> (n: usize) {
        32
    }
}

impl Deserializable for SigningKey {
    /// Version 1.0 only: 32 bytes that are a nonzero secret scalar, kept in
    /// normalized form.
    open spec fn spec_versioned_deserialize(data: Seq<u8>, version: Option<Version>, depth: u32) -> Option<
        (Seq<u8>, nat),
    > {
        if version != Some(Version { major: 1, minor: 0 }) || data.len() < 32 || !schnorr_secret_valid(
            data.take(32),
        ) {
            None
        } else {
            Some((schnorr_normalized_secret(data.take(32)), 32))
        }
    }

    open spec fn spec_decodable(v: Seq<u8>, depth: u32) -> bool {
        v.len() == 32 && schnorr_secret_valid(v) && schnorr_normalized_secret(v) == v
    }

    fn versioned_deserialize(data: &[u8], pos: &mut usize, version: Option<Version>, depth: u32) -> (r: Result<
        SigningKey,
        CodecError,
    >) {
        match version {
            Some(Version { major: 1, minor: 0 }) => {
                if data.len() - *pos < 32 {
                    return Err(CodecError::UnexpectedEndOfInput);
                }
                let a = read_array32(data, *pos);
                assert(a@ =~= data@.skip(*pos as int).take(32));
                if !secret_bytes_valid(&a) {
                    return Err(CodecError::InvalidData);
                }
                *pos = *pos + 32;
                Ok(SigningKey(normalized_secret(&a)))
            },
            _ => Err(CodecError::UnsupportedVersion),
        }
    }
}

impl RoundTrip for SigningKey {
    proof fn lemma_unversioned_roundtrip(v: Seq<u8>, rest: Seq<u8>, depth: u32) {
        assert((v + rest).take(32) =~= v);
    }

    proof fn lemma_unversioned_size(v: Seq<u8>) {
    }
}

} // verus!

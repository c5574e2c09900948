//! Coins: their nonces, token types, commitments and nullifiers.
use vstd::prelude::*;
use crate::bytes::{le_bytes, le_value, lemma_le_roundtrip, lemma_pow256_values};
use crate::codec::{
    item_bytes, item_decodable, item_deserialize, lemma_item_roundtrip, lemma_item_size, Deserializable,
    RoundTrip, Serializable,
};
use crate::contract::Address;
use crate::keymap::ExactEq;
use crate::hash::{hash_of_bytes, lemma_hash_of_bytes, persistent_hash, sha256, BinaryHashRepr, HashOutput};
use crate::transfer::{Recipient, SenderEvidence};
use crate::versioned::{version_bytes, CodecError, Version, Versioned, RECURSION_LIMIT};

verus! {

/// The nullifier of a spent coin.
#[derive(Clone, Copy, Debug, PartialEq, Eq, PartialOrd, Ord, Hash)]
pub struct Nullifier(pub HashOutput);

impl DeepView for Nullifier {
    type V = Nullifier;

    open spec fn deep_view(&self) -> Nullifier {
        *self
    }
}

impl Nullifier {
    /// Whether two values hold the same bytes.
    pub fn same_as(&self, other: &Nullifier) -> (b: bool)
        ensures
            b == (*self == *other),
    {
        self.0.same_as(&other.0)
    }
}

impl BinaryHashRepr for Nullifier {
    open spec fn spec_binary_repr(&self) -> Seq<u8> {
        self.0.0@
    }

    fn binary_repr(&self, out: &mut Vec<u8>) {
        self.0.binary_repr(out);
    }
}

impl Versioned for Nullifier {
    open spec fn obeys_codec_spec() -> bool {
        true
    }

    open spec fn spec_version() -> Option<Version> {
        None
    }

    open spec fn spec_network_specific() -> bool {
        false
    }

    open spec fn spec_limit_recursion() -> bool {
        false
    }

    fn version() -> (r: Option<Version>) {
        None
    }

    fn network_specific() -> (r: bool) {
        false
    }

    fn limit_recursion() -> (r: bool) {
        false
    }
}

impl Serializable for Nullifier {
    open spec fn spec_serializable(v: Nullifier) -> bool {
        true
    }

    /// The inner hash output.
    open spec fn spec_unversioned(v: Nullifier) -> Seq<u8> {
        item_bytes::<HashOutput>(v.0)
    }

    open spec fn spec_unversioned_size(v: Nullifier) -> nat {
        32
    }

    fn unversioned_serialize(value: &Nullifier, out: &mut Vec<u8>) -> (r: Result<(), CodecError>) {
        <HashOutput as Serializable>::serialize(&value.0, out)
    }

    fn unversioned_serialized_size(value: &Nullifier) -> (n: usize) {
        <HashOutput as Serializable>::serialized_size(&value.0)
    }
}

impl Deserializable for Nullifier {
    /// The inner hash output.
    open spec fn spec_versioned_deserialize(data: Seq<u8>, version: Option<Version>, depth: u32)
        -> Option<(Nullifier, nat)> {
        match item_deserialize::<HashOutput>(data, depth) {
            Some((h, n)) => Some((Nullifier(h), n)),
            None => None,
        }
    }

    open spec fn spec_decodable(v: Nullifier, depth: u32) -> bool {
        depth <= RECURSION_LIMIT
    }

    fn versioned_deserialize(
        data: &[u8],
        pos: &mut usize,
        version: Option<Version>,
        depth: u32,
    ) -> (r: Result<Nullifier, CodecError>) {
        let h = <HashOutput as Deserializable>::deserialize(data, pos, depth)?;
        Ok(Nullifier(h))
    }
}

impl RoundTrip for Nullifier {
    proof fn lemma_unversioned_roundtrip(v: Nullifier, rest: Seq<u8>, depth: u32) {
        lemma_item_roundtrip::<HashOutput>(v.0, rest, depth);
    }

    proof fn lemma_unversioned_size(v: Nullifier) {
        lemma_item_size::<HashOutput>(v.0);
    }
}

/// The commitment to a coin.
#[derive(Clone, Copy, Debug, PartialEq, Eq, PartialOrd, Ord, Hash)]
pub struct Commitment(pub HashOutput);

impl DeepView for Commitment {
    type V = Commitment;

    open spec fn deep_view(&self) -> Commitment {
        *self
    }
}

impl Commitment {
    /// Whether two values hold the same bytes.
    pub fn same_as(&self, other: &Commitment) -> (b: bool)
        ensures
            b == (*self == *other),
    {
        self.0.same_as(&other.0)
    }
}

impl BinaryHashRepr for Commitment {
    open spec fn spec_binary_repr(&self) -> Seq<u8> {
        self.0.0@
    }

    fn binary_repr(&self, out: &mut Vec<u8>) {
        self.0.binary_repr(out);
    }
}

impl Versioned for Commitment {
    open spec fn obeys_codec_spec() -> bool {
        true
    }

    open spec fn spec_version() -> Option<Version> {
        None
    }

    open spec fn spec_network_specific() -> bool {
        false
    }

    open spec fn spec_limit_recursion() -> bool {
        false
    }

    fn version() -> (r: Option<Version>) {
        None
    }

    fn network_specific() -> (r: bool) {
        false
    }

    fn limit_recursion() -> (r: bool) {
        false
    }
}

impl Serializable for Commitment {
    open spec fn spec_serializable(v: Commitment) -> bool {
        true
    }

    /// The inner hash output.
    open spec fn spec_unversioned(v: Commitment) -> Seq<u8> {
        item_bytes::<HashOutput>(v.0)
    }

    open spec fn spec_unversioned_size(v: Commitment) -> nat {
        32
    }

    fn unversioned_serialize(value: &Commitment, out: &mut Vec<u8>) -> (r: Result<(), CodecError>) {
        <HashOutput as Serializable>::serialize(&value.0, out)
    }

    fn unversioned_serialized_size(value: &Commitment) -> (n: usize) {
        <HashOutput as Serializable>::serialized_size(&value.0)
    }
}

impl Deserializable for Commitment {
    /// The inner hash output.
    open spec fn spec_versioned_deserialize(data: Seq<u8>, version: Option<Version>, depth: u32)
        -> Option<(Commitment, nat)> {
        match item_deserialize::<HashOutput>(data, depth) {
            Some((h, n)) => Some((Commitment(h), n)),
            None => None,
        }
    }

    open spec fn spec_decodable(v: Commitment, depth: u32) -> bool {
        depth <= RECURSION_LIMIT
    }

    fn versioned_deserialize(
        data: &[u8],
        pos: &mut usize,
        version: Option<Version>,
        depth: u32,
    ) -> (r: Result<Commitment, CodecError>) {
        let h = <HashOutput as Deserializable>::deserialize(data, pos, depth)?;
        Ok(Commitment(h))
    }
}

impl RoundTrip for Commitment {
    proof fn lemma_unversioned_roundtrip(v: Commitment, rest: Seq<u8>, depth: u32) {
        lemma_item_roundtrip::<HashOutput>(v.0, rest, depth);
    }

    proof fn lemma_unversioned_size(v: Commitment) {
        lemma_item_size::<HashOutput>(v.0);
    }
}

/// The nonce that makes a coin unique.
#[derive(Clone, Copy, Debug, PartialEq, Eq, PartialOrd, Ord, Hash)]
pub struct Nonce(pub HashOutput);

impl DeepView for Nonce {
    type V = Nonce;

    open spec fn deep_view(&self) -> Nonce {
        *self
    }
}

impl Nonce {
    /// Whether two values hold the same bytes.
    pub fn same_as(&self, other: &Nonce) -> (b: bool)
        ensures
            b == (*self == *other),
    {
        self.0.same_as(&other.0)
    }
}

impl BinaryHashRepr for Nonce {
    open spec fn spec_binary_repr(&self) -> Seq<u8> {
        self.0.0@
    }

    fn binary_repr(&self, out: &mut Vec<u8>) {
        self.0.binary_repr(out);
    }
}

impl Versioned for Nonce {
    open spec fn obeys_codec_spec() -> bool {
        true
    }

    open spec fn spec_version() -> Option<Version> {
        None
    }

    open spec fn spec_network_specific() -> bool {
        false
    }

    open spec fn spec_limit_recursion() -> bool {
        false
    }

    fn version() -> (r: Option<Version>) {
        None
    }

    fn network_specific() -> (r: bool) {
        false
    }

    fn limit_recursion() -> (r: bool) {
        false
    }
}

impl Serializable for Nonce {
    open spec fn spec_serializable(v: Nonce) -> bool {
        true
    }

    /// The inner hash output.
    open spec fn spec_unversioned(v: Nonce) -> Seq<u8> {
        item_bytes::<HashOutput>(v.0)
    }

    open spec fn spec_unversioned_size(v: Nonce) -> nat {
        32
    }

    fn unversioned_serialize(value: &Nonce, out: &mut Vec<u8>) -> (r: Result<(), CodecError>) {
        <HashOutput as Serializable>::serialize(&value.0, out)
    }

    fn unversioned_serialized_size(value: &Nonce) -> (n: usize) {
        <HashOutput as Serializable>::serialized_size(&value.0)
    }
}

impl Deserializable for Nonce {
    /// The inner hash output.
    open spec fn spec_versioned_deserialize(data: Seq<u8>, version: Option<Version>, depth: u32)
        -> Option<(Nonce, nat)> {
        match item_deserialize::<HashOutput>(data, depth) {
            Some((h, n)) => Some((Nonce(h), n)),
            None => None,
        }
    }

    open spec fn spec_decodable(v: Nonce, depth: u32) -> bool {
        depth <= RECURSION_LIMIT
    }

    fn versioned_deserialize(
        data: &[u8],
        pos: &mut usize,
        version: Option<Version>,
        depth: u32,
    ) -> (r: Result<Nonce, CodecError>) {
        let h = <HashOutput as Deserializable>::deserialize(data, pos, depth)?;
        Ok(Nonce(h))
    }
}

impl RoundTrip for Nonce {
    proof fn lemma_unversioned_roundtrip(v: Nonce, rest: Seq<u8>, depth: u32) {
        lemma_item_roundtrip::<HashOutput>(v.0, rest, depth);
    }

    proof fn lemma_unversioned_size(v: Nonce) {
        lemma_item_size::<HashOutput>(v.0);
    }
}

/// A coin secret key.
#[derive(Clone, Copy, Debug, PartialEq, Eq, PartialOrd, Ord, Hash)]
pub struct SecretKey(pub HashOutput);

impl DeepView for SecretKey {
    type V = SecretKey;

    open spec fn deep_view(&self) -> SecretKey {
        *self
    }
}

impl SecretKey {
    /// Whether two values hold the same bytes.
    pub fn same_as(&self, other: &SecretKey) -> (b: bool)
        ensures
            b == (*self == *other),
    {
        self.0.same_as(&other.0)
    }
}

impl BinaryHashRepr for SecretKey {
    open spec fn spec_binary_repr(&self) -> Seq<u8> {
        self.0.0@
    }

    fn binary_repr(&self, out: &mut Vec<u8>) {
        self.0.binary_repr(out);
    }
}

impl Versioned for SecretKey {
    open spec fn obeys_codec_spec() -> bool {
        true
    }

    open spec fn spec_version() -> Option<Version> {
        Some(Version { major: 2, minor: 0 })
    }

    open spec fn spec_network_specific() -> bool {
        true
    }

    open spec fn spec_limit_recursion() -> bool {
        false
    }

    fn version() -> (r: Option<Version>) {
        Some(Version { major: 2, minor: 0 })
    }

    fn network_specific() -> (r: bool) {
        true
    }

    fn limit_recursion() -> (r: bool) {
        false
    }
}

impl Serializable for SecretKey {
    open spec fn spec_serializable(v: SecretKey) -> bool {
        true
    }

    /// The inner hash output.
    open spec fn spec_unversioned(v: SecretKey) -> Seq<u8> {
        item_bytes::<HashOutput>(v.0)
    }

    open spec fn spec_unversioned_size(v: SecretKey) -> nat {
        32
    }

    fn unversioned_serialize(value: &SecretKey, out: &mut Vec<u8>) -> (r: Result<(), CodecError>) {
        <HashOutput as Serializable>::serialize(&value.0, out)
    }

    fn unversioned_serialized_size(value: &SecretKey) -> (n: usize) {
        <HashOutput as Serializable>::serialized_size(&value.0)
    }
}

impl Deserializable for SecretKey {
    /// Version 2.0 only: the inner hash output.
    open spec fn spec_versioned_deserialize(data: Seq<u8>, version: Option<Version>, depth: u32)
        -> Option<(SecretKey, nat)> {
        if version != Some(Version { major: 2, minor: 0 }) {
            None
        } else {
            match item_deserialize::<HashOutput>(data, depth) {
                Some((h, n)) => Some((SecretKey(h), n)),
                None => None,
            }
        }
    }

    open spec fn spec_decodable(v: SecretKey, depth: u32) -> bool {
        depth <= RECURSION_LIMIT
    }

    fn versioned_deserialize(
        data: &[u8],
        pos: &mut usize,
        version: Option<Version>,
        depth: u32,
    ) -> (r: Result<SecretKey, CodecError>) {
        match version {
            Some(Version { major: 2, minor: 0 }) => {
                let h = <HashOutput as Deserializable>::deserialize(data, pos, depth)?;
                Ok(SecretKey(h))
            },
            _ => Err(CodecError::UnsupportedVersion),
        }
    }
}

impl RoundTrip for SecretKey {
    proof fn lemma_unversioned_roundtrip(v: SecretKey, rest: Seq<u8>, depth: u32) {
        lemma_item_roundtrip::<HashOutput>(v.0, rest, depth);
    }

    proof fn lemma_unversioned_size(v: SecretKey) {
        lemma_item_size::<HashOutput>(v.0);
    }
}

/// A coin public key.
#[derive(Clone, Copy, Debug, PartialEq, Eq, PartialOrd, Ord, Hash)]
pub struct PublicKey(pub HashOutput);

impl DeepView for PublicKey {
    type V = PublicKey;

    open spec fn deep_view(&self) -> PublicKey {
        *self
    }
}

impl PublicKey {
    /// Whether two values hold the same bytes.
    pub fn same_as(&self, other: &PublicKey) -> (b: bool)
        ensures
            b == (*self == *other),
    {
        self.0.same_as(&other.0)
    }
}

impl BinaryHashRepr for PublicKey {
    open spec fn spec_binary_repr(&self) -> Seq<u8> {
        self.0.0@
    }

    fn binary_repr(&self, out: &mut Vec<u8>) {
        self.0.binary_repr(out);
    }
}

impl Versioned for PublicKey {
    open spec fn obeys_codec_spec() -> bool {
        true
    }

    open spec fn spec_version() -> Option<Version> {
        None
    }

    open spec fn spec_network_specific() -> bool {
        false
    }

    open spec fn spec_limit_recursion() -> bool {
        false
    }

    fn version() -> (r: Option<Version>) {
        None
    }

    fn network_specific() -> (r: bool) {
        false
    }

    fn limit_recursion() -> (r: bool) {
        false
    }
}

impl Serializable for PublicKey {
    open spec fn spec_serializable(v: PublicKey) -> bool {
        true
    }

    /// The inner hash output.
    open spec fn spec_unversioned(v: PublicKey) -> Seq<u8> {
        item_bytes::<HashOutput>(v.0)
    }

    open spec fn spec_unversioned_size(v: PublicKey) -> nat {
        32
    }

    fn unversioned_serialize(value: &PublicKey, out: &mut Vec<u8>) -> (r: Result<(), CodecError>) {
        <HashOutput as Serializable>::serialize(&value.0, out)
    }

    fn unversioned_serialized_size(value: &PublicKey) -> (n: usize) {
        <HashOutput as Serializable>::serialized_size(&value.0)
    }
}

impl Deserializable for PublicKey {
    /// The inner hash output.
    open spec fn spec_versioned_deserialize(data: Seq<u8>, version: Option<Version>, depth: u32)
        -> Option<(PublicKey, nat)> {
        match item_deserialize::<HashOutput>(data, depth) {
            Some((h, n)) => Some((PublicKey(h), n)),
            None => None,
        }
    }

    open spec fn spec_decodable(v: PublicKey, depth: u32) -> bool {
        depth <= RECURSION_LIMIT
    }

    fn versioned_deserialize(
        data: &[u8],
        pos: &mut usize,
        version: Option<Version>,
        depth: u32,
    ) -> (r: Result<PublicKey, CodecError>) {
        let h = <HashOutput as Deserializable>::deserialize(data, pos, depth)?;
        Ok(PublicKey(h))
    }
}

impl RoundTrip for PublicKey {
    proof fn lemma_unversioned_roundtrip(v: PublicKey, rest: Seq<u8>, depth: u32) {
        lemma_item_roundtrip::<HashOutput>(v.0, rest, depth);
    }

    proof fn lemma_unversioned_size(v: PublicKey) {
        lemma_item_size::<HashOutput>(v.0);
    }
}

/// The type of token a coin holds.
#[derive(Clone, Copy, Debug, PartialEq, Eq, PartialOrd, Ord, Hash)]
pub struct TokenType(pub HashOutput);

impl DeepView for TokenType {
    type V = TokenType;

    open spec fn deep_view(&self) -> TokenType {
        *self
    }
}

impl TokenType {
    /// Whether two values hold the same bytes.
    pub fn same_as(&self, other: &TokenType) -> (b: bool)
        ensures
            b == (*self == *other),
    {
        self.0.same_as(&other.0)
    }
}

impl BinaryHashRepr for TokenType {
    open spec fn spec_binary_repr(&self) -> Seq<u8> {
        self.0.0@
    }

    fn binary_repr(&self, out: &mut Vec<u8>) {
        self.0.binary_repr(out);
    }
}

impl Versioned for TokenType {
    open spec fn obeys_codec_spec() -> bool {
        true
    }

    open spec fn spec_version() -> Option<Version> {
        Some(Version { major: 2, minor: 0 })
    }

    open spec fn spec_network_specific() -> bool {
        true
    }

    open spec fn spec_limit_recursion() -> bool {
        false
    }

    fn version() -> (r: Option<Version>) {
        Some(Version { major: 2, minor: 0 })
    }

    fn network_specific() -> (r: bool) {
        true
    }

    fn limit_recursion() -> (r: bool) {
        false
    }
}

impl Serializable for TokenType {
    open spec fn spec_serializable(v: TokenType) -> bool {
        true
    }

    /// The inner hash output.
    open spec fn spec_unversioned(v: TokenType) -> Seq<u8> {
        item_bytes::<HashOutput>(v.0)
    }

    open spec fn spec_unversioned_size(v: TokenType) -> nat {
        32
    }

    fn unversioned_serialize(value: &TokenType, out: &mut Vec<u8>) -> (r: Result<(), CodecError>) {
        <HashOutput as Serializable>::serialize(&value.0, out)
    }

    fn unversioned_serialized_size(value: &TokenType) -> (n: usize) {
        <HashOutput as Serializable>::serialized_size(&value.0)
    }
}

impl Deserializable for TokenType {
    /// Version 2.0 only: the inner hash output.
    open spec fn spec_versioned_deserialize(data: Seq<u8>, version: Option<Version>, depth: u32)
        -> Option<(TokenType, nat)> {
        if version != Some(Version { major: 2, minor: 0 }) {
            None
        } else {
            match item_deserialize::<HashOutput>(data, depth) {
                Some((h, n)) => Some((TokenType(h), n)),
                None => None,
            }
        }
    }

    open spec fn spec_decodable(v: TokenType, depth: u32) -> bool {
        depth <= RECURSION_LIMIT
    }

    fn versioned_deserialize(
        data: &[u8],
        pos: &mut usize,
        version: Option<Version>,
        depth: u32,
    ) -> (r: Result<TokenType, CodecError>) {
        match version {
            Some(Version { major: 2, minor: 0 }) => {
                let h = <HashOutput as Deserializable>::deserialize(data, pos, depth)?;
                Ok(TokenType(h))
            },
            _ => Err(CodecError::UnsupportedVersion),
        }
    }
}

impl RoundTrip for TokenType {
    proof fn lemma_unversioned_roundtrip(v: TokenType, rest: Seq<u8>, depth: u32) {
        lemma_item_roundtrip::<HashOutput>(v.0, rest, depth);
    }

    proof fn lemma_unversioned_size(v: TokenType) {
        lemma_item_size::<HashOutput>(v.0);
    }
}

/// The suffix a secret key is hashed with to give its public key.
pub open spec fn public_key_domain() -> Seq<u8> {
    seq![109u8, 100, 110, 58, 112, 107]
}

/// The public key of a secret key: the hash of the key's bytes followed by the suffix.
pub open spec fn spec_public_key(sk: SecretKey) -> PublicKey {
    PublicKey(hash_of_bytes(sha256(sk.0.0@ + public_key_domain())))
}

impl SecretKey {
    /// The public key that goes with this secret key.
    pub fn public_key(&self) -> (pk: PublicKey)
        ensures
            pk == spec_public_key(*self),
    {
        let mut data: Vec<u8> = Vec::with_capacity(38);
        self.binary_repr(&mut data);
        data.push(109u8);
        data.push(100u8);
        data.push(110u8);
        data.push(58u8);
        data.push(112u8);
        data.push(107u8);
        assert(data@ =~= self.0.0@ + public_key_domain());
        let h = persistent_hash(data.as_slice());
        proof {
            lemma_hash_of_bytes(h);
        }
        PublicKey(h)
    }
}

/// A coin: its nonce, token type and value.
#[derive(Clone, Copy, Debug, PartialEq, Eq, PartialOrd, Ord, Hash)]
pub struct Info {
    pub nonce: Nonce,
    pub type_: TokenType,
    pub value: u128,
}

impl DeepView for Info {
    type V = Info;

    open spec fn deep_view(&self) -> Info {
        *self
    }
}

impl BinaryHashRepr for Info {
    /// The nonce, the token type, then the value as 16 little-endian bytes.
    open spec fn spec_binary_repr(&self) -> Seq<u8> {
        self.nonce.0.0@ + self.type_.0.0@ + le_bytes(self.value as nat, 16)
    }

    fn binary_repr(&self, out: &mut Vec<u8>) {
        let ghost start = out@;
        self.nonce.binary_repr(out);
        self.type_.binary_repr(out);
        self.value.binary_repr(out);
        assert(out@ =~= start + self.spec_binary_repr());
    }
}

impl Versioned for Info {
    open spec fn obeys_codec_spec() -> bool {
        true
    }

    open spec fn spec_version() -> Option<Version> {
        Some(Version { major: 2, minor: 0 })
    }

    open spec fn spec_network_specific() -> bool {
        true
    }

    open spec fn spec_limit_recursion() -> bool {
        false
    }

    fn version() -> (r: Option<Version>) {
        Some(Version { major: 2, minor: 0 })
    }

    fn network_specific() -> (r: bool) {
        true
    }

    fn limit_recursion() -> (r: bool) {
        false
    }
}

impl Serializable for Info {
    open spec fn spec_serializable(v: Info) -> bool {
        true
    }

    /// The nonce, the (versioned) token type, then the value.
    open spec fn spec_unversioned(v: Info) -> Seq<u8> {
        item_bytes::<Nonce>(v.nonce) + item_bytes::<TokenType>(v.type_) + item_bytes::<u128>(v.value)
    }

    open spec fn spec_unversioned_size(v: Info) -> nat {
        82
    }

    fn unversioned_serialize(value: &Info, out: &mut Vec<u8>) -> (r: Result<(), CodecError>) {
        let ghost start = out@;
        <Nonce as Serializable>::serialize(&value.nonce, out)?;
        <TokenType as Serializable>::serialize(&value.type_, out)?;
        <u128 as Serializable>::serialize(&value.value, out)?;
        assert(out@ =~= start + Self::spec_unversioned(*value));
        Ok(())
    }

    fn unversioned_serialized_size(value: &Info) -> (n: usize) {
        <Nonce as Serializable>::serialized_size(&value.nonce) + <TokenType as Serializable>::serialized_size(
            &value.type_,
        ) + <u128 as Serializable>::serialized_size(&value.value)
    }
}

impl Deserializable for Info {
    /// Version 2.0 only: the nonce, the token type, then the value.
    open spec fn spec_versioned_deserialize(data: Seq<u8>, version: Option<Version>, depth: u32)
        -> Option<(Info, nat)> {
        if version != Some(Version { major: 2, minor: 0 }) {
            None
        } else {
            match item_deserialize::<Nonce>(data, depth) {
                None => None,
                Some((nonce, a)) => match item_deserialize::<TokenType>(data.skip(a as int), depth) {
                    None => None,
                    Some((type_, b)) => match item_deserialize::<u128>(data.skip((a + b) as int), depth) {
                        None => None,
                        Some((value, c)) => Some((Info { nonce, type_, value }, a + b + c)),
                    },
                },
            }
        }
    }

    open spec fn spec_decodable(v: Info, depth: u32) -> bool {
        depth <= RECURSION_LIMIT
    }

    fn versioned_deserialize(
        data: &[u8],
        pos: &mut usize,
        version: Option<Version>,
        depth: u32,
    ) -> (r: Result<Info, CodecError>) {
        match version {
            Some(Version { major: 2, minor: 0 }) => {
                let ghost start = *pos;
                let nonce = <Nonce as Deserializable>::deserialize(data, pos, depth)?;
                let ghost p1 = *pos;
                assert(data@.skip(p1 as int) =~= data@.skip(start as int).skip(p1 - start));
                let type_ = <TokenType as Deserializable>::deserialize(data, pos, depth)?;
                let ghost p2 = *pos;
                assert(data@.skip(p2 as int) =~= data@.skip(start as int).skip(p2 - start));
                let value = <u128 as Deserializable>::deserialize(data, pos, depth)?;
                Ok(Info { nonce, type_, value })
            },
            _ => Err(CodecError::UnsupportedVersion),
        }
    }
}

impl RoundTrip for Info {
    proof fn lemma_unversioned_roundtrip(v: Info, rest: Seq<u8>, depth: u32) {
        let a = item_bytes::<Nonce>(v.nonce);
        let b = item_bytes::<TokenType>(v.type_);
        let c = item_bytes::<u128>(v.value);
        lemma_item_roundtrip::<Nonce>(v.nonce, b + c + rest, depth);
        lemma_item_roundtrip::<TokenType>(v.type_, c + rest, depth);
        lemma_item_roundtrip::<u128>(v.value, rest, depth);
        let data = a + b + c + rest;
        assert(data =~= a + (b + c + rest));
        assert(data.skip(a.len() as int) =~= b + (c + rest));
        assert(data.skip((a.len() + b.len()) as int) =~= c + rest);
    }

    proof fn lemma_unversioned_size(v: Info) {
        lemma_item_size::<Nonce>(v.nonce);
        lemma_item_size::<TokenType>(v.type_);
        lemma_item_size::<u128>(v.value);
    }
}

/// A coin together with its index in the commitment tree.
#[derive(Clone, Copy, Debug, PartialEq, Eq, PartialOrd, Ord, Hash)]
pub struct QualifiedInfo {
    pub nonce: Nonce,
    pub type_: TokenType,
    pub value: u128,
    pub mt_index: u64,
}

impl DeepView for QualifiedInfo {
    type V = QualifiedInfo;

    open spec fn deep_view(&self) -> QualifiedInfo {
        *self
    }
}

impl BinaryHashRepr for QualifiedInfo {
    /// The nonce, the token type, the value (16 bytes) and the index (8 bytes), little-endian.
    open spec fn spec_binary_repr(&self) -> Seq<u8> {
        self.nonce.0.0@ + self.type_.0.0@ + le_bytes(self.value as nat, 16) + le_bytes(
            self.mt_index as nat,
            8,
        )
    }

    fn binary_repr(&self, out: &mut Vec<u8>) {
        let ghost start = out@;
        self.nonce.binary_repr(out);
        self.type_.binary_repr(out);
        self.value.binary_repr(out);
        self.mt_index.binary_repr(out);
        assert(out@ =~= start + self.spec_binary_repr());
    }
}

impl Versioned for QualifiedInfo {
    open spec fn obeys_codec_spec() -> bool {
        true
    }

    open spec fn spec_version() -> Option<Version> {
        Some(Version { major: 2, minor: 0 })
    }

    open spec fn spec_network_specific() -> bool {
        true
    }

    open spec fn spec_limit_recursion() -> bool {
        false
    }

    fn version() -> (r: Option<Version>) {
        Some(Version { major: 2, minor: 0 })
    }

    fn network_specific() -> (r: bool) {
        true
    }

    fn limit_recursion() -> (r: bool) {
        false
    }
}

impl Serializable for QualifiedInfo {
    open spec fn spec_serializable(v: QualifiedInfo) -> bool {
        true
    }

    /// The nonce, the (versioned) token type, the value, then the index.
    open spec fn spec_unversioned(v: QualifiedInfo) -> Seq<u8> {
        item_bytes::<Nonce>(v.nonce) + item_bytes::<TokenType>(v.type_) + item_bytes::<u128>(v.value)
            + item_bytes::<u64>(v.mt_index)
    }

    open spec fn spec_unversioned_size(v: QualifiedInfo) -> nat {
        90
    }

    fn unversioned_serialize(value: &QualifiedInfo, out: &mut Vec<u8>) -> (r: Result<(), CodecError>) {
        let ghost start = out@;
        <Nonce as Serializable>::serialize(&value.nonce, out)?;
        <TokenType as Serializable>::serialize(&value.type_, out)?;
        <u128 as Serializable>::serialize(&value.value, out)?;
        <u64 as Serializable>::serialize(&value.mt_index, out)?;
        assert(out@ =~= start + Self::spec_unversioned(*value));
        Ok(())
    }

    fn unversioned_serialized_size(value: &QualifiedInfo) -> (n: usize) {
        <Nonce as Serializable>::serialized_size(&value.nonce) + <TokenType as Serializable>::serialized_size(
            &value.type_,
        ) + <u128 as Serializable>::serialized_size(&value.value) + <u64 as Serializable>::serialized_size(
            &value.mt_index,
        )
    }
}

impl Deserializable for QualifiedInfo {
    /// Version 2.0 only: the nonce, the token type, the value, then the index.
    open spec fn spec_versioned_deserialize(data: Seq<u8>, version: Option<Version>, depth: u32)
        -> Option<(QualifiedInfo, nat)> {
        if version != Some(Version { major: 2, minor: 0 }) {
            None
        } else {
            match item_deserialize::<Nonce>(data, depth) {
                None => None,
                Some((nonce, a)) => match item_deserialize::<TokenType>(data.skip(a as int), depth) {
                    None => None,
                    Some((type_, b)) => match item_deserialize::<u128>(data.skip((a + b) as int), depth) {
                        None => None,
                        Some((value, c)) => match item_deserialize::<u64>(
                            data.skip((a + b + c) as int),
                            depth,
                        ) {
                            None => None,
                            Some((mt_index, d)) => Some(
                                (QualifiedInfo { nonce, type_, value, mt_index }, a + b + c + d),
                            ),
                        },
                    },
                },
            }
        }
    }

    open spec fn spec_decodable(v: QualifiedInfo, depth: u32) -> bool {
        depth <= RECURSION_LIMIT
    }

    fn versioned_deserialize(
        data: &[u8],
        pos: &mut usize,
        version: Option<Version>,
        depth: u32,
    ) -> (r: Result<QualifiedInfo, CodecError>) {
        match version {
            Some(Version { major: 2, minor: 0 }) => {
                let ghost start = *pos;
                let nonce = <Nonce as Deserializable>::deserialize(data, pos, depth)?;
                let ghost p1 = *pos;
                assert(data@.skip(p1 as int) =~= data@.skip(start as int).skip(p1 - start));
                let type_ = <TokenType as Deserializable>::deserialize(data, pos, depth)?;
                let ghost p2 = *pos;
                assert(data@.skip(p2 as int) =~= data@.skip(start as int).skip(p2 - start));
                let value = <u128 as Deserializable>::deserialize(data, pos, depth)?;
                let ghost p3 = *pos;
                assert(data@.skip(p3 as int) =~= data@.skip(start as int).skip(p3 - start));
                let mt_index = <u64 as Deserializable>::deserialize(data, pos, depth)?;
                Ok(QualifiedInfo { nonce, type_, value, mt_index })
            },
            _ => Err(CodecError::UnsupportedVersion),
        }
    }
}

impl RoundTrip for QualifiedInfo {
    proof fn lemma_unversioned_roundtrip(v: QualifiedInfo, rest: Seq<u8>, depth: u32) {
        let a = item_bytes::<Nonce>(v.nonce);
        let b = item_bytes::<TokenType>(v.type_);
        let c = item_bytes::<u128>(v.value);
        let d = item_bytes::<u64>(v.mt_index);
        lemma_item_roundtrip::<Nonce>(v.nonce, b + c + d + rest, depth);
        lemma_item_roundtrip::<TokenType>(v.type_, c + d + rest, depth);
        lemma_item_roundtrip::<u128>(v.value, d + rest, depth);
        lemma_item_roundtrip::<u64>(v.mt_index, rest, depth);
        let data = a + b + c + d + rest;
        assert(data =~= a + (b + c + d + rest));
        assert(data.skip(a.len() as int) =~= b + (c + d + rest));
        assert(data.skip((a.len() + b.len()) as int) =~= c + (d + rest));
        assert(data.skip((a.len() + b.len() + c.len()) as int) =~= d + rest);
    }

    proof fn lemma_unversioned_size(v: QualifiedInfo) {
        lemma_item_size::<Nonce>(v.nonce);
        lemma_item_size::<TokenType>(v.type_);
        lemma_item_size::<u128>(v.value);
        lemma_item_size::<u64>(v.mt_index);
    }
}

/// The suffix a coin is hashed with to give its commitment.
pub open spec fn commitment_domain() -> Seq<u8> {
    seq![109u8, 100, 110, 58, 99, 99]
}

/// The suffix a coin is hashed with to give its nullifier.
pub open spec fn nullifier_domain() -> Seq<u8> {
    seq![109u8, 100, 110, 58, 99, 110]
}

/// The bytes that stand for a recipient in a commitment: a flag, then the key or address.
pub open spec fn recipient_repr(r: Recipient) -> Seq<u8> {
    match r {
        Recipient::User(pk) => seq![1u8] + pk.0.0@,
        Recipient::Contract(a) => seq![0u8] + a.0.0@,
    }
}

/// The bytes that stand for sender evidence in a nullifier: a flag, then the key or address.
pub open spec fn sender_repr(se: SenderEvidence) -> Seq<u8> {
    match se {
        SenderEvidence::User(sk) => seq![1u8] + sk.0.0@,
        SenderEvidence::Contract(a) => seq![0u8] + a.0.0@,
    }
}

/// The commitment to `info` for `recipient`.
pub open spec fn spec_commitment(info: Info, recipient: Recipient) -> Commitment {
    Commitment(hash_of_bytes(sha256(info.spec_binary_repr() + recipient_repr(recipient) + commitment_domain())))
}

/// The nullifier of `info` spent with `se`.
pub open spec fn spec_nullifier(info: Info, se: SenderEvidence) -> Nullifier {
    Nullifier(hash_of_bytes(sha256(info.spec_binary_repr() + sender_repr(se) + nullifier_domain())))
}

/// A nonce drawn at random. Calls `rand::random`; nothing is claimed of the bytes.
#[verifier::external_body]
fn random_hash_output() -> (h: HashOutput) {
    HashOutput(rand::random::<[u8; 32]>())
}

impl Info {
    /// A new coin of `value` tokens of `type_`, with a random nonce.
    pub fn new(value: u128, type_: TokenType) -> (info: Info)
        ensures
            info.value == value,
            info.type_ == type_,
    {
        Info { nonce: Nonce(random_hash_output()), value, type_ }
    }

    /// The commitment to this coin for `recipient`.
    pub fn commitment(&self, recipient: &Recipient) -> (c: Commitment)
        ensures
            c == spec_commitment(*self, *recipient),
    {
        let mut data: Vec<u8> = Vec::with_capacity(119);
        self.binary_repr(&mut data);
        match recipient {
            Recipient::User(d) => (true, d.0).binary_repr(&mut data),
            Recipient::Contract(d) => (false, d.0).binary_repr(&mut data),
        }
        data.push(109u8);
        data.push(100u8);
        data.push(110u8);
        data.push(58u8);
        data.push(99u8);
        data.push(99u8);
        assert(data@ =~= self.spec_binary_repr() + recipient_repr(*recipient) + commitment_domain());
        let h = persistent_hash(data.as_slice());
        proof {
            lemma_hash_of_bytes(h);
        }
        Commitment(h)
    }

    /// The nullifier of this coin when spent with `se`.
    pub fn nullifier(&self, se: &SenderEvidence) -> (n: Nullifier)
        ensures
            n == spec_nullifier(*self, *se),
    {
        let mut data: Vec<u8> = Vec::with_capacity(119);
        self.binary_repr(&mut data);
        match se {
            SenderEvidence::User(d) => (true, d.0).binary_repr(&mut data),
            SenderEvidence::Contract(d) => (false, d.0).binary_repr(&mut data),
        }
        data.push(109u8);
        data.push(100u8);
        data.push(110u8);
        data.push(58u8);
        data.push(99u8);
        data.push(110u8);
        assert(data@ =~= self.spec_binary_repr() + sender_repr(*se) + nullifier_domain());
        let h = persistent_hash(data.as_slice());
        proof {
            lemma_hash_of_bytes(h);
        }
        Nullifier(h)
    }

    /// This coin, placed at index `mt_index` of the commitment tree.
    pub fn qualify(&self, mt_index: u64) -> (q: QualifiedInfo)
        ensures
            q == (QualifiedInfo { nonce: self.nonce, type_: self.type_, value: self.value, mt_index }),
    {
        QualifiedInfo { nonce: self.nonce, value: self.value, type_: self.type_, mt_index }
    }
}

/// The coin a qualified coin stands for, without its index.
pub open spec fn spec_unqualify(qi: QualifiedInfo) -> Info {
    Info { nonce: qi.nonce, type_: qi.type_, value: qi.value }
}

impl<'a> From<&'a QualifiedInfo> for Info {
    /// Drops the index.
    fn from(qi: &'a QualifiedInfo) -> (info: Info) {
        Info { nonce: qi.nonce, value: qi.value, type_: qi.type_ }
    }
}

impl<'a> vstd::std_specs::convert::FromSpecImpl<&'a QualifiedInfo> for Info {
    open spec fn obeys_from_spec() -> bool {
        true
    }

    open spec fn from_spec(qi: &'a QualifiedInfo) -> Info {
        spec_unqualify(*qi)
    }
}

/// Qualifying a coin and dropping the index again gives back the coin.
pub proof fn law_qualify_unqualify(info: Info, mt_index: u64)
    ensures
        spec_unqualify(QualifiedInfo { nonce: info.nonce, type_: info.type_, value: info.value, mt_index })
            == info,
{
}


impl ExactEq for Commitment {
    fn exact_eq(&self, other: &Self) -> (b: bool) {
        self.same_as(other)
    }
}

impl ExactEq for PublicKey {
    fn exact_eq(&self, other: &Self) -> (b: bool) {
        self.same_as(other)
    }
}

impl ExactEq for TokenType {
    fn exact_eq(&self, other: &Self) -> (b: bool) {
        self.same_as(other)
    }
}

/// A coin's nullifier is the SHA-256 hash of the coin's binary form, a flag
/// byte that is 1 for a user's secret key and 0 for a contract's address, the
/// 32 bytes of that key or address, and the text "mdn:cn".
pub proof fn law_nullifier_preimage(info: Info, se: SenderEvidence)
    ensures
        spec_nullifier(info, se) == Nullifier(
            hash_of_bytes(
                sha256(
                    info.spec_binary_repr() + match se {
                        SenderEvidence::User(sk) => seq![1u8] + sk.0.0@,
                        SenderEvidence::Contract(a) => seq![0u8] + a.0.0@,
                    } + seq![109u8, 100, 110, 58, 99, 110],
                ),
            ),
        ),
{
    assert(nullifier_domain() =~= seq![109u8, 100, 110, 58, 99, 110]);
}

/// A coin spent by a contract and the same coin spent with a user's key have
/// the same nullifier only where SHA-256 maps two different inputs to one
/// digest, whatever the address and the key.
pub proof fn law_contract_and_user_nullifiers_differ(info: Info, a: Address, sk: SecretKey)
    ensures
        spec_nullifier(info, SenderEvidence::Contract(a)) == spec_nullifier(info, SenderEvidence::User(sk))
            ==> exists|p: Seq<u8>, q: Seq<u8>| p != q && #[trigger] hash_of_bytes(sha256(p)) == #[trigger] hash_of_bytes(
            sha256(q),
        ),
{
    let r = info.spec_binary_repr();
    let p = r + sender_repr(SenderEvidence::Contract(a)) + nullifier_domain();
    let q = r + sender_repr(SenderEvidence::User(sk)) + nullifier_domain();
    assert(p[r.len() as int] == 0u8);
    assert(q[r.len() as int] == 1u8);
    assert(p != q);
}

/// A coin's commitment is the SHA-256 hash of the coin's binary form, a flag
/// byte that is 1 for a user's public key and 0 for a contract's address, the
/// 32 bytes of that key or address, and the text "mdn:cc".
pub proof fn law_commitment_preimage(info: Info, recipient: Recipient)
    ensures
        spec_commitment(info, recipient) == Commitment(
            hash_of_bytes(
                sha256(
                    info.spec_binary_repr() + match recipient {
                        Recipient::User(pk) => seq![1u8] + pk.0.0@,
                        Recipient::Contract(a) => seq![0u8] + a.0.0@,
                    } + seq![109u8, 100, 110, 58, 99, 99],
                ),
            ),
        ),
{
    assert(commitment_domain() =~= seq![109u8, 100, 110, 58, 99, 99]);
}

/// A coin's binary form is 80 bytes: its nonce's 32 bytes, its token type's
/// 32 bytes, then its value as 16 little-endian bytes.
pub proof fn law_info_repr(info: Info)
    ensures
        info.spec_binary_repr().len() == 80,
        info.spec_binary_repr().subrange(0, 32) == info.nonce.0.0@,
        info.spec_binary_repr().subrange(32, 64) == info.type_.0.0@,
        le_value(info.spec_binary_repr().subrange(64, 80)) == info.value,
{
    lemma_pow256_values();
    lemma_le_roundtrip(info.value as nat, 16);
    let r = info.spec_binary_repr();
    assert(r.subrange(0, 32) =~= info.nonce.0.0@);
    assert(r.subrange(32, 64) =~= info.type_.0.0@);
    assert(r.subrange(64, 80) =~= le_bytes(info.value as nat, 16));
}

} // verus!

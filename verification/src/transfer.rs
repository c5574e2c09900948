//! Coin recipients and the evidence a sender gives.
use vstd::prelude::*;
use crate::codec::{
    item_bytes, item_decodable, item_deserialize, lemma_item_roundtrip, lemma_item_size, Deserializable,
    RoundTrip, Serializable,
};
use crate::coin::{spec_public_key, PublicKey, SecretKey};
use crate::containers::lemma_tag_byte;
use crate::contract::Address;
use crate::versioned::{CodecError, Version, Versioned, RECURSION_LIMIT};

verus! {

/// Who receives a coin: a user's public key or a contract.
#[derive(Clone, Copy, Debug, PartialEq, Eq, PartialOrd, Ord, Hash)]
pub enum Recipient {
    User(PublicKey),
    Contract(Address),
}

impl DeepView for Recipient {
    type V = Recipient;

    open spec fn deep_view(&self) -> Recipient {
        *self
    }
}

impl Versioned for Recipient {
    open spec fn obeys_codec_spec() -> bool {
        true
    }

    open spec fn spec_version() -> Option<Version> {
        None
    }

    open spec fn spec_network_specific() -> bool {
        false
    }

    open spec fn spec_limit_recursion() -> bool {
        false
    }

    fn version() -> (r: Option<Version>) {
        None
    }

    fn network_specific() -> (r: bool) {
        false
    }

    fn limit_recursion() -> (r: bool) {
        false
    }
}

impl Serializable for Recipient {
    open spec fn spec_serializable(v: Recipient) -> bool {
        true
    }

    /// `0` then the public key, or `1` then the address.
    open spec fn spec_unversioned(v: Recipient) -> Seq<u8> {
        match v {
            Recipient::User(pk) => seq![0u8] + item_bytes::<PublicKey>(pk),
            Recipient::Contract(a) => seq![1u8] + item_bytes::<Address>(a),
        }
    }

    open spec fn spec_unversioned_size(v: Recipient) -> nat {
        match v {
            Recipient::User(pk) => 33,
            Recipient::Contract(a) => 35,
        }
    }

    fn unversioned_serialize(value: &Recipient, out: &mut Vec<u8>) -> (r: Result<(), CodecError>) {
        let ghost start = out@;
        match value {
            Recipient::User(pk) => {
                out.push(0u8);
                let r = <PublicKey as Serializable>::serialize(pk, out);
                assert(out@ =~= start + (seq![0u8] + item_bytes::<PublicKey>(*pk)));
                r
            },
            Recipient::Contract(a) => {
                out.push(1u8);
                let r = <Address as Serializable>::serialize(a, out);
                assert(out@ =~= start + (seq![1u8] + item_bytes::<Address>(*a)));
                r
            },
        }
    }

    fn unversioned_serialized_size(value: &Recipient) -> (n: usize) {
        match value {
            Recipient::User(pk) => 1 + <PublicKey as Serializable>::serialized_size(pk),
            Recipient::Contract(a) => 1 + <Address as Serializable>::serialized_size(a),
        }
    }
}

impl Deserializable for Recipient {
    /// A tag byte read as a `u8`: `0` for a user, `1` for a contract, anything else invalid.
    open spec fn spec_versioned_deserialize(data: Seq<u8>, version: Option<Version>, depth: u32)
        -> Option<(Recipient, nat)> {
        match item_deserialize::<u8>(data, depth) {
            None => None,
            Some((tag, k)) => if tag == 0 {
                match item_deserialize::<PublicKey>(data.skip(k as int), depth) {
                    Some((pk, n)) => Some((Recipient::User(pk), k + n)),
                    None => None,
                }
            } else if tag == 1 {
                match item_deserialize::<Address>(data.skip(k as int), depth) {
                    Some((a, n)) => Some((Recipient::Contract(a), k + n)),
                    None => None,
                }
            } else {
                None
            },
        }
    }

    open spec fn spec_decodable(v: Recipient, depth: u32) -> bool {
        &&& depth <= RECURSION_LIMIT
        &&& match v {
            Recipient::User(pk) => item_decodable::<PublicKey>(pk, depth),
            Recipient::Contract(a) => item_decodable::<Address>(a, depth),
        }
    }

    fn versioned_deserialize(
        data: &[u8],
        pos: &mut usize,
        version: Option<Version>,
        depth: u32,
    ) -> (r: Result<Recipient, CodecError>) {
        let ghost start = *pos;
        let tag = <u8 as Deserializable>::deserialize(data, pos, depth)?;
        let ghost mid = *pos;
        proof {
            assert(data@.skip(mid as int) =~= data@.skip(start as int).skip(mid - start));
        }
        if tag == 0 {
            let pk = <PublicKey as Deserializable>::deserialize(data, pos, depth)?;
            Ok(Recipient::User(pk))
        } else if tag == 1 {
            let a = <Address as Deserializable>::deserialize(data, pos, depth)?;
            Ok(Recipient::Contract(a))
        } else {
            Err(CodecError::InvalidData)
        }
    }
}

impl RoundTrip for Recipient {
    proof fn lemma_unversioned_roundtrip(v: Recipient, rest: Seq<u8>, depth: u32) {
        let data = Self::spec_unversioned(v) + rest;
        lemma_tag_byte(data);
        match v {
            Recipient::User(pk) => {
                assert(data.skip(1) =~= item_bytes::<PublicKey>(pk) + rest);
                lemma_item_roundtrip::<PublicKey>(pk, rest, depth);
            },
            Recipient::Contract(a) => {
                assert(data.skip(1) =~= item_bytes::<Address>(a) + rest);
                lemma_item_roundtrip::<Address>(a, rest, depth);
            },
        }
    }

    proof fn lemma_unversioned_size(v: Recipient) {
        match v {
            Recipient::User(pk) => lemma_item_size::<PublicKey>(pk),
            Recipient::Contract(a) => lemma_item_size::<Address>(a),
        }
    }
}

/// What a sender shows for a coin it spends: a user's secret key or a contract.
#[derive(Clone, Copy, Debug, PartialEq, Eq, PartialOrd, Ord, Hash)]
pub enum SenderEvidence {
    User(SecretKey),
    Contract(Address),
}

impl DeepView for SenderEvidence {
    type V = SenderEvidence;

    open spec fn deep_view(&self) -> SenderEvidence {
        *self
    }
}

impl Versioned for SenderEvidence {
    open spec fn obeys_codec_spec() -> bool {
        true
    }

    open spec fn spec_version() -> Option<Version> {
        None
    }

    open spec fn spec_network_specific() -> bool {
        false
    }

    open spec fn spec_limit_recursion() -> bool {
        false
    }

    fn version() -> (r: Option<Version>) {
        None
    }

    fn network_specific() -> (r: bool) {
        false
    }

    fn limit_recursion() -> (r: bool) {
        false
    }
}

impl Serializable for SenderEvidence {
    open spec fn spec_serializable(v: SenderEvidence) -> bool {
        true
    }

    /// `0` then the secret key, or `1` then the address.
    open spec fn spec_unversioned(v: SenderEvidence) -> Seq<u8> {
        match v {
            SenderEvidence::User(sk) => seq![0u8] + item_bytes::<SecretKey>(sk),
            SenderEvidence::Contract(a) => seq![1u8] + item_bytes::<Address>(a),
        }
    }

    open spec fn spec_unversioned_size(v: SenderEvidence) -> nat {
        35
    }

    fn unversioned_serialize(value: &SenderEvidence, out: &mut Vec<u8>) -> (r: Result<(), CodecError>) {
        let ghost start = out@;
        match value {
            SenderEvidence::User(sk) => {
                out.push(0u8);
                let r = <SecretKey as Serializable>::serialize(sk, out);
                assert(out@ =~= start + (seq![0u8] + item_bytes::<SecretKey>(*sk)));
                r
            },
            SenderEvidence::Contract(a) => {
                out.push(1u8);
                let r = <Address as Serializable>::serialize(a, out);
                assert(out@ =~= start + (seq![1u8] + item_bytes::<Address>(*a)));
                r
            },
        }
    }

    fn unversioned_serialized_size(value: &SenderEvidence) -> (n: usize) {
        match value {
            SenderEvidence::User(sk) => 1 + <SecretKey as Serializable>::serialized_size(sk),
            SenderEvidence::Contract(a) => 1 + <Address as Serializable>::serialized_size(a),
        }
    }
}

/// The recipient that sender evidence stands for.
pub open spec fn spec_recipient_of(se: SenderEvidence) -> Recipient {
    match se {
        SenderEvidence::User(sk) => Recipient::User(spec_public_key(sk)),
        SenderEvidence::Contract(a) => Recipient::Contract(a),
    }
}

impl<'a> From<&'a SenderEvidence> for Recipient {
    /// A user's secret key stands for its public key; a contract for itself.
    fn from(se: &'a SenderEvidence) -> (r: Recipient) {
        match se {
            SenderEvidence::User(sk) => Recipient::User(sk.public_key()),
            SenderEvidence::Contract(a) => Recipient::Contract(*a),
        }
    }
}

impl<'a> vstd::std_specs::convert::FromSpecImpl<&'a SenderEvidence> for Recipient {
    open spec fn obeys_from_spec() -> bool {
        true
    }

    open spec fn from_spec(se: &'a SenderEvidence) -> Recipient {
        spec_recipient_of(*se)
    }
}

} // verus!

//! Encodings of version tags and network identifiers.
use vstd::prelude::*;
use crate::codec::{item_deserialize, Deserializable, RoundTrip, Serializable};
use crate::versioned::{network_byte, network_of_byte, CodecError, NetworkId, Version, Versioned, RECURSION_LIMIT};

verus! {

impl Serializable for Version {
    open spec fn spec_serializable(v: Version) -> bool {
        true
    }

    /// The major byte, then the minor byte.
    open spec fn spec_unversioned(v: Version) -> Seq<u8> {
        seq![v.major, v.minor]
    }

    open spec fn spec_unversioned_size(v: Version) -> nat {
        2
    }

    fn unversioned_serialize(value: &Version, out: &mut Vec<u8>) -> (r: Result<(), CodecError>) {
        out.push(value.major);
        out.push(value.minor);
        Ok(())
    }

    fn unversioned_serialized_size(value: &Version) -> (n: usize) {
        2
    }
}

impl Deserializable for Version {
    open spec fn spec_versioned_deserialize(data: Seq<u8>, version: Option<Version>, depth: u32)
        -> Option<(Version, nat)> {
        if data.len() < 2 || depth > RECURSION_LIMIT {
            None
        } else {
            Some((Version { major: data[0], minor: data[1] }, 2))
        }
    }

    open spec fn spec_decodable(v: Version, depth: u32) -> bool {
        depth <= RECURSION_LIMIT
    }

    fn versioned_deserialize(
        data: &[u8],
        pos: &mut usize,
        version: Option<Version>,
        depth: u32,
    ) -> (r: Result<Version, CodecError>) {
        if depth > RECURSION_LIMIT {
            return Err(CodecError::RecursionLimit);
        }
        if data.len() - *pos < 2 {
            return Err(CodecError::UnexpectedEndOfInput);
        }
        let major = data[*pos];
        let minor = data[*pos + 1];
        *pos = *pos + 2;
        Ok(Version { major, minor })
    }
}

impl RoundTrip for Version {
    proof fn lemma_unversioned_roundtrip(v: Version, rest: Seq<u8>, depth: u32) {
    }

    proof fn lemma_unversioned_size(v: Version) {
    }
}

impl Serializable for NetworkId {
    open spec fn spec_serializable(v: NetworkId) -> bool {
        true
    }

    /// The discriminant byte.
    open spec fn spec_unversioned(v: NetworkId) -> Seq<u8> {
        seq![network_byte(v)]
    }

    open spec fn spec_unversioned_size(v: NetworkId) -> nat {
        1
    }

    fn unversioned_serialize(value: &NetworkId, out: &mut Vec<u8>) -> (r: Result<(), CodecError>) {
        out.push(value.to_byte());
        Ok(())
    }

    fn unversioned_serialized_size(value: &NetworkId) -> (n: usize) {
        1
    }
}

impl Deserializable for NetworkId {
    /// A byte `0..=3`; anything else is invalid.
    open spec fn spec_versioned_deserialize(data: Seq<u8>, version: Option<Version>, depth: u32)
        -> Option<(NetworkId, nat)> {
        if data.len() < 1 {
            None
        } else {
            match network_of_byte(data[0]) {
                Some(n) => Some((n, 1)),
                None => None,
            }
        }
    }

    open spec fn spec_decodable(v: NetworkId, depth: u32) -> bool {
        true
    }

    fn versioned_deserialize(
        data: &[u8],
        pos: &mut usize,
        version: Option<Version>,
        depth: u32,
    ) -> (r: Result<NetworkId, CodecError>) {
        if data.len() - *pos < 1 {
            return Err(CodecError::UnexpectedEndOfInput);
        }
        let b = data[*pos];
        match NetworkId::from_byte(b) {
            Some(n) => {
                *pos = *pos + 1;
                Ok(n)
            },
            None => Err(CodecError::InvalidData),
        }
    }
}

impl RoundTrip for NetworkId {
    proof fn lemma_unversioned_roundtrip(v: NetworkId, rest: Seq<u8>, depth: u32) {
    }

    proof fn lemma_unversioned_size(v: NetworkId) {
    }
}

} // verus!

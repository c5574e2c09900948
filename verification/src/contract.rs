//! Contract addresses and the token types they derive.
use vstd::prelude::*;
use crate::codec::{item_bytes, item_deserialize, lemma_item_roundtrip, lemma_item_size, Deserializable, RoundTrip, Serializable};
use crate::coin::TokenType;
use crate::hash::{commit_preimage, hash_of_bytes, lemma_hash_of_bytes, persistent_commit, sha256, BinaryHashRepr, HashOutput};
use crate::versioned::{CodecError, Version, Versioned, RECURSION_LIMIT};

verus! {

/// The address of a contract.
#[derive(Clone, Copy, Debug, PartialEq, Eq, PartialOrd, Ord, Hash)]
pub struct Address(pub HashOutput);

impl DeepView for Address {
    type V = Address;

    open spec fn deep_view(&self) -> Address {
        *self
    }
}

impl Address {
    /// Whether two values hold the same bytes.
    pub fn same_as(&self, other: &Address) -> (b: bool)
        ensures
            b == (*self == *other),
    {
        self.0.same_as(&other.0)
    }
}

impl BinaryHashRepr for Address {
    open spec fn spec_binary_repr(&self) -> Seq<u8> {
        self.0.0@
    }

    fn binary_repr(&self, out: &mut Vec<u8>) {
        self.0.binary_repr(out);
    }
}

impl Versioned for Address {
    open spec fn obeys_codec_spec() -> bool {
        true
    }

    open spec fn spec_version() -> Option<Version> {
        Some(Version { major: 2, minor: 0 })
    }

    open spec fn spec_network_specific() -> bool {
        true
    }

    open spec fn spec_limit_recursion() -> bool {
        false
    }

    fn version() -> (r: Option<Version>) {
        Some(Version { major: 2, minor: 0 })
    }

    fn network_specific() -> (r: bool) {
        true
    }

    fn limit_recursion() -> (r: bool) {
        false
    }
}

impl Serializable for Address {
    open spec fn spec_serializable(v: Address) -> bool {
        true
    }

    /// The inner hash output.
    open spec fn spec_unversioned(v: Address) -> Seq<u8> {
        item_bytes::<HashOutput>(v.0)
    }

    open spec fn spec_unversioned_size(v: Address) -> nat {
        32
    }

    fn unversioned_serialize(value: &Address, out: &mut Vec<u8>) -> (r: Result<(), CodecError>) {
        <HashOutput as Serializable>::serialize(&value.0, out)
    }

    fn unversioned_serialized_size(value: &Address) -> (n: usize) {
        <HashOutput as Serializable>::serialized_size(&value.0)
    }
}

impl Deserializable for Address {
    /// Version 2.0 only: the inner hash output.
    open spec fn spec_versioned_deserialize(data: Seq<u8>, version: Option<Version>, depth: u32)
        -> Option<(Address, nat)> {
        if version != Some(Version { major: 2, minor: 0 }) {
            None
        } else {
            match item_deserialize::<HashOutput>(data, depth) {
                Some((h, n)) => Some((Address(h), n)),
                None => None,
            }
        }
    }

    open spec fn spec_decodable(v: Address, depth: u32) -> bool {
        depth <= RECURSION_LIMIT
    }

    fn versioned_deserialize(
        data: &[u8],
        pos: &mut usize,
        version: Option<Version>,
        depth: u32,
    ) -> (r: Result<Address, CodecError>) {
        match version {
            Some(Version { major: 2, minor: 0 }) => {
                let h = <HashOutput as Deserializable>::deserialize(data, pos, depth)?;
                Ok(Address(h))
            },
            _ => Err(CodecError::UnsupportedVersion),
        }
    }
}

impl RoundTrip for Address {
    proof fn lemma_unversioned_roundtrip(v: Address, rest: Seq<u8>, depth: u32) {
        lemma_item_roundtrip::<HashOutput>(v.0, rest, depth);
    }

    proof fn lemma_unversioned_size(v: Address) {
        lemma_item_size::<HashOutput>(v.0);
    }
}

/// The domain separator under which contracts derive token types.
pub open spec fn derive_token_domain() -> Seq<u8> {
    seq![109u8, 105, 100, 110, 105, 103, 104, 116, 58, 100, 101, 114, 105, 118, 101, 95, 116, 111, 107, 101, 110, 0, 0, 0, 0, 0, 0, 0, 0, 0, 0, 0]
}

/// The token type a contract derives under a domain separator.
pub open spec fn spec_custom_token_type(address: Address, domain_sep: HashOutput) -> TokenType {
    TokenType(hash_of_bytes(sha256(derive_token_domain() + (domain_sep.0@ + address.0.0@))))
}

impl Address {
    /// The token type this contract issues under `domain_sep`: a commitment to
    /// the domain separator and the address, opened with a fixed separator.
    pub fn custom_token_type(&self, domain_sep: HashOutput) -> (t: TokenType)
        ensures
            t == spec_custom_token_type(*self, domain_sep),
    {
        let inner_domain_sep = HashOutput([109u8, 105, 100, 110, 105, 103, 104, 116, 58, 100, 101, 114, 105, 118, 101, 95, 116, 111, 107, 101, 110, 0, 0, 0, 0, 0, 0, 0, 0, 0, 0, 0]);
        assert(inner_domain_sep.0@ =~= derive_token_domain());
        let h = persistent_commit(&(domain_sep, self.0), inner_domain_sep);
        proof {
            lemma_hash_of_bytes(h);
        }
        TokenType(h)
    }
}

} // verus!

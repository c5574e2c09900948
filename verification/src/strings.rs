//! Strings in the binary format: a 32-bit little-endian byte count, then the UTF-8 bytes.
use vstd::prelude::*;
use vstd::utf8::{decode_utf8, encode_utf8, encode_utf8_decode_utf8, encode_utf8_valid_utf8, valid_utf8};
use crate::bytes::{le_bytes, le_value, lemma_le_roundtrip, lemma_pow256_values};
use crate::codec::{Deserializable, RoundTrip, Serializable};
use crate::versioned::{CodecError, Version, Versioned};

verus! {

/// What reading a string from the front of `data` gives: its characters and
/// the bytes used, when a count, that many bytes and valid UTF-8 are there.
pub open spec fn string_prefix(data: Seq<u8>) -> Option<(Seq<char>, nat)> {
    if data.len() < 4 {
        None
    } else {
        let n = le_value(data.take(4));
        if data.len() < 4 + n {
            None
        } else {
            let body = data.subrange(4, 4 + n as int);
            if valid_utf8(body) {
                Some((decode_utf8(body), 4 + n))
            } else {
                None
            }
        }
    }
}

/// Calls `borsh::BorshSerialize::serialize` on a string. Trusted: borsh writes
/// the UTF-8 byte count as 4 little-endian bytes and then the bytes, and
/// refuses, writing nothing, a string of more than `u32::MAX` bytes.
#[verifier::external_body]
fn borsh_write_string(s: &String, out: &mut Vec<u8>) -> (r: Result<(), CodecError>)
    ensures
        (r is Ok) == (encode_utf8(s@).len() <= u32::MAX),
        r is Ok ==> final(out)@ == old(out)@ + (le_bytes(encode_utf8(s@).len(), 4) + encode_utf8(s@)),
        r is Err ==> final(out)@ == old(out)@,
{
    match borsh::BorshSerialize::serialize(s, out) {
        Ok(()) => Ok(()),
        Err(_) => Err(CodecError::InvalidData),
    }
}

/// Calls `borsh::BorshDeserialize::deserialize_reader` for a string on `data`,
/// and hands back the string and how many bytes of `data` are left. Trusted:
/// borsh reads a 4-byte little-endian count, then that many bytes, and accepts
/// them when they are valid UTF-8.
#[verifier::external_body]
fn borsh_read_string(data: &[u8]) -> (r: Option<(String, usize)>)
    ensures
        match string_prefix(data@) {
            Some((chars, n)) => r matches Some((s, rest)) && s@ == chars && rest == data@.len() - n,
            None => r is None,
        },
{
    let mut reader = data;
    match <String as borsh::BorshDeserialize>::deserialize_reader(&mut reader) {
        Ok(s) => Some((s, reader.len())),
        Err(_) => None,
    }
}

impl Versioned for String {
    open spec fn obeys_codec_spec() -> bool {
        true
    }

    open spec fn spec_version() -> Option<Version> {
        None
    }

    open spec fn spec_network_specific() -> bool {
        false
    }

    open spec fn spec_limit_recursion() -> bool {
        false
    }

    fn version() -> (r: Option<Version>) {
        None
    }

    fn network_specific() -> (r: bool) {
        false
    }

    fn limit_recursion() -> (r: bool) {
        false
    }
}

impl Serializable for String {
    /// At most `u32::MAX` bytes of UTF-8.
    open spec fn spec_serializable(v: Seq<char>) -> bool {
        encode_utf8(v).len() <= u32::MAX
    }

    /// The byte count as 4 little-endian bytes, then the UTF-8 bytes.
    open spec fn spec_unversioned(v: Seq<char>) -> Seq<u8> {
        le_bytes(encode_utf8(v).len(), 4) + encode_utf8(v)
    }

    open spec fn spec_unversioned_size(v: Seq<char>) -> nat {
        4 + encode_utf8(v).len()
    }

    fn unversioned_serialize(value: &String, out: &mut Vec<u8>) -> (r: Result<(), CodecError>) {
        borsh_write_string(value, out)
    }

    fn unversioned_serialized_size(value: &String) -> (n: usize) {
        4 + value.as_str().as_bytes().len()
    }
}

impl Deserializable for String {
    /// A byte count, then that many bytes of valid UTF-8.
    open spec fn spec_versioned_deserialize(data: Seq<u8>, version: Option<Version>, depth: u32) -> Option<
        (Seq<char>, nat),
    > {
        string_prefix(data)
    }

    open spec fn spec_decodable(v: Seq<char>, depth: u32) -> bool {
        true
    }

    fn versioned_deserialize(data: &[u8], pos: &mut usize, version: Option<Version>, depth: u32) -> (r: Result<
        String,
        CodecError,
    >) {
        let (_, rest) = data.split_at(*pos);
        assert(rest@ =~= data@.skip(*pos as int));
        match borsh_read_string(rest) {
            Some((s, left)) => {
                *pos = data.len() - left;
                Ok(s)
            },
            None => Err(CodecError::InvalidData),
        }
    }
}

impl RoundTrip for String {
    proof fn lemma_unversioned_roundtrip(v: Seq<char>, rest: Seq<u8>, depth: u32) {
        let bytes = encode_utf8(v);
        let n = bytes.len();
        lemma_pow256_values();
        lemma_le_roundtrip(n, 4);
        let data = le_bytes(n, 4) + bytes + rest;
        assert(data.take(4) =~= le_bytes(n, 4));
        assert(data.subrange(4, 4 + n as int) =~= bytes);
        encode_utf8_valid_utf8(v);
        encode_utf8_decode_utf8(v);
    }

    proof fn lemma_unversioned_size(v: Seq<char>) {
        lemma_pow256_values();
        lemma_le_roundtrip(encode_utf8(v).len(), 4);
    }
}

} // verus!

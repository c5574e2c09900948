//! The fixed-width encodings of integers, `bool` and `()`.
use vstd::prelude::*;
use crate::bytes::{le_bytes, le_value, lemma_le_roundtrip, lemma_le_value_bound, lemma_pow256_values, read_le, write_le};
use crate::codec::{Deserializable, RoundTrip, Serializable};
use crate::versioned::{CodecError, Version, Versioned};

verus! {

impl Versioned for u8 {
    open spec fn obeys_codec_spec() -> bool {
        true
    }

    open spec fn spec_version() -> Option<Version> {
        None
    }

    open spec fn spec_network_specific() -> bool {
        false
    }

    open spec fn spec_limit_recursion() -> bool {
        false
    }

    fn version() -> (r: Option<Version>) {
        None
    }

    fn network_specific() -> (r: bool) {
        false
    }

    fn limit_recursion() -> (r: bool) {
        false
    }
}

impl Serializable for u8 {
    open spec fn spec_serializable(v: u8) -> bool {
        true
    }

    open spec fn spec_unversioned(v: u8) -> Seq<u8> {
        le_bytes(v as nat, 1)
    }

    open spec fn spec_unversioned_size(v: u8) -> nat {
        1
    }

    fn unversioned_serialize(value: &u8, out: &mut Vec<u8>) -> (r: Result<(), CodecError>) {
        proof {
            lemma_pow256_values();
        }
        write_le(out, *value as u128, 1);
        Ok(())
    }

    fn unversioned_serialized_size(value: &u8) -> (n: usize) {
        1
    }
}

impl Deserializable for u8 {
    open spec fn spec_versioned_deserialize(data: Seq<u8>, version: Option<Version>, depth: u32)
        -> Option<(u8, nat)> {
        if data.len() < 1 {
            None
        } else {
            Some((le_value(data.take(1)) as u8, 1))
        }
    }

    open spec fn spec_decodable(v: u8, depth: u32) -> bool {
        true
    }

    fn versioned_deserialize(
        data: &[u8],
        pos: &mut usize,
        version: Option<Version>,
        depth: u32,
    ) -> (r: Result<u8, CodecError>) {
        if data.len() - *pos < 1 {
            return Err(CodecError::UnexpectedEndOfInput);
        }
        let v = read_le(data, *pos, 1);
        proof {
            assert(data@.skip(*pos as int).take(1) =~= data@.subrange(*pos as int, *pos + 1));
            lemma_le_value_bound(data@.subrange(*pos as int, *pos + 1));
            lemma_pow256_values();
        }
        *pos = *pos + 1;
        Ok(v as u8)
    }
}

impl RoundTrip for u8 {
    proof fn lemma_unversioned_roundtrip(v: u8, rest: Seq<u8>, depth: u32) {
        lemma_pow256_values();
        lemma_le_roundtrip(v as nat, 1);
        let s = le_bytes(v as nat, 1) + rest;
        assert(s.take(1) =~= le_bytes(v as nat, 1));
    }

    proof fn lemma_unversioned_size(v: u8) {
        lemma_pow256_values();
        lemma_le_roundtrip(v as nat, 1);
    }
}

impl Versioned for u16 {
    open spec fn obeys_codec_spec() -> bool {
        true
    }

    open spec fn spec_version() -> Option<Version> {
        None
    }

    open spec fn spec_network_specific() -> bool {
        false
    }

    open spec fn spec_limit_recursion() -> bool {
        false
    }

    fn version() -> (r: Option<Version>) {
        None
    }

    fn network_specific() -> (r: bool) {
        false
    }

    fn limit_recursion() -> (r: bool) {
        false
    }
}

impl Serializable for u16 {
    open spec fn spec_serializable(v: u16) -> bool {
        true
    }

    open spec fn spec_unversioned(v: u16) -> Seq<u8> {
        le_bytes(v as nat, 2)
    }

    open spec fn spec_unversioned_size(v: u16) -> nat {
        2
    }

    fn unversioned_serialize(value: &u16, out: &mut Vec<u8>) -> (r: Result<(), CodecError>) {
        proof {
            lemma_pow256_values();
        }
        write_le(out, *value as u128, 2);
        Ok(())
    }

    fn unversioned_serialized_size(value: &u16) -> (n: usize) {
        2
    }
}

impl Deserializable for u16 {
    open spec fn spec_versioned_deserialize(data: Seq<u8>, version: Option<Version>, depth: u32)
        -> Option<(u16, nat)> {
        if data.len() < 2 {
            None
        } else {
            Some((le_value(data.take(2)) as u16, 2))
        }
    }

    open spec fn spec_decodable(v: u16, depth: u32) -> bool {
        true
    }

    fn versioned_deserialize(
        data: &[u8],
        pos: &mut usize,
        version: Option<Version>,
        depth: u32,
    ) -> (r: Result<u16, CodecError>) {
        if data.len() - *pos < 2 {
            return Err(CodecError::UnexpectedEndOfInput);
        }
        let v = read_le(data, *pos, 2);
        proof {
            assert(data@.skip(*pos as int).take(2) =~= data@.subrange(*pos as int, *pos + 2));
            lemma_le_value_bound(data@.subrange(*pos as int, *pos + 2));
            lemma_pow256_values();
        }
        *pos = *pos + 2;
        Ok(v as u16)
    }
}

impl RoundTrip for u16 {
    proof fn lemma_unversioned_roundtrip(v: u16, rest: Seq<u8>, depth: u32) {
        lemma_pow256_values();
        lemma_le_roundtrip(v as nat, 2);
        let s = le_bytes(v as nat, 2) + rest;
        assert(s.take(2) =~= le_bytes(v as nat, 2));
    }

    proof fn lemma_unversioned_size(v: u16) {
        lemma_pow256_values();
        lemma_le_roundtrip(v as nat, 2);
    }
}

impl Versioned for u32 {
    open spec fn obeys_codec_spec() -> bool {
        true
    }

    open spec fn spec_version() -> Option<Version> {
        None
    }

    open spec fn spec_network_specific() -> bool {
        false
    }

    open spec fn spec_limit_recursion() -> bool {
        false
    }

    fn version() -> (r: Option<Version>) {
        None
    }

    fn network_specific() -> (r: bool) {
        false
    }

    fn limit_recursion() -> (r: bool) {
        false
    }
}

impl Serializable for u32 {
    open spec fn spec_serializable(v: u32) -> bool {
        true
    }

    open spec fn spec_unversioned(v: u32) -> Seq<u8> {
        le_bytes(v as nat, 4)
    }

    open spec fn spec_unversioned_size(v: u32) -> nat {
        4
    }

    fn unversioned_serialize(value: &u32, out: &mut Vec<u8>) -> (r: Result<(), CodecError>) {
        proof {
            lemma_pow256_values();
        }
        write_le(out, *value as u128, 4);
        Ok(())
    }

    fn unversioned_serialized_size(value: &u32) -> (n: usize) {
        4
    }
}

impl Deserializable for u32 {
    open spec fn spec_versioned_deserialize(data: Seq<u8>, version: Option<Version>, depth: u32)
        -> Option<(u32, nat)> {
        if data.len() < 4 {
            None
        } else {
            Some((le_value(data.take(4)) as u32, 4))
        }
    }

    open spec fn spec_decodable(v: u32, depth: u32) -> bool {
        true
    }

    fn versioned_deserialize(
        data: &[u8],
        pos: &mut usize,
        version: Option<Version>,
        depth: u32,
    ) -> (r: Result<u32, CodecError>) {
        if data.len() - *pos < 4 {
            return Err(CodecError::UnexpectedEndOfInput);
        }
        let v = read_le(data, *pos, 4);
        proof {
            assert(data@.skip(*pos as int).take(4) =~= data@.subrange(*pos as int, *pos + 4));
            lemma_le_value_bound(data@.subrange(*pos as int, *pos + 4));
            lemma_pow256_values();
        }
        *pos = *pos + 4;
        Ok(v as u32)
    }
}

impl RoundTrip for u32 {
    proof fn lemma_unversioned_roundtrip(v: u32, rest: Seq<u8>, depth: u32) {
        lemma_pow256_values();
        lemma_le_roundtrip(v as nat, 4);
        let s = le_bytes(v as nat, 4) + rest;
        assert(s.take(4) =~= le_bytes(v as nat, 4));
    }

    proof fn lemma_unversioned_size(v: u32) {
        lemma_pow256_values();
        lemma_le_roundtrip(v as nat, 4);
    }
}

impl Versioned for u64 {
    open spec fn obeys_codec_spec() -> bool {
        true
    }

    open spec fn spec_version() -> Option<Version> {
        None
    }

    open spec fn spec_network_specific() -> bool {
        false
    }

    open spec fn spec_limit_recursion() -> bool {
        false
    }

    fn version() -> (r: Option<Version>) {
        None
    }

    fn network_specific() -> (r: bool) {
        false
    }

    fn limit_recursion() -> (r: bool) {
        false
    }
}

impl Serializable for u64 {
    open spec fn spec_serializable(v: u64) -> bool {
        true
    }

    open spec fn spec_unversioned(v: u64) -> Seq<u8> {
        le_bytes(v as nat, 8)
    }

    open spec fn spec_unversioned_size(v: u64) -> nat {
        8
    }

    fn unversioned_serialize(value: &u64, out: &mut Vec<u8>) -> (r: Result<(), CodecError>) {
        proof {
            lemma_pow256_values();
        }
        write_le(out, *value as u128, 8);
        Ok(())
    }

    fn unversioned_serialized_size(value: &u64) -> (n: usize) {
        8
    }
}

impl Deserializable for u64 {
    open spec fn spec_versioned_deserialize(data: Seq<u8>, version: Option<Version>, depth: u32)
        -> Option<(u64, nat)> {
        if data.len() < 8 {
            None
        } else {
            Some((le_value(data.take(8)) as u64, 8))
        }
    }

    open spec fn spec_decodable(v: u64, depth: u32) -> bool {
        true
    }

    fn versioned_deserialize(
        data: &[u8],
        pos: &mut usize,
        version: Option<Version>,
        depth: u32,
    ) -> (r: Result<u64, CodecError>) {
        if data.len() - *pos < 8 {
            return Err(CodecError::UnexpectedEndOfInput);
        }
        let v = read_le(data, *pos, 8);
        proof {
            assert(data@.skip(*pos as int).take(8) =~= data@.subrange(*pos as int, *pos + 8));
            lemma_le_value_bound(data@.subrange(*pos as int, *pos + 8));
            lemma_pow256_values();
        }
        *pos = *pos + 8;
        Ok(v as u64)
    }
}

impl RoundTrip for u64 {
    proof fn lemma_unversioned_roundtrip(v: u64, rest: Seq<u8>, depth: u32) {
        lemma_pow256_values();
        lemma_le_roundtrip(v as nat, 8);
        let s = le_bytes(v as nat, 8) + rest;
        assert(s.take(8) =~= le_bytes(v as nat, 8));
    }

    proof fn lemma_unversioned_size(v: u64) {
        lemma_pow256_values();
        lemma_le_roundtrip(v as nat, 8);
    }
}

impl Versioned for u128 {
    open spec fn obeys_codec_spec() -> bool {
        true
    }

    open spec fn spec_version() -> Option<Version> {
        None
    }

    open spec fn spec_network_specific() -> bool {
        false
    }

    open spec fn spec_limit_recursion() -> bool {
        false
    }

    fn version() -> (r: Option<Version>) {
        None
    }

    fn network_specific() -> (r: bool) {
        false
    }

    fn limit_recursion() -> (r: bool) {
        false
    }
}

impl Serializable for u128 {
    open spec fn spec_serializable(v: u128) -> bool {
        true
    }

    open spec fn spec_unversioned(v: u128) -> Seq<u8> {
        le_bytes(v as nat, 16)
    }

    open spec fn spec_unversioned_size(v: u128) -> nat {
        16
    }

    fn unversioned_serialize(value: &u128, out: &mut Vec<u8>) -> (r: Result<(), CodecError>) {
        proof {
            lemma_pow256_values();
        }
        write_le(out, *value as u128, 16);
        Ok(())
    }

    fn unversioned_serialized_size(value: &u128) -> (n: usize) {
        16
    }
}

impl Deserializable for u128 {
    open spec fn spec_versioned_deserialize(data: Seq<u8>, version: Option<Version>, depth: u32)
        -> Option<(u128, nat)> {
        if data.len() < 16 {
            None
        } else {
            Some((le_value(data.take(16)) as u128, 16))
        }
    }

    open spec fn spec_decodable(v: u128, depth: u32) -> bool {
        true
    }

    fn versioned_deserialize(
        data: &[u8],
        pos: &mut usize,
        version: Option<Version>,
        depth: u32,
    ) -> (r: Result<u128, CodecError>) {
        if data.len() - *pos < 16 {
            return Err(CodecError::UnexpectedEndOfInput);
        }
        let v = read_le(data, *pos, 16);
        proof {
            assert(data@.skip(*pos as int).take(16) =~= data@.subrange(*pos as int, *pos + 16));
            lemma_le_value_bound(data@.subrange(*pos as int, *pos + 16));
            lemma_pow256_values();
        }
        *pos = *pos + 16;
        Ok(v as u128)
    }
}

impl RoundTrip for u128 {
    proof fn lemma_unversioned_roundtrip(v: u128, rest: Seq<u8>, depth: u32) {
        lemma_pow256_values();
        lemma_le_roundtrip(v as nat, 16);
        let s = le_bytes(v as nat, 16) + rest;
        assert(s.take(16) =~= le_bytes(v as nat, 16));
    }

    proof fn lemma_unversioned_size(v: u128) {
        lemma_pow256_values();
        lemma_le_roundtrip(v as nat, 16);
    }
}

impl Versioned for i8 {
    open spec fn obeys_codec_spec() -> bool {
        true
    }

    open spec fn spec_version() -> Option<Version> {
        None
    }

    open spec fn spec_network_specific() -> bool {
        false
    }

    open spec fn spec_limit_recursion() -> bool {
        false
    }

    fn version() -> (r: Option<Version>) {
        None
    }

    fn network_specific() -> (r: bool) {
        false
    }

    fn limit_recursion() -> (r: bool) {
        false
    }
}

impl Serializable for i8 {
    open spec fn spec_serializable(v: i8) -> bool {
        true
    }

    open spec fn spec_unversioned(v: i8) -> Seq<u8> {
        le_bytes((v as u8) as nat, 1)
    }

    open spec fn spec_unversioned_size(v: i8) -> nat {
        1
    }

    fn unversioned_serialize(value: &i8, out: &mut Vec<u8>) -> (r: Result<(), CodecError>) {
        proof {
            lemma_pow256_values();
        }
        let u: u8 = *value as u8;
        write_le(out, u as u128, 1);
        Ok(())
    }

    fn unversioned_serialized_size(value: &i8) -> (n: usize) {
        1
    }
}

impl Deserializable for i8 {
    open spec fn spec_versioned_deserialize(data: Seq<u8>, version: Option<Version>, depth: u32)
        -> Option<(i8, nat)> {
        if data.len() < 1 {
            None
        } else {
            Some(((le_value(data.take(1)) as u8) as i8, 1))
        }
    }

    open spec fn spec_decodable(v: i8, depth: u32) -> bool {
        true
    }

    fn versioned_deserialize(
        data: &[u8],
        pos: &mut usize,
        version: Option<Version>,
        depth: u32,
    ) -> (r: Result<i8, CodecError>) {
        if data.len() - *pos < 1 {
            return Err(CodecError::UnexpectedEndOfInput);
        }
        let v = read_le(data, *pos, 1);
        proof {
            assert(data@.skip(*pos as int).take(1) =~= data@.subrange(*pos as int, *pos + 1));
            lemma_le_value_bound(data@.subrange(*pos as int, *pos + 1));
            lemma_pow256_values();
        }
        *pos = *pos + 1;
        let u: u8 = v as u8;
        Ok(u as i8)
    }
}

impl RoundTrip for i8 {
    proof fn lemma_unversioned_roundtrip(v: i8, rest: Seq<u8>, depth: u32) {
        lemma_pow256_values();
        let u = v as u8;
        lemma_le_roundtrip(u as nat, 1);
        let s = le_bytes(u as nat, 1) + rest;
        assert(s.take(1) =~= le_bytes(u as nat, 1));
        assert((u as i8) == v) by (bit_vector)
            requires u == v as u8;
    }

    proof fn lemma_unversioned_size(v: i8) {
        lemma_pow256_values();
        lemma_le_roundtrip((v as u8) as nat, 1);
    }
}

impl Versioned for i16 {
    open spec fn obeys_codec_spec() -> bool {
        true
    }

    open spec fn spec_version() -> Option<Version> {
        None
    }

    open spec fn spec_network_specific() -> bool {
        false
    }

    open spec fn spec_limit_recursion() -> bool {
        false
    }

    fn version() -> (r: Option<Version>) {
        None
    }

    fn network_specific() -> (r: bool) {
        false
    }

    fn limit_recursion() -> (r: bool) {
        false
    }
}

impl Serializable for i16 {
    open spec fn spec_serializable(v: i16) -> bool {
        true
    }

    open spec fn spec_unversioned(v: i16) -> Seq<u8> {
        le_bytes((v as u16) as nat, 2)
    }

    open spec fn spec_unversioned_size(v: i16) -> nat {
        2
    }

    fn unversioned_serialize(value: &i16, out: &mut Vec<u8>) -> (r: Result<(), CodecError>) {
        proof {
            lemma_pow256_values();
        }
        let u: u16 = *value as u16;
        write_le(out, u as u128, 2);
        Ok(())
    }

    fn unversioned_serialized_size(value: &i16) -> (n: usize) {
        2
    }
}

impl Deserializable for i16 {
    open spec fn spec_versioned_deserialize(data: Seq<u8>, version: Option<Version>, depth: u32)
        -> Option<(i16, nat)> {
        if data.len() < 2 {
            None
        } else {
            Some(((le_value(data.take(2)) as u16) as i16, 2))
        }
    }

    open spec fn spec_decodable(v: i16, depth: u32) -> bool {
        true
    }

    fn versioned_deserialize(
        data: &[u8],
        pos: &mut usize,
        version: Option<Version>,
        depth: u32,
    ) -> (r: Result<i16, CodecError>) {
        if data.len() - *pos < 2 {
            return Err(CodecError::UnexpectedEndOfInput);
        }
        let v = read_le(data, *pos, 2);
        proof {
            assert(data@.skip(*pos as int).take(2) =~= data@.subrange(*pos as int, *pos + 2));
            lemma_le_value_bound(data@.subrange(*pos as int, *pos + 2));
            lemma_pow256_values();
        }
        *pos = *pos + 2;
        let u: u16 = v as u16;
        Ok(u as i16)
    }
}

impl RoundTrip for i16 {
    proof fn lemma_unversioned_roundtrip(v: i16, rest: Seq<u8>, depth: u32) {
        lemma_pow256_values();
        let u = v as u16;
        lemma_le_roundtrip(u as nat, 2);
        let s = le_bytes(u as nat, 2) + rest;
        assert(s.take(2) =~= le_bytes(u as nat, 2));
        assert((u as i16) == v) by (bit_vector)
            requires u == v as u16;
    }

    proof fn lemma_unversioned_size(v: i16) {
        lemma_pow256_values();
        lemma_le_roundtrip((v as u16) as nat, 2);
    }
}

impl Versioned for i32 {
    open spec fn obeys_codec_spec() -> bool {
        true
    }

    open spec fn spec_version() -> Option<Version> {
        None
    }

    open spec fn spec_network_specific() -> bool {
        false
    }

    open spec fn spec_limit_recursion() -> bool {
        false
    }

    fn version() -> (r: Option<Version>) {
        None
    }

    fn network_specific() -> (r: bool) {
        false
    }

    fn limit_recursion() -> (r: bool) {
        false
    }
}

impl Serializable for i32 {
    open spec fn spec_serializable(v: i32) -> bool {
        true
    }

    open spec fn spec_unversioned(v: i32) -> Seq<u8> {
        le_bytes((v as u32) as nat, 4)
    }

    open spec fn spec_unversioned_size(v: i32) -> nat {
        4
    }

    fn unversioned_serialize(value: &i32, out: &mut Vec<u8>) -> (r: Result<(), CodecError>) {
        proof {
            lemma_pow256_values();
        }
        let u: u32 = *value as u32;
        write_le(out, u as u128, 4);
        Ok(())
    }

    fn unversioned_serialized_size(value: &i32) -> (n: usize) {
        4
    }
}

impl Deserializable for i32 {
    open spec fn spec_versioned_deserialize(data: Seq<u8>, version: Option<Version>, depth: u32)
        -> Option<(i32, nat)> {
        if data.len() < 4 {
            None
        } else {
            Some(((le_value(data.take(4)) as u32) as i32, 4))
        }
    }

    open spec fn spec_decodable(v: i32, depth: u32) -> bool {
        true
    }

    fn versioned_deserialize(
        data: &[u8],
        pos: &mut usize,
        version: Option<Version>,
        depth: u32,
    ) -> (r: Result<i32, CodecError>) {
        if data.len() - *pos < 4 {
            return Err(CodecError::UnexpectedEndOfInput);
        }
        let v = read_le(data, *pos, 4);
        proof {
            assert(data@.skip(*pos as int).take(4) =~= data@.subrange(*pos as int, *pos + 4));
            lemma_le_value_bound(data@.subrange(*pos as int, *pos + 4));
            lemma_pow256_values();
        }
        *pos = *pos + 4;
        let u: u32 = v as u32;
        Ok(u as i32)
    }
}

impl RoundTrip for i32 {
    proof fn lemma_unversioned_roundtrip(v: i32, rest: Seq<u8>, depth: u32) {
        lemma_pow256_values();
        let u = v as u32;
        lemma_le_roundtrip(u as nat, 4);
        let s = le_bytes(u as nat, 4) + rest;
        assert(s.take(4) =~= le_bytes(u as nat, 4));
        assert((u as i32) == v) by (bit_vector)
            requires u == v as u32;
    }

    proof fn lemma_unversioned_size(v: i32) {
        lemma_pow256_values();
        lemma_le_roundtrip((v as u32) as nat, 4);
    }
}

impl Versioned for i64 {
    open spec fn obeys_codec_spec() -> bool {
        true
    }

    open spec fn spec_version() -> Option<Version> {
        None
    }

    open spec fn spec_network_specific() -> bool {
        false
    }

    open spec fn spec_limit_recursion() -> bool {
        false
    }

    fn version() -> (r: Option<Version>) {
        None
    }

    fn network_specific() -> (r: bool) {
        false
    }

    fn limit_recursion() -> (r: bool) {
        false
    }
}

impl Serializable for i64 {
    open spec fn spec_serializable(v: i64) -> bool {
        true
    }

    open spec fn spec_unversioned(v: i64) -> Seq<u8> {
        le_bytes((v as u64) as nat, 8)
    }

    open spec fn spec_unversioned_size(v: i64) -> nat {
        8
    }

    fn unversioned_serialize(value: &i64, out: &mut Vec<u8>) -> (r: Result<(), CodecError>) {
        proof {
            lemma_pow256_values();
        }
        let u: u64 = *value as u64;
        write_le(out, u as u128, 8);
        Ok(())
    }

    fn unversioned_serialized_size(value: &i64) -> (n: usize) {
        8
    }
}

impl Deserializable for i64 {
    open spec fn spec_versioned_deserialize(data: Seq<u8>, version: Option<Version>, depth: u32)
        -> Option<(i64, nat)> {
        if data.len() < 8 {
            None
        } else {
            Some(((le_value(data.take(8)) as u64) as i64, 8))
        }
    }

    open spec fn spec_decodable(v: i64, depth: u32) -> bool {
        true
    }

    fn versioned_deserialize(
        data: &[u8],
        pos: &mut usize,
        version: Option<Version>,
        depth: u32,
    ) -> (r: Result<i64, CodecError>) {
        if data.len() - *pos < 8 {
            return Err(CodecError::UnexpectedEndOfInput);
        }
        let v = read_le(data, *pos, 8);
        proof {
            assert(data@.skip(*pos as int).take(8) =~= data@.subrange(*pos as int, *pos + 8));
            lemma_le_value_bound(data@.subrange(*pos as int, *pos + 8));
            lemma_pow256_values();
        }
        *pos = *pos + 8;
        let u: u64 = v as u64;
        Ok(u as i64)
    }
}

impl RoundTrip for i64 {
    proof fn lemma_unversioned_roundtrip(v: i64, rest: Seq<u8>, depth: u32) {
        lemma_pow256_values();
        let u = v as u64;
        lemma_le_roundtrip(u as nat, 8);
        let s = le_bytes(u as nat, 8) + rest;
        assert(s.take(8) =~= le_bytes(u as nat, 8));
        assert((u as i64) == v) by (bit_vector)
            requires u == v as u64;
    }

    proof fn lemma_unversioned_size(v: i64) {
        lemma_pow256_values();
        lemma_le_roundtrip((v as u64) as nat, 8);
    }
}

impl Versioned for i128 {
    open spec fn obeys_codec_spec() -> bool {
        true
    }

    open spec fn spec_version() -> Option<Version> {
        None
    }

    open spec fn spec_network_specific() -> bool {
        false
    }

    open spec fn spec_limit_recursion() -> bool {
        false
    }

    fn version() -> (r: Option<Version>) {
        None
    }

    fn network_specific() -> (r: bool) {
        false
    }

    fn limit_recursion() -> (r: bool) {
        false
    }
}

impl Serializable for i128 {
    open spec fn spec_serializable(v: i128) -> bool {
        true
    }

    open spec fn spec_unversioned(v: i128) -> Seq<u8> {
        le_bytes((v as u128) as nat, 16)
    }

    open spec fn spec_unversioned_size(v: i128) -> nat {
        16
    }

    fn unversioned_serialize(value: &i128, out: &mut Vec<u8>) -> (r: Result<(), CodecError>) {
        proof {
            lemma_pow256_values();
        }
        let u: u128 = *value as u128;
        write_le(out, u as u128, 16);
        Ok(())
    }

    fn unversioned_serialized_size(value: &i128) -> (n: usize) {
        16
    }
}

impl Deserializable for i128 {
    open spec fn spec_versioned_deserialize(data: Seq<u8>, version: Option<Version>, depth: u32)
        -> Option<(i128, nat)> {
        if data.len() < 16 {
            None
        } else {
            Some(((le_value(data.take(16)) as u128) as i128, 16))
        }
    }

    open spec fn spec_decodable(v: i128, depth: u32) -> bool {
        true
    }

    fn versioned_deserialize(
        data: &[u8],
        pos: &mut usize,
        version: Option<Version>,
        depth: u32,
    ) -> (r: Result<i128, CodecError>) {
        if data.len() - *pos < 16 {
            return Err(CodecError::UnexpectedEndOfInput);
        }
        let v = read_le(data, *pos, 16);
        proof {
            assert(data@.skip(*pos as int).take(16) =~= data@.subrange(*pos as int, *pos + 16));
            lemma_le_value_bound(data@.subrange(*pos as int, *pos + 16));
            lemma_pow256_values();
        }
        *pos = *pos + 16;
        let u: u128 = v as u128;
        Ok(u as i128)
    }
}

impl RoundTrip for i128 {
    proof fn lemma_unversioned_roundtrip(v: i128, rest: Seq<u8>, depth: u32) {
        lemma_pow256_values();
        let u = v as u128;
        lemma_le_roundtrip(u as nat, 16);
        let s = le_bytes(u as nat, 16) + rest;
        assert(s.take(16) =~= le_bytes(u as nat, 16));
        assert((u as i128) == v) by (bit_vector)
            requires u == v as u128;
    }

    proof fn lemma_unversioned_size(v: i128) {
        lemma_pow256_values();
        lemma_le_roundtrip((v as u128) as nat, 16);
    }
}

impl Versioned for bool {
    open spec fn obeys_codec_spec() -> bool {
        true
    }

    open spec fn spec_version() -> Option<Version> {
        None
    }

    open spec fn spec_network_specific() -> bool {
        false
    }

    open spec fn spec_limit_recursion() -> bool {
        false
    }

    fn version() -> (r: Option<Version>) {
        None
    }

    fn network_specific() -> (r: bool) {
        false
    }

    fn limit_recursion() -> (r: bool) {
        false
    }
}

impl Serializable for bool {
    open spec fn spec_serializable(v: bool) -> bool {
        true
    }

    open spec fn spec_unversioned(v: bool) -> Seq<u8> {
        seq![if v { 1u8 } else { 0u8 }]
    }

    open spec fn spec_unversioned_size(v: bool) -> nat {
        1
    }

    fn unversioned_serialize(value: &bool, out: &mut Vec<u8>) -> (r: Result<(), CodecError>) {
        out.push(if *value { 1u8 } else { 0u8 });
        Ok(())
    }

    fn unversioned_serialized_size(value: &bool) -> (n: usize) {
        1
    }
}

impl Deserializable for bool {
    /// A single byte: 0 is `false`, 1 is `true`, anything else is invalid.
    open spec fn spec_versioned_deserialize(data: Seq<u8>, version: Option<Version>, depth: u32)
        -> Option<(bool, nat)> {
        if data.len() < 1 || data[0] > 1 {
            None
        } else {
            Some((data[0] == 1, 1))
        }
    }

    open spec fn spec_decodable(v: bool, depth: u32) -> bool {
        true
    }

    fn versioned_deserialize(
        data: &[u8],
        pos: &mut usize,
        version: Option<Version>,
        depth: u32,
    ) -> (r: Result<bool, CodecError>) {
        if data.len() - *pos < 1 {
            return Err(CodecError::UnexpectedEndOfInput);
        }
        let b = data[*pos];
        if b > 1 {
            return Err(CodecError::InvalidData);
        }
        *pos = *pos + 1;
        Ok(b == 1)
    }
}

impl RoundTrip for bool {
    proof fn lemma_unversioned_roundtrip(v: bool, rest: Seq<u8>, depth: u32) {
    }

    proof fn lemma_unversioned_size(v: bool) {
    }
}

impl Versioned for () {
    open spec fn obeys_codec_spec() -> bool {
        true
    }

    open spec fn spec_version() -> Option<Version> {
        None
    }

    open spec fn spec_network_specific() -> bool {
        false
    }

    open spec fn spec_limit_recursion() -> bool {
        false
    }

    fn version() -> (r: Option<Version>) {
        None
    }

    fn network_specific() -> (r: bool) {
        false
    }

    fn limit_recursion() -> (r: bool) {
        false
    }
}

impl Serializable for () {
    open spec fn spec_serializable(v: ()) -> bool {
        true
    }

    open spec fn spec_unversioned(v: ()) -> Seq<u8> {
        Seq::<u8>::empty()
    }

    open spec fn spec_unversioned_size(v: ()) -> nat {
        0
    }

    fn unversioned_serialize(value: &(), out: &mut Vec<u8>) -> (r: Result<(), CodecError>) {
        assert(out@ =~= out@ + Seq::<u8>::empty());
        Ok(())
    }

    fn unversioned_serialized_size(value: &()) -> (n: usize) {
        0
    }
}

impl Deserializable for () {
    open spec fn spec_versioned_deserialize(data: Seq<u8>, version: Option<Version>, depth: u32)
        -> Option<((), nat)> {
        Some(((), 0))
    }

    open spec fn spec_decodable(v: (), depth: u32) -> bool {
        true
    }

    fn versioned_deserialize(
        data: &[u8],
        pos: &mut usize,
        version: Option<Version>,
        depth: u32,
    ) -> (r: Result<(), CodecError>) {
        Ok(())
    }
}

impl RoundTrip for () {
    proof fn lemma_unversioned_roundtrip(v: (), rest: Seq<u8>, depth: u32) {
    }

    proof fn lemma_unversioned_size(v: ()) {
    }
}

} // verus!

//! Tuples of one and of four to seven components: each component in turn, versions included.
use vstd::prelude::*;
use crate::codec::{
    item_bytes, item_decodable, item_deserialize, item_size, lemma_item_roundtrip, lemma_item_size, Deserializable,
    RoundTrip, Serializable,
};
use crate::versioned::{CodecError, Version, Versioned};

verus! {

impl<A: Versioned> Versioned for (A,) {
    open spec fn obeys_codec_spec() -> bool {
        A::obeys_codec_spec()
    }

    open spec fn spec_version() -> Option<Version> {
        None
    }

    open spec fn spec_network_specific() -> bool {
        A::spec_network_specific()
    }

    open spec fn spec_limit_recursion() -> bool {
        false
    }

    fn version() -> (r: Option<Version>) {
        None
    }

    fn network_specific() -> (r: bool) {
        A::network_specific()
    }

    fn limit_recursion() -> (r: bool) {
        false
    }
}

impl<A: Serializable> Serializable for (A,) {
    open spec fn spec_serializable(v: (A::V,)) -> bool {
        A::spec_serializable(v.0)
    }

    /// Each component in turn.
    open spec fn spec_unversioned(v: (A::V,)) -> Seq<u8> {
        item_bytes::<A>(v.0)
    }

    open spec fn spec_unversioned_size(v: (A::V,)) -> nat {
        item_size::<A>(v.0)
    }

    fn unversioned_serialize(value: &(A,), out: &mut Vec<u8>) -> (r: Result<(), CodecError>) {
        let ghost start = out@;
        A::serialize(&value.0, out)?;
        assert(out@ =~= start + item_bytes::<A>(value.0.deep_view()));
        Ok(())
    }

    fn unversioned_serialized_size(value: &(A,)) -> (n: usize) {
        A::serialized_size(&value.0)
    }
}

impl<A: Deserializable> Deserializable for (A,) {
    /// Each component in turn.
    open spec fn spec_versioned_deserialize(data: Seq<u8>, version: Option<Version>, depth: u32) -> Option<((A::V,), nat)> {
        match item_deserialize::<A>(data, depth) { None => None, Some((x0, k0)) => Some(((x0,), k0)) }
    }

    open spec fn spec_decodable(v: (A::V,), depth: u32) -> bool {
        item_decodable::<A>(v.0, depth)
    }

    #[verifier::rlimit(100)]
    #[verifier::spinoff_prover]
    fn versioned_deserialize(data: &[u8], pos: &mut usize, version: Option<Version>, depth: u32) -> (r: Result<(A,), CodecError>) {
        let ghost start = *pos;
        let x0 = A::deserialize(data, pos, depth)?;
        Ok((x0,))
    }
}

impl<A: RoundTrip> RoundTrip for (A,) {
    #[verifier::rlimit(100)]
    #[verifier::spinoff_prover]
    proof fn lemma_unversioned_roundtrip(v: (A::V,), rest: Seq<u8>, depth: u32) {
        let b0 = item_bytes::<A>(v.0);
        lemma_item_roundtrip::<A>(v.0, rest, depth);
        let data = b0 + rest;
        assert(data =~= b0 + (rest));
    }

    proof fn lemma_unversioned_size(v: (A::V,)) {
        lemma_item_size::<A>(v.0);
    }
}

impl<A: Versioned, B: Versioned, C: Versioned, D: Versioned> Versioned for (A, B, C, D) {
    open spec fn obeys_codec_spec() -> bool {
        A::obeys_codec_spec() && B::obeys_codec_spec() && C::obeys_codec_spec() && D::obeys_codec_spec()
    }

    open spec fn spec_version() -> Option<Version> {
        None
    }

    open spec fn spec_network_specific() -> bool {
        A::spec_network_specific() || B::spec_network_specific() || C::spec_network_specific() || D::spec_network_specific()
    }

    open spec fn spec_limit_recursion() -> bool {
        false
    }

    fn version() -> (r: Option<Version>) {
        None
    }

    fn network_specific() -> (r: bool) {
        A::network_specific() || B::network_specific() || C::network_specific() || D::network_specific()
    }

    fn limit_recursion() -> (r: bool) {
        false
    }
}

impl<A: Serializable, B: Serializable, C: Serializable, D: Serializable> Serializable for (A, B, C, D) {
    open spec fn spec_serializable(v: (A::V, B::V, C::V, D::V)) -> bool {
        A::spec_serializable(v.0) && B::spec_serializable(v.1) && C::spec_serializable(v.2) && D::spec_serializable(v.3)
    }

    /// Each component in turn.
    open spec fn spec_unversioned(v: (A::V, B::V, C::V, D::V)) -> Seq<u8> {
        item_bytes::<A>(v.0) + item_bytes::<B>(v.1) + item_bytes::<C>(v.2) + item_bytes::<D>(v.3)
    }

    open spec fn spec_unversioned_size(v: (A::V, B::V, C::V, D::V)) -> nat {
        item_size::<A>(v.0) + item_size::<B>(v.1) + item_size::<C>(v.2) + item_size::<D>(v.3)
    }

    fn unversioned_serialize(value: &(A, B, C, D), out: &mut Vec<u8>) -> (r: Result<(), CodecError>) {
        let ghost start = out@;
        A::serialize(&value.0, out)?;
        assert(out@ =~= start + item_bytes::<A>(value.0.deep_view()));
        B::serialize(&value.1, out)?;
        assert(out@ =~= start + item_bytes::<A>(value.0.deep_view()) + item_bytes::<B>(value.1.deep_view()));
        C::serialize(&value.2, out)?;
        assert(out@ =~= start + item_bytes::<A>(value.0.deep_view()) + item_bytes::<B>(value.1.deep_view()) + item_bytes::<C>(value.2.deep_view()));
        D::serialize(&value.3, out)?;
        assert(out@ =~= start + item_bytes::<A>(value.0.deep_view()) + item_bytes::<B>(value.1.deep_view()) + item_bytes::<C>(value.2.deep_view()) + item_bytes::<D>(value.3.deep_view()));
        Ok(())
    }

    fn unversioned_serialized_size(value: &(A, B, C, D)) -> (n: usize) {
        A::serialized_size(&value.0) + B::serialized_size(&value.1) + C::serialized_size(&value.2) + D::serialized_size(&value.3)
    }
}

impl<A: Deserializable, B: Deserializable, C: Deserializable, D: Deserializable> Deserializable for (A, B, C, D) {
    /// Each component in turn.
    open spec fn spec_versioned_deserialize(data: Seq<u8>, version: Option<Version>, depth: u32) -> Option<((A::V, B::V, C::V, D::V), nat)> {
        match item_deserialize::<A>(data, depth) { None => None, Some((x0, k0)) => match item_deserialize::<B>(data.skip((k0) as int), depth) { None => None, Some((x1, k1)) => match item_deserialize::<C>(data.skip((k0 + k1) as int), depth) { None => None, Some((x2, k2)) => match item_deserialize::<D>(data.skip((k0 + k1 + k2) as int), depth) { None => None, Some((x3, k3)) => Some(((x0, x1, x2, x3), k0 + k1 + k2 + k3)) } } } }
    }

    open spec fn spec_decodable(v: (A::V, B::V, C::V, D::V), depth: u32) -> bool {
        item_decodable::<A>(v.0, depth) && item_decodable::<B>(v.1, depth) && item_decodable::<C>(v.2, depth) && item_decodable::<D>(v.3, depth)
    }

    #[verifier::rlimit(100)]
    #[verifier::spinoff_prover]
    fn versioned_deserialize(data: &[u8], pos: &mut usize, version: Option<Version>, depth: u32) -> (r: Result<(A, B, C, D), CodecError>) {
        let ghost start = *pos;
        let x0 = A::deserialize(data, pos, depth)?;
        let ghost p0 = *pos;
        assert(data@.skip(p0 as int) =~= data@.skip(start as int).skip(p0 - start));
        let x1 = B::deserialize(data, pos, depth)?;
        let ghost p1 = *pos;
        assert(data@.skip(p1 as int) =~= data@.skip(start as int).skip(p1 - start));
        let x2 = C::deserialize(data, pos, depth)?;
        let ghost p2 = *pos;
        assert(data@.skip(p2 as int) =~= data@.skip(start as int).skip(p2 - start));
        let x3 = D::deserialize(data, pos, depth)?;
        Ok((x0, x1, x2, x3))
    }
}

impl<A: RoundTrip, B: RoundTrip, C: RoundTrip, D: RoundTrip> RoundTrip for (A, B, C, D) {
    #[verifier::rlimit(100)]
    #[verifier::spinoff_prover]
    proof fn lemma_unversioned_roundtrip(v: (A::V, B::V, C::V, D::V), rest: Seq<u8>, depth: u32) {
        let b0 = item_bytes::<A>(v.0);
        let b1 = item_bytes::<B>(v.1);
        let b2 = item_bytes::<C>(v.2);
        let b3 = item_bytes::<D>(v.3);
        lemma_item_roundtrip::<A>(v.0, b1 + b2 + b3 + rest, depth);
        lemma_item_roundtrip::<B>(v.1, b2 + b3 + rest, depth);
        lemma_item_roundtrip::<C>(v.2, b3 + rest, depth);
        lemma_item_roundtrip::<D>(v.3, rest, depth);
        let data = b0 + b1 + b2 + b3 + rest;
        assert(data =~= b0 + (b1 + b2 + b3 + rest));
        assert(data.skip((b0.len()) as int) =~= b1 + (b2 + b3 + rest));
        assert(data.skip((b0.len() + b1.len()) as int) =~= b2 + (b3 + rest));
        assert(data.skip((b0.len() + b1.len() + b2.len()) as int) =~= b3 + (rest));
    }

    proof fn lemma_unversioned_size(v: (A::V, B::V, C::V, D::V)) {
        lemma_item_size::<A>(v.0);
        lemma_item_size::<B>(v.1);
        lemma_item_size::<C>(v.2);
        lemma_item_size::<D>(v.3);
    }
}

impl<A: Versioned, B: Versioned, C: Versioned, D: Versioned, E: Versioned> Versioned for (A, B, C, D, E) {
    open spec fn obeys_codec_spec() -> bool {
        A::obeys_codec_spec() && B::obeys_codec_spec() && C::obeys_codec_spec() && D::obeys_codec_spec() && E::obeys_codec_spec()
    }

    open spec fn spec_version() -> Option<Version> {
        None
    }

    open spec fn spec_network_specific() -> bool {
        A::spec_network_specific() || B::spec_network_specific() || C::spec_network_specific() || D::spec_network_specific() || E::spec_network_specific()
    }

    open spec fn spec_limit_recursion() -> bool {
        false
    }

    fn version() -> (r: Option<Version>) {
        None
    }

    fn network_specific() -> (r: bool) {
        A::network_specific() || B::network_specific() || C::network_specific() || D::network_specific() || E::network_specific()
    }

    fn limit_recursion() -> (r: bool) {
        false
    }
}

impl<A: Serializable, B: Serializable, C: Serializable, D: Serializable, E: Serializable> Serializable for (A, B, C, D, E) {
    open spec fn spec_serializable(v: (A::V, B::V, C::V, D::V, E::V)) -> bool {
        A::spec_serializable(v.0) && B::spec_serializable(v.1) && C::spec_serializable(v.2) && D::spec_serializable(v.3) && E::spec_serializable(v.4)
    }

    /// Each component in turn.
    open spec fn spec_unversioned(v: (A::V, B::V, C::V, D::V, E::V)) -> Seq<u8> {
        item_bytes::<A>(v.0) + item_bytes::<B>(v.1) + item_bytes::<C>(v.2) + item_bytes::<D>(v.3) + item_bytes::<E>(v.4)
    }

    open spec fn spec_unversioned_size(v: (A::V, B::V, C::V, D::V, E::V)) -> nat {
        item_size::<A>(v.0) + item_size::<B>(v.1) + item_size::<C>(v.2) + item_size::<D>(v.3) + item_size::<E>(v.4)
    }

    fn unversioned_serialize(value: &(A, B, C, D, E), out: &mut Vec<u8>) -> (r: Result<(), CodecError>) {
        let ghost start = out@;
        A::serialize(&value.0, out)?;
        assert(out@ =~= start + item_bytes::<A>(value.0.deep_view()));
        B::serialize(&value.1, out)?;
        assert(out@ =~= start + item_bytes::<A>(value.0.deep_view()) + item_bytes::<B>(value.1.deep_view()));
        C::serialize(&value.2, out)?;
        assert(out@ =~= start + item_bytes::<A>(value.0.deep_view()) + item_bytes::<B>(value.1.deep_view()) + item_bytes::<C>(value.2.deep_view()));
        D::serialize(&value.3, out)?;
        assert(out@ =~= start + item_bytes::<A>(value.0.deep_view()) + item_bytes::<B>(value.1.deep_view()) + item_bytes::<C>(value.2.deep_view()) + item_bytes::<D>(value.3.deep_view()));
        E::serialize(&value.4, out)?;
        assert(out@ =~= start + item_bytes::<A>(value.0.deep_view()) + item_bytes::<B>(value.1.deep_view()) + item_bytes::<C>(value.2.deep_view()) + item_bytes::<D>(value.3.deep_view()) + item_bytes::<E>(value.4.deep_view()));
        Ok(())
    }

    fn unversioned_serialized_size(value: &(A, B, C, D, E)) -> (n: usize) {
        A::serialized_size(&value.0) + B::serialized_size(&value.1) + C::serialized_size(&value.2) + D::serialized_size(&value.3) + E::serialized_size(&value.4)
    }
}

impl<A: Deserializable, B: Deserializable, C: Deserializable, D: Deserializable, E: Deserializable> Deserializable for (A, B, C, D, E) {
    /// Each component in turn.
    open spec fn spec_versioned_deserialize(data: Seq<u8>, version: Option<Version>, depth: u32) -> Option<((A::V, B::V, C::V, D::V, E::V), nat)> {
        match item_deserialize::<A>(data, depth) { None => None, Some((x0, k0)) => match item_deserialize::<B>(data.skip((k0) as int), depth) { None => None, Some((x1, k1)) => match item_deserialize::<C>(data.skip((k0 + k1) as int), depth) { None => None, Some((x2, k2)) => match item_deserialize::<D>(data.skip((k0 + k1 + k2) as int), depth) { None => None, Some((x3, k3)) => match item_deserialize::<E>(data.skip((k0 + k1 + k2 + k3) as int), depth) { None => None, Some((x4, k4)) => Some(((x0, x1, x2, x3, x4), k0 + k1 + k2 + k3 + k4)) } } } } }
    }

    open spec fn spec_decodable(v: (A::V, B::V, C::V, D::V, E::V), depth: u32) -> bool {
        item_decodable::<A>(v.0, depth) && item_decodable::<B>(v.1, depth) && item_decodable::<C>(v.2, depth) && item_decodable::<D>(v.3, depth) && item_decodable::<E>(v.4, depth)
    }

    #[verifier::rlimit(100)]
    #[verifier::spinoff_prover]
    fn versioned_deserialize(data: &[u8], pos: &mut usize, version: Option<Version>, depth: u32) -> (r: Result<(A, B, C, D, E), CodecError>) {
        let ghost start = *pos;
        let x0 = A::deserialize(data, pos, depth)?;
        let ghost p0 = *pos;
        assert(data@.skip(p0 as int) =~= data@.skip(start as int).skip(p0 - start));
        let x1 = B::deserialize(data, pos, depth)?;
        let ghost p1 = *pos;
        assert(data@.skip(p1 as int) =~= data@.skip(start as int).skip(p1 - start));
        let x2 = C::deserialize(data, pos, depth)?;
        let ghost p2 = *pos;
        assert(data@.skip(p2 as int) =~= data@.skip(start as int).skip(p2 - start));
        let x3 = D::deserialize(data, pos, depth)?;
        let ghost p3 = *pos;
        assert(data@.skip(p3 as int) =~= data@.skip(start as int).skip(p3 - start));
        let x4 = E::deserialize(data, pos, depth)?;
        Ok((x0, x1, x2, x3, x4))
    }
}

impl<A: RoundTrip, B: RoundTrip, C: RoundTrip, D: RoundTrip, E: RoundTrip> RoundTrip for (A, B, C, D, E) {
    #[verifier::rlimit(100)]
    #[verifier::spinoff_prover]
    proof fn lemma_unversioned_roundtrip(v: (A::V, B::V, C::V, D::V, E::V), rest: Seq<u8>, depth: u32) {
        let b0 = item_bytes::<A>(v.0);
        let b1 = item_bytes::<B>(v.1);
        let b2 = item_bytes::<C>(v.2);
        let b3 = item_bytes::<D>(v.3);
        let b4 = item_bytes::<E>(v.4);
        lemma_item_roundtrip::<A>(v.0, b1 + b2 + b3 + b4 + rest, depth);
        lemma_item_roundtrip::<B>(v.1, b2 + b3 + b4 + rest, depth);
        lemma_item_roundtrip::<C>(v.2, b3 + b4 + rest, depth);
        lemma_item_roundtrip::<D>(v.3, b4 + rest, depth);
        lemma_item_roundtrip::<E>(v.4, rest, depth);
        let data = b0 + b1 + b2 + b3 + b4 + rest;
        assert(data =~= b0 + (b1 + b2 + b3 + b4 + rest));
        assert(data.skip((b0.len()) as int) =~= b1 + (b2 + b3 + b4 + rest));
        assert(data.skip((b0.len() + b1.len()) as int) =~= b2 + (b3 + b4 + rest));
        assert(data.skip((b0.len() + b1.len() + b2.len()) as int) =~= b3 + (b4 + rest));
        assert(data.skip((b0.len() + b1.len() + b2.len() + b3.len()) as int) =~= b4 + (rest));
    }

    proof fn lemma_unversioned_size(v: (A::V, B::V, C::V, D::V, E::V)) {
        lemma_item_size::<A>(v.0);
        lemma_item_size::<B>(v.1);
        lemma_item_size::<C>(v.2);
        lemma_item_size::<D>(v.3);
        lemma_item_size::<E>(v.4);
    }
}

impl<A: Versioned, B: Versioned, C: Versioned, D: Versioned, E: Versioned, F: Versioned> Versioned for (A, B, C, D, E, F) {
    open spec fn obeys_codec_spec() -> bool {
        A::obeys_codec_spec() && B::obeys_codec_spec() && C::obeys_codec_spec() && D::obeys_codec_spec() && E::obeys_codec_spec() && F::obeys_codec_spec()
    }

    open spec fn spec_version() -> Option<Version> {
        None
    }

    open spec fn spec_network_specific() -> bool {
        A::spec_network_specific() || B::spec_network_specific() || C::spec_network_specific() || D::spec_network_specific() || E::spec_network_specific() || F::spec_network_specific()
    }

    open spec fn spec_limit_recursion() -> bool {
        false
    }

    fn version() -> (r: Option<Version>) {
        None
    }

    fn network_specific() -> (r: bool) {
        A::network_specific() || B::network_specific() || C::network_specific() || D::network_specific() || E::network_specific() || F::network_specific()
    }

    fn limit_recursion() -> (r: bool) {
        false
    }
}

impl<A: Serializable, B: Serializable, C: Serializable, D: Serializable, E: Serializable, F: Serializable> Serializable for (A, B, C, D, E, F) {
    open spec fn spec_serializable(v: (A::V, B::V, C::V, D::V, E::V, F::V)) -> bool {
        A::spec_serializable(v.0) && B::spec_serializable(v.1) && C::spec_serializable(v.2) && D::spec_serializable(v.3) && E::spec_serializable(v.4) && F::spec_serializable(v.5)
    }

    /// Each component in turn.
    open spec fn spec_unversioned(v: (A::V, B::V, C::V, D::V, E::V, F::V)) -> Seq<u8> {
        item_bytes::<A>(v.0) + item_bytes::<B>(v.1) + item_bytes::<C>(v.2) + item_bytes::<D>(v.3) + item_bytes::<E>(v.4) + item_bytes::<F>(v.5)
    }

    open spec fn spec_unversioned_size(v: (A::V, B::V, C::V, D::V, E::V, F::V)) -> nat {
        item_size::<A>(v.0) + item_size::<B>(v.1) + item_size::<C>(v.2) + item_size::<D>(v.3) + item_size::<E>(v.4) + item_size::<F>(v.5)
    }

    fn unversioned_serialize(value: &(A, B, C, D, E, F), out: &mut Vec<u8>) -> (r: Result<(), CodecError>) {
        let ghost start = out@;
        A::serialize(&value.0, out)?;
        assert(out@ =~= start + item_bytes::<A>(value.0.deep_view()));
        B::serialize(&value.1, out)?;
        assert(out@ =~= start + item_bytes::<A>(value.0.deep_view()) + item_bytes::<B>(value.1.deep_view()));
        C::serialize(&value.2, out)?;
        assert(out@ =~= start + item_bytes::<A>(value.0.deep_view()) + item_bytes::<B>(value.1.deep_view()) + item_bytes::<C>(value.2.deep_view()));
        D::serialize(&value.3, out)?;
        assert(out@ =~= start + item_bytes::<A>(value.0.deep_view()) + item_bytes::<B>(value.1.deep_view()) + item_bytes::<C>(value.2.deep_view()) + item_bytes::<D>(value.3.deep_view()));
        E::serialize(&value.4, out)?;
        assert(out@ =~= start + item_bytes::<A>(value.0.deep_view()) + item_bytes::<B>(value.1.deep_view()) + item_bytes::<C>(value.2.deep_view()) + item_bytes::<D>(value.3.deep_view()) + item_bytes::<E>(value.4.deep_view()));
        F::serialize(&value.5, out)?;
        assert(out@ =~= start + item_bytes::<A>(value.0.deep_view()) + item_bytes::<B>(value.1.deep_view()) + item_bytes::<C>(value.2.deep_view()) + item_bytes::<D>(value.3.deep_view()) + item_bytes::<E>(value.4.deep_view()) + item_bytes::<F>(value.5.deep_view()));
        Ok(())
    }

    fn unversioned_serialized_size(value: &(A, B, C, D, E, F)) -> (n: usize) {
        A::serialized_size(&value.0) + B::serialized_size(&value.1) + C::serialized_size(&value.2) + D::serialized_size(&value.3) + E::serialized_size(&value.4) + F::serialized_size(&value.5)
    }
}

impl<A: Deserializable, B: Deserializable, C: Deserializable, D: Deserializable, E: Deserializable, F: Deserializable> Deserializable for (A, B, C, D, E, F) {
    /// Each component in turn.
    open spec fn spec_versioned_deserialize(data: Seq<u8>, version: Option<Version>, depth: u32) -> Option<((A::V, B::V, C::V, D::V, E::V, F::V), nat)> {
        match item_deserialize::<A>(data, depth) { None => None, Some((x0, k0)) => match item_deserialize::<B>(data.skip((k0) as int), depth) { None => None, Some((x1, k1)) => match item_deserialize::<C>(data.skip((k0 + k1) as int), depth) { None => None, Some((x2, k2)) => match item_deserialize::<D>(data.skip((k0 + k1 + k2) as int), depth) { None => None, Some((x3, k3)) => match item_deserialize::<E>(data.skip((k0 + k1 + k2 + k3) as int), depth) { None => None, Some((x4, k4)) => match item_deserialize::<F>(data.skip((k0 + k1 + k2 + k3 + k4) as int), depth) { None => None, Some((x5, k5)) => Some(((x0, x1, x2, x3, x4, x5), k0 + k1 + k2 + k3 + k4 + k5)) } } } } } }
    }

    open spec fn spec_decodable(v: (A::V, B::V, C::V, D::V, E::V, F::V), depth: u32) -> bool {
        item_decodable::<A>(v.0, depth) && item_decodable::<B>(v.1, depth) && item_decodable::<C>(v.2, depth) && item_decodable::<D>(v.3, depth) && item_decodable::<E>(v.4, depth) && item_decodable::<F>(v.5, depth)
    }

    #[verifier::rlimit(100)]
    #[verifier::spinoff_prover]
    fn versioned_deserialize(data: &[u8], pos: &mut usize, version: Option<Version>, depth: u32) -> (r: Result<(A, B, C, D, E, F), CodecError>) {
        let ghost start = *pos;
        let x0 = A::deserialize(data, pos, depth)?;
        let ghost p0 = *pos;
        assert(data@.skip(p0 as int) =~= data@.skip(start as int).skip(p0 - start));
        let x1 = B::deserialize(data, pos, depth)?;
        let ghost p1 = *pos;
        assert(data@.skip(p1 as int) =~= data@.skip(start as int).skip(p1 - start));
        let x2 = C::deserialize(data, pos, depth)?;
        let ghost p2 = *pos;
        assert(data@.skip(p2 as int) =~= data@.skip(start as int).skip(p2 - start));
        let x3 = D::deserialize(data, pos, depth)?;
        let ghost p3 = *pos;
        assert(data@.skip(p3 as int) =~= data@.skip(start as int).skip(p3 - start));
        let x4 = E::deserialize(data, pos, depth)?;
        let ghost p4 = *pos;
        assert(data@.skip(p4 as int) =~= data@.skip(start as int).skip(p4 - start));
        let x5 = F::deserialize(data, pos, depth)?;
        Ok((x0, x1, x2, x3, x4, x5))
    }
}

impl<A: RoundTrip, B: RoundTrip, C: RoundTrip, D: RoundTrip, E: RoundTrip, F: RoundTrip> RoundTrip for (A, B, C, D, E, F) {
    #[verifier::rlimit(100)]
    #[verifier::spinoff_prover]
    proof fn lemma_unversioned_roundtrip(v: (A::V, B::V, C::V, D::V, E::V, F::V), rest: Seq<u8>, depth: u32) {
        let b0 = item_bytes::<A>(v.0);
        let b1 = item_bytes::<B>(v.1);
        let b2 = item_bytes::<C>(v.2);
        let b3 = item_bytes::<D>(v.3);
        let b4 = item_bytes::<E>(v.4);
        let b5 = item_bytes::<F>(v.5);
        lemma_item_roundtrip::<A>(v.0, b1 + b2 + b3 + b4 + b5 + rest, depth);
        lemma_item_roundtrip::<B>(v.1, b2 + b3 + b4 + b5 + rest, depth);
        lemma_item_roundtrip::<C>(v.2, b3 + b4 + b5 + rest, depth);
        lemma_item_roundtrip::<D>(v.3, b4 + b5 + rest, depth);
        lemma_item_roundtrip::<E>(v.4, b5 + rest, depth);
        lemma_item_roundtrip::<F>(v.5, rest, depth);
        let data = b0 + b1 + b2 + b3 + b4 + b5 + rest;
        assert(data =~= b0 + (b1 + b2 + b3 + b4 + b5 + rest));
        assert(data.skip((b0.len()) as int) =~= b1 + (b2 + b3 + b4 + b5 + rest));
        assert(data.skip((b0.len() + b1.len()) as int) =~= b2 + (b3 + b4 + b5 + rest));
        assert(data.skip((b0.len() + b1.len() + b2.len()) as int) =~= b3 + (b4 + b5 + rest));
        assert(data.skip((b0.len() + b1.len() + b2.len() + b3.len()) as int) =~= b4 + (b5 + rest));
        assert(data.skip((b0.len() + b1.len() + b2.len() + b3.len() + b4.len()) as int) =~= b5 + (rest));
    }

    proof fn lemma_unversioned_size(v: (A::V, B::V, C::V, D::V, E::V, F::V)) {
        lemma_item_size::<A>(v.0);
        lemma_item_size::<B>(v.1);
        lemma_item_size::<C>(v.2);
        lemma_item_size::<D>(v.3);
        lemma_item_size::<E>(v.4);
        lemma_item_size::<F>(v.5);
    }
}

impl<A: Versioned, B: Versioned, C: Versioned, D: Versioned, E: Versioned, F: Versioned, G: Versioned> Versioned for (A, B, C, D, E, F, G) {
    open spec fn obeys_codec_spec() -> bool {
        A::obeys_codec_spec() && B::obeys_codec_spec() && C::obeys_codec_spec() && D::obeys_codec_spec() && E::obeys_codec_spec() && F::obeys_codec_spec() && G::obeys_codec_spec()
    }

    open spec fn spec_version() -> Option<Version> {
        None
    }

    open spec fn spec_network_specific() -> bool {
        A::spec_network_specific() || B::spec_network_specific() || C::spec_network_specific() || D::spec_network_specific() || E::spec_network_specific() || F::spec_network_specific() || G::spec_network_specific()
    }

    open spec fn spec_limit_recursion() -> bool {
        false
    }

    fn version() -> (r: Option<Version>) {
        None
    }

    fn network_specific() -> (r: bool) {
        A::network_specific() || B::network_specific() || C::network_specific() || D::network_specific() || E::network_specific() || F::network_specific() || G::network_specific()
    }

    fn limit_recursion() -> (r: bool) {
        false
    }
}

impl<A: Serializable, B: Serializable, C: Serializable, D: Serializable, E: Serializable, F: Serializable, G: Serializable> Serializable for (A, B, C, D, E, F, G) {
    open spec fn spec_serializable(v: (A::V, B::V, C::V, D::V, E::V, F::V, G::V)) -> bool {
        A::spec_serializable(v.0) && B::spec_serializable(v.1) && C::spec_serializable(v.2) && D::spec_serializable(v.3) && E::spec_serializable(v.4) && F::spec_serializable(v.5) && G::spec_serializable(v.6)
    }

    /// Each component in turn.
    open spec fn spec_unversioned(v: (A::V, B::V, C::V, D::V, E::V, F::V, G::V)) -> Seq<u8> {
        item_bytes::<A>(v.0) + item_bytes::<B>(v.1) + item_bytes::<C>(v.2) + item_bytes::<D>(v.3) + item_bytes::<E>(v.4) + item_bytes::<F>(v.5) + item_bytes::<G>(v.6)
    }

    open spec fn spec_unversioned_size(v: (A::V, B::V, C::V, D::V, E::V, F::V, G::V)) -> nat {
        item_size::<A>(v.0) + item_size::<B>(v.1) + item_size::<C>(v.2) + item_size::<D>(v.3) + item_size::<E>(v.4) + item_size::<F>(v.5) + item_size::<G>(v.6)
    }

    fn unversioned_serialize(value: &(A, B, C, D, E, F, G), out: &mut Vec<u8>) -> (r: Result<(), CodecError>) {
        let ghost start = out@;
        A::serialize(&value.0, out)?;
        assert(out@ =~= start + item_bytes::<A>(value.0.deep_view()));
        B::serialize(&value.1, out)?;
        assert(out@ =~= start + item_bytes::<A>(value.0.deep_view()) + item_bytes::<B>(value.1.deep_view()));
        C::serialize(&value.2, out)?;
        assert(out@ =~= start + item_bytes::<A>(value.0.deep_view()) + item_bytes::<B>(value.1.deep_view()) + item_bytes::<C>(value.2.deep_view()));
        D::serialize(&value.3, out)?;
        assert(out@ =~= start + item_bytes::<A>(value.0.deep_view()) + item_bytes::<B>(value.1.deep_view()) + item_bytes::<C>(value.2.deep_view()) + item_bytes::<D>(value.3.deep_view()));
        E::serialize(&value.4, out)?;
        assert(out@ =~= start + item_bytes::<A>(value.0.deep_view()) + item_bytes::<B>(value.1.deep_view()) + item_bytes::<C>(value.2.deep_view()) + item_bytes::<D>(value.3.deep_view()) + item_bytes::<E>(value.4.deep_view()));
        F::serialize(&value.5, out)?;
        assert(out@ =~= start + item_bytes::<A>(value.0.deep_view()) + item_bytes::<B>(value.1.deep_view()) + item_bytes::<C>(value.2.deep_view()) + item_bytes::<D>(value.3.deep_view()) + item_bytes::<E>(value.4.deep_view()) + item_bytes::<F>(value.5.deep_view()));
        G::serialize(&value.6, out)?;
        assert(out@ =~= start + item_bytes::<A>(value.0.deep_view()) + item_bytes::<B>(value.1.deep_view()) + item_bytes::<C>(value.2.deep_view()) + item_bytes::<D>(value.3.deep_view()) + item_bytes::<E>(value.4.deep_view()) + item_bytes::<F>(value.5.deep_view()) + item_bytes::<G>(value.6.deep_view()));
        Ok(())
    }

    fn unversioned_serialized_size(value: &(A, B, C, D, E, F, G)) -> (n: usize) {
        A::serialized_size(&value.0) + B::serialized_size(&value.1) + C::serialized_size(&value.2) + D::serialized_size(&value.3) + E::serialized_size(&value.4) + F::serialized_size(&value.5) + G::serialized_size(&value.6)
    }
}

impl<A: Deserializable, B: Deserializable, C: Deserializable, D: Deserializable, E: Deserializable, F: Deserializable, G: Deserializable> Deserializable for (A, B, C, D, E, F, G) {
    /// Each component in turn.
    open spec fn spec_versioned_deserialize(data: Seq<u8>, version: Option<Version>, depth: u32) -> Option<((A::V, B::V, C::V, D::V, E::V, F::V, G::V), nat)> {
        match item_deserialize::<A>(data, depth) { None => None, Some((x0, k0)) => match item_deserialize::<B>(data.skip((k0) as int), depth) { None => None, Some((x1, k1)) => match item_deserialize::<C>(data.skip((k0 + k1) as int), depth) { None => None, Some((x2, k2)) => match item_deserialize::<D>(data.skip((k0 + k1 + k2) as int), depth) { None => None, Some((x3, k3)) => match item_deserialize::<E>(data.skip((k0 + k1 + k2 + k3) as int), depth) { None => None, Some((x4, k4)) => match item_deserialize::<F>(data.skip((k0 + k1 + k2 + k3 + k4) as int), depth) { None => None, Some((x5, k5)) => match item_deserialize::<G>(data.skip((k0 + k1 + k2 + k3 + k4 + k5) as int), depth) { None => None, Some((x6, k6)) => Some(((x0, x1, x2, x3, x4, x5, x6), k0 + k1 + k2 + k3 + k4 + k5 + k6)) } } } } } } }
    }

    open spec fn spec_decodable(v: (A::V, B::V, C::V, D::V, E::V, F::V, G::V), depth: u32) -> bool {
        item_decodable::<A>(v.0, depth) && item_decodable::<B>(v.1, depth) && item_decodable::<C>(v.2, depth) && item_decodable::<D>(v.3, depth) && item_decodable::<E>(v.4, depth) && item_decodable::<F>(v.5, depth) && item_decodable::<G>(v.6, depth)
    }

    #[verifier::rlimit(100)]
    #[verifier::spinoff_prover]
    fn versioned_deserialize(data: &[u8], pos: &mut usize, version: Option<Version>, depth: u32) -> (r: Result<(A, B, C, D, E, F, G), CodecError>) {
        let ghost start = *pos;
        let x0 = A::deserialize(data, pos, depth)?;
        let ghost p0 = *pos;
        assert(data@.skip(p0 as int) =~= data@.skip(start as int).skip(p0 - start));
        let x1 = B::deserialize(data, pos, depth)?;
        let ghost p1 = *pos;
        assert(data@.skip(p1 as int) =~= data@.skip(start as int).skip(p1 - start));
        let x2 = C::deserialize(data, pos, depth)?;
        let ghost p2 = *pos;
        assert(data@.skip(p2 as int) =~= data@.skip(start as int).skip(p2 - start));
        let x3 = D::deserialize(data, pos, depth)?;
        let ghost p3 = *pos;
        assert(data@.skip(p3 as int) =~= data@.skip(start as int).skip(p3 - start));
        let x4 = E::deserialize(data, pos, depth)?;
        let ghost p4 = *pos;
        assert(data@.skip(p4 as int) =~= data@.skip(start as int).skip(p4 - start));
        let x5 = F::deserialize(data, pos, depth)?;
        let ghost p5 = *pos;
        assert(data@.skip(p5 as int) =~= data@.skip(start as int).skip(p5 - start));
        let x6 = G::deserialize(data, pos, depth)?;
        Ok((x0, x1, x2, x3, x4, x5, x6))
    }
}

impl<A: RoundTrip, B: RoundTrip, C: RoundTrip, D: RoundTrip, E: RoundTrip, F: RoundTrip, G: RoundTrip> RoundTrip for (A, B, C, D, E, F, G) {
    #[verifier::rlimit(100)]
    #[verifier::spinoff_prover]
    proof fn lemma_unversioned_roundtrip(v: (A::V, B::V, C::V, D::V, E::V, F::V, G::V), rest: Seq<u8>, depth: u32) {
        let b0 = item_bytes::<A>(v.0);
        let b1 = item_bytes::<B>(v.1);
        let b2 = item_bytes::<C>(v.2);
        let b3 = item_bytes::<D>(v.3);
        let b4 = item_bytes::<E>(v.4);
        let b5 = item_bytes::<F>(v.5);
        let b6 = item_bytes::<G>(v.6);
        lemma_item_roundtrip::<A>(v.0, b1 + b2 + b3 + b4 + b5 + b6 + rest, depth);
        lemma_item_roundtrip::<B>(v.1, b2 + b3 + b4 + b5 + b6 + rest, depth);
        lemma_item_roundtrip::<C>(v.2, b3 + b4 + b5 + b6 + rest, depth);
        lemma_item_roundtrip::<D>(v.3, b4 + b5 + b6 + rest, depth);
        lemma_item_roundtrip::<E>(v.4, b5 + b6 + rest, depth);
        lemma_item_roundtrip::<F>(v.5, b6 + rest, depth);
        lemma_item_roundtrip::<G>(v.6, rest, depth);
        let data = b0 + b1 + b2 + b3 + b4 + b5 + b6 + rest;
        assert(data =~= b0 + (b1 + b2 + b3 + b4 + b5 + b6 + rest));
        assert(data.skip((b0.len()) as int) =~= b1 + (b2 + b3 + b4 + b5 + b6 + rest));
        assert(data.skip((b0.len() + b1.len()) as int) =~= b2 + (b3 + b4 + b5 + b6 + rest));
        assert(data.skip((b0.len() + b1.len() + b2.len()) as int) =~= b3 + (b4 + b5 + b6 + rest));
        assert(data.skip((b0.len() + b1.len() + b2.len() + b3.len()) as int) =~= b4 + (b5 + b6 + rest));
        assert(data.skip((b0.len() + b1.len() + b2.len() + b3.len() + b4.len()) as int) =~= b5 + (b6 + rest));
        assert(data.skip((b0.len() + b1.len() + b2.len() + b3.len() + b4.len() + b5.len()) as int) =~= b6 + (rest));
    }

    proof fn lemma_unversioned_size(v: (A::V, B::V, C::V, D::V, E::V, F::V, G::V)) {
        lemma_item_size::<A>(v.0);
        lemma_item_size::<B>(v.1);
        lemma_item_size::<C>(v.2);
        lemma_item_size::<D>(v.3);
        lemma_item_size::<E>(v.4);
        lemma_item_size::<F>(v.5);
        lemma_item_size::<G>(v.6);
    }
}

} // verus!

//! Top-level encoding and decoding, with network identifiers, and the laws tying them together.
use vstd::prelude::*;
use crate::codec::{
    item_bytes, item_decodable, item_deserialize, item_size, lemma_item_roundtrip, lemma_item_size,
    Deserializable, RoundTrip, Serializable,
};
use crate::versioned::{
    network_byte, network_of_byte, version_bytes, CodecError, NetworkId, Versioned,
};

verus! {

/// The network prefix of a top-level encoding: the network's byte for
/// network-specific types, nothing otherwise.
pub open spec fn network_prefix<T: Versioned>(network: NetworkId) -> Seq<u8> {
    if T::spec_network_specific() {
        seq![network_byte(network)]
    } else {
        Seq::<u8>::empty()
    }
}

/// The bytes `serialize` writes for `v` on `network`.
pub open spec fn encoding<T: Serializable>(v: T::V, network: NetworkId) -> Seq<u8> {
    network_prefix::<T>(network) + item_bytes::<T>(v)
}

/// What `deserialize` reads from `data` on `network`: the value, if the network
/// prefix matches, the value reads, and no bytes are left over.
pub open spec fn spec_deserialize<T: Deserializable>(data: Seq<u8>, network: NetworkId) -> Option<T::V> {
    let k: nat = if T::spec_network_specific() { 1 } else { 0 };
    if data.len() < k {
        None
    } else if T::spec_network_specific() && network_of_byte(data[0]) != Some(network) {
        None
    } else {
        match item_deserialize::<T>(data.skip(k as int), 0) {
            Some((v, n)) => if k + n == data.len() {
                Some(v)
            } else {
                None
            },
            None => None,
        }
    }
}

/// Writes `value` to `out`, prefixed by `network_id` when the type is network-specific.
pub fn serialize<T: Serializable>(value: &T, out: &mut Vec<u8>, network_id: NetworkId) -> (r: Result<(), CodecError>)
    requires
        T::obeys_codec_spec(),
    ensures
        (r is Ok) == T::spec_serializable(value.deep_view()),
        r is Ok ==> final(out)@ == old(out)@ + encoding::<T>(value.deep_view(), network_id),
{
    let ghost start = out@;
    if T::network_specific() {
        let _ = <NetworkId as Serializable>::serialize(&network_id, out);
    }
    assert(out@ =~= start + network_prefix::<T>(network_id));
    let r = T::serialize(value, out);
    assert(r is Ok ==> out@ =~= start + encoding::<T>(value.deep_view(), network_id));
    r
}

/// The number of bytes `serialize` writes for `value`.
pub fn serialized_size<T: Serializable>(value: &T) -> (n: usize)
    requires
        T::obeys_codec_spec(),
        item_size::<T>(value.deep_view()) + 1 <= usize::MAX,
    ensures
        n == item_size::<T>(value.deep_view()) + if T::spec_network_specific() { 1nat } else { 0 },
{
    let s = T::serialized_size(value);
    if T::network_specific() {
        s + 1
    } else {
        s
    }
}

/// Reads a value of type `T` that makes up all of `data`, checking its network prefix.
pub fn deserialize<T: Deserializable>(data: &[u8], network_id: NetworkId) -> (r: Result<T, CodecError>)
    requires
        T::obeys_codec_spec(),
    ensures
        match spec_deserialize::<T>(data@, network_id) {
            Some(v) => r matches Ok(x) && x.deep_view() == v,
            None => r is Err,
        },
        T::spec_network_specific() && data@.len() >= 1 && network_of_byte(data@[0]) is Some
            && network_of_byte(data@[0]) != Some(network_id) ==> r == Err::<T, CodecError>(
            CodecError::NetworkMismatch,
        ),
{
    let mut pos: usize = 0;
    assert(data@.skip(0) =~= data@);
    if T::network_specific() {
        let received = <NetworkId as Deserializable>::deserialize(data, &mut pos, 0)?;
        if received != network_id {
            return Err(CodecError::NetworkMismatch);
        }
    }
    let ghost k = pos;
    let value = T::deserialize(data, &mut pos, 0)?;
    if pos == data.len() {
        Ok(value)
    } else {
        Err(CodecError::BytesRemaining)
    }
}

/// Reading back a top-level encoding on the same network gives the value written.
pub proof fn law_roundtrip<T: RoundTrip>(v: T::V, network: NetworkId)
    requires
        T::spec_serializable(v),
        item_decodable::<T>(v, 0),
    ensures
        spec_deserialize::<T>(encoding::<T>(v, network), network) == Some(v),
{
    let data = encoding::<T>(v, network);
    let k = network_prefix::<T>(network).len();
    lemma_item_roundtrip::<T>(v, Seq::<u8>::empty(), 0);
    assert(data.skip(k as int) =~= item_bytes::<T>(v) + Seq::<u8>::empty());
}

/// The reported size of a value is the length of its top-level encoding.
pub proof fn law_serialized_size<T: RoundTrip>(v: T::V, network: NetworkId)
    requires
        T::spec_serializable(v),
    ensures
        item_size::<T>(v) + (if T::spec_network_specific() { 1nat } else { 0 }) == encoding::<T>(
            v,
            network,
        ).len(),
{
    lemma_item_size::<T>(v);
}

/// A network-specific encoding is refused on any other network.
pub proof fn law_network_mismatch<T: Serializable + Deserializable>(v: T::V, written: NetworkId, expected: NetworkId)
    requires
        T::spec_network_specific(),
        written != expected,
    ensures
        spec_deserialize::<T>(encoding::<T>(v, written), expected) is None,
{
    let data = encoding::<T>(v, written);
    assert(data[0] == network_byte(written));
}

/// Bytes after a complete encoding make the whole input unreadable.
pub proof fn law_trailing_bytes<T: RoundTrip>(v: T::V, network: NetworkId, extra: Seq<u8>)
    requires
        T::spec_serializable(v),
        item_decodable::<T>(v, 0),
        extra.len() > 0,
    ensures
        spec_deserialize::<T>(encoding::<T>(v, network) + extra, network) is None,
{
    let data = encoding::<T>(v, network) + extra;
    let k = network_prefix::<T>(network).len();
    lemma_item_roundtrip::<T>(v, extra, 0);
    assert(data.skip(k as int) =~= item_bytes::<T>(v) + extra);
    if T::spec_network_specific() {
        assert(data[0] == network_byte(network));
    }
}

} // verus!

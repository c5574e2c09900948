//! Encodings of `Option`, pairs, triples, references and vectors.
use vstd::prelude::*;
use crate::bytes::{le_bytes, lemma_pow256_values};
use crate::codec::{
    item_bytes, item_decodable, item_deserialize, item_size, lemma_item_roundtrip, lemma_item_size,
    next_depth, Deserializable, RoundTrip, Serializable,
};
use crate::versioned::{version_bytes, CodecError, Version, Versioned, RECURSION_LIMIT};

verus! {

impl<T: Versioned> Versioned for Option<T> {
    open spec fn obeys_codec_spec() -> bool {
        T::obeys_codec_spec()
    }

    open spec fn spec_version() -> Option<Version> {
        None
    }

    open spec fn spec_network_specific() -> bool {
        T::spec_network_specific()
    }

    open spec fn spec_limit_recursion() -> bool {
        false
    }

    fn version() -> (r: Option<Version>) {
        None
    }

    fn network_specific() -> (r: bool) {
        T::network_specific()
    }

    fn limit_recursion() -> (r: bool) {
        false
    }
}

impl<T: Serializable> Serializable for Option<T> {
    open spec fn spec_serializable(v: Option<T::V>) -> bool {
        match v {
            Some(x) => T::spec_serializable(x),
            None => true,
        }
    }

    /// A `1` byte then the value, or a single `0` byte.
    open spec fn spec_unversioned(v: Option<T::V>) -> Seq<u8> {
        match v {
            Some(x) => seq![1u8] + item_bytes::<T>(x),
            None => seq![0u8],
        }
    }

    open spec fn spec_unversioned_size(v: Option<T::V>) -> nat {
        match v {
            Some(x) => 1 + item_size::<T>(x),
            None => 1,
        }
    }

    fn unversioned_serialize(value: &Option<T>, out: &mut Vec<u8>) -> (r: Result<(), CodecError>) {
        let ghost start = out@;
        match value {
            Some(v) => {
                out.push(1u8);
                let r = T::serialize(v, out);
                assert(r is Ok ==> out@ =~= start + (seq![1u8] + item_bytes::<T>(v.deep_view())));
                r
            },
            None => {
                out.push(0u8);
                Ok(())
            },
        }
    }

    fn unversioned_serialized_size(value: &Option<T>) -> (n: usize) {
        match value {
            Some(v) => 1 + T::serialized_size(v),
            None => 1,
        }
    }
}

impl<T: Deserializable> Deserializable for Option<T> {
    /// A tag byte read as a `u8`: `0` is `None`, `1` is followed by the value,
    /// anything else is invalid.
    open spec fn spec_versioned_deserialize(data: Seq<u8>, version: Option<Version>, depth: u32)
        -> Option<(Option<T::V>, nat)> {
        match item_deserialize::<u8>(data, depth) {
            None => None,
            Some((tag, k)) => if tag == 0 {
                Some((None, k))
            } else if tag == 1 {
                match item_deserialize::<T>(data.skip(k as int), depth) {
                    Some((x, n)) => Some((Some(x), k + n)),
                    None => None,
                }
            } else {
                None
            },
        }
    }

    open spec fn spec_decodable(v: Option<T::V>, depth: u32) -> bool {
        &&& depth <= RECURSION_LIMIT
        &&& match v {
            Some(x) => item_decodable::<T>(x, depth),
            None => true,
        }
    }

    fn versioned_deserialize(
        data: &[u8],
        pos: &mut usize,
        version: Option<Version>,
        depth: u32,
    ) -> (r: Result<Option<T>, CodecError>) {
        let ghost start = *pos;
        let tag = <u8 as Deserializable>::deserialize(data, pos, depth)?;
        if tag == 0 {
            Ok(None)
        } else if tag == 1 {
            let ghost mid = *pos;
            proof {
                assert(data@.skip(mid as int) =~= data@.skip(start as int).skip(mid - start));
            }
            let v = T::deserialize(data, pos, depth)?;
            Ok(Some(v))
        } else {
            Err(CodecError::InvalidData)
        }
    }
}

/// The byte at the front of `data`, read as a `u8` at a depth within the limit.
pub proof fn lemma_tag_byte(data: Seq<u8>)
    requires
        data.len() >= 1,
    ensures
        forall|d: u32|
            d <= RECURSION_LIMIT ==> #[trigger] item_deserialize::<u8>(data, d) == Some((data[0], 1nat)),
{
    assert(data.skip(0) =~= data);
    assert(data.take(1) =~= seq![data[0]]);
    assert(seq![data[0]].drop_first() =~= Seq::<u8>::empty());
    reveal_with_fuel(crate::bytes::le_value, 2);
    assert(crate::bytes::le_value(seq![data[0]]) == data[0] as nat);
}

impl<T: RoundTrip> RoundTrip for Option<T> {
    proof fn lemma_unversioned_roundtrip(v: Option<T::V>, rest: Seq<u8>, depth: u32) {
        let data = Self::spec_unversioned(v) + rest;
        lemma_tag_byte(data);
        match v {
            Some(x) => {
                assert(data.skip(1) =~= item_bytes::<T>(x) + rest);
                lemma_item_roundtrip::<T>(x, rest, depth);
            },
            None => {},
        }
    }

    proof fn lemma_unversioned_size(v: Option<T::V>) {
        match v {
            Some(x) => {
                lemma_item_size::<T>(x);
            },
            None => {},
        }
    }
}

impl<A: Versioned, B: Versioned> Versioned for (A, B) {
    open spec fn obeys_codec_spec() -> bool {
        A::obeys_codec_spec() && B::obeys_codec_spec()
    }

    open spec fn spec_version() -> Option<Version> {
        None
    }

    open spec fn spec_network_specific() -> bool {
        A::spec_network_specific() || B::spec_network_specific()
    }

    open spec fn spec_limit_recursion() -> bool {
        false
    }

    fn version() -> (r: Option<Version>) {
        None
    }

    fn network_specific() -> (r: bool) {
        A::network_specific() || B::network_specific()
    }

    fn limit_recursion() -> (r: bool) {
        false
    }
}

impl<A: Serializable, B: Serializable> Serializable for (A, B) {
    open spec fn spec_serializable(v: (A::V, B::V)) -> bool {
        A::spec_serializable(v.0) && B::spec_serializable(v.1)
    }

    /// Each component in turn, each with its own version tag.
    open spec fn spec_unversioned(v: (A::V, B::V)) -> Seq<u8> {
        item_bytes::<A>(v.0) + item_bytes::<B>(v.1)
    }

    open spec fn spec_unversioned_size(v: (A::V, B::V)) -> nat {
        item_size::<A>(v.0) + item_size::<B>(v.1)
    }

    fn unversioned_serialize(value: &(A, B), out: &mut Vec<u8>) -> (r: Result<(), CodecError>) {
        let ghost start = out@;
        A::serialize(&value.0, out)?;
        let r = B::serialize(&value.1, out);
        assert(r is Ok ==> out@ =~= start + (item_bytes::<A>(value.0.deep_view()) + item_bytes::<B>(
            value.1.deep_view(),
        )));
        r
    }

    fn unversioned_serialized_size(value: &(A, B)) -> (n: usize) {
        A::serialized_size(&value.0) + B::serialized_size(&value.1)
    }
}

impl<A: Deserializable, B: Deserializable> Deserializable for (A, B) {
    open spec fn spec_versioned_deserialize(data: Seq<u8>, version: Option<Version>, depth: u32)
        -> Option<((A::V, B::V), nat)> {
        match item_deserialize::<A>(data, depth) {
            None => None,
            Some((a, n)) => match item_deserialize::<B>(data.skip(n as int), depth) {
                None => None,
                Some((b, m)) => Some(((a, b), n + m)),
            },
        }
    }

    open spec fn spec_decodable(v: (A::V, B::V), depth: u32) -> bool {
        item_decodable::<A>(v.0, depth) && item_decodable::<B>(v.1, depth)
    }

    fn versioned_deserialize(
        data: &[u8],
        pos: &mut usize,
        version: Option<Version>,
        depth: u32,
    ) -> (r: Result<(A, B), CodecError>) {
        let ghost start = *pos;
        let a = A::deserialize(data, pos, depth)?;
        let ghost mid = *pos;
        proof {
            assert(data@.skip(mid as int) =~= data@.skip(start as int).skip(mid - start));
        }
        let b = B::deserialize(data, pos, depth)?;
        Ok((a, b))
    }
}

impl<A: RoundTrip, B: RoundTrip> RoundTrip for (A, B) {
    proof fn lemma_unversioned_roundtrip(v: (A::V, B::V), rest: Seq<u8>, depth: u32) {
        let ba = item_bytes::<A>(v.0);
        let bb = item_bytes::<B>(v.1);
        lemma_item_roundtrip::<A>(v.0, bb + rest, depth);
        lemma_item_roundtrip::<B>(v.1, rest, depth);
        assert(ba + bb + rest =~= ba + (bb + rest));
        assert((ba + bb + rest).skip(ba.len() as int) =~= bb + rest);
    }

    proof fn lemma_unversioned_size(v: (A::V, B::V)) {
        lemma_item_size::<A>(v.0);
        lemma_item_size::<B>(v.1);
    }
}

impl<A: Versioned, B: Versioned, C: Versioned> Versioned for (A, B, C) {
    open spec fn obeys_codec_spec() -> bool {
        A::obeys_codec_spec() && B::obeys_codec_spec() && C::obeys_codec_spec()
    }

    open spec fn spec_version() -> Option<Version> {
        None
    }

    open spec fn spec_network_specific() -> bool {
        A::spec_network_specific() || B::spec_network_specific() || C::spec_network_specific()
    }

    open spec fn spec_limit_recursion() -> bool {
        false
    }

    fn version() -> (r: Option<Version>) {
        None
    }

    fn network_specific() -> (r: bool) {
        A::network_specific() || B::network_specific() || C::network_specific()
    }

    fn limit_recursion() -> (r: bool) {
        false
    }
}

impl<A: Serializable, B: Serializable, C: Serializable> Serializable for (A, B, C) {
    open spec fn spec_serializable(v: (A::V, B::V, C::V)) -> bool {
        A::spec_serializable(v.0) && B::spec_serializable(v.1) && C::spec_serializable(v.2)
    }

    open spec fn spec_unversioned(v: (A::V, B::V, C::V)) -> Seq<u8> {
        item_bytes::<A>(v.0) + item_bytes::<B>(v.1) + item_bytes::<C>(v.2)
    }

    open spec fn spec_unversioned_size(v: (A::V, B::V, C::V)) -> nat {
        item_size::<A>(v.0) + item_size::<B>(v.1) + item_size::<C>(v.2)
    }

    fn unversioned_serialize(value: &(A, B, C), out: &mut Vec<u8>) -> (r: Result<(), CodecError>) {
        let ghost start = out@;
        A::serialize(&value.0, out)?;
        B::serialize(&value.1, out)?;
        let r = C::serialize(&value.2, out);
        assert(r is Ok ==> out@ =~= start + (item_bytes::<A>(value.0.deep_view()) + item_bytes::<B>(
            value.1.deep_view(),
        ) + item_bytes::<C>(value.2.deep_view())));
        r
    }

    fn unversioned_serialized_size(value: &(A, B, C)) -> (n: usize) {
        A::serialized_size(&value.0) + B::serialized_size(&value.1) + C::serialized_size(&value.2)
    }
}

impl<A: Deserializable, B: Deserializable, C: Deserializable> Deserializable for (A, B, C) {
    open spec fn spec_versioned_deserialize(data: Seq<u8>, version: Option<Version>, depth: u32)
        -> Option<((A::V, B::V, C::V), nat)> {
        match item_deserialize::<A>(data, depth) {
            None => None,
            Some((a, n)) => match item_deserialize::<B>(data.skip(n as int), depth) {
                None => None,
                Some((b, m)) => match item_deserialize::<C>(data.skip((n + m) as int), depth) {
                    None => None,
                    Some((c, k)) => Some(((a, b, c), n + m + k)),
                },
            },
        }
    }

    open spec fn spec_decodable(v: (A::V, B::V, C::V), depth: u32) -> bool {
        item_decodable::<A>(v.0, depth) && item_decodable::<B>(v.1, depth) && item_decodable::<C>(
            v.2,
            depth,
        )
    }

    fn versioned_deserialize(
        data: &[u8],
        pos: &mut usize,
        version: Option<Version>,
        depth: u32,
    ) -> (r: Result<(A, B, C), CodecError>) {
        let ghost start = *pos;
        let a = A::deserialize(data, pos, depth)?;
        let ghost mid = *pos;
        proof {
            assert(data@.skip(mid as int) =~= data@.skip(start as int).skip(mid - start));
        }
        let b = B::deserialize(data, pos, depth)?;
        let ghost mid2 = *pos;
        proof {
            assert(data@.skip(mid2 as int) =~= data@.skip(start as int).skip(mid2 - start));
        }
        let c = C::deserialize(data, pos, depth)?;
        Ok((a, b, c))
    }
}

impl<A: RoundTrip, B: RoundTrip, C: RoundTrip> RoundTrip for (A, B, C) {
    proof fn lemma_unversioned_roundtrip(v: (A::V, B::V, C::V), rest: Seq<u8>, depth: u32) {
        let ba = item_bytes::<A>(v.0);
        let bb = item_bytes::<B>(v.1);
        let bc = item_bytes::<C>(v.2);
        lemma_item_roundtrip::<A>(v.0, bb + bc + rest, depth);
        lemma_item_roundtrip::<B>(v.1, bc + rest, depth);
        lemma_item_roundtrip::<C>(v.2, rest, depth);
        let data = ba + bb + bc + rest;
        assert(data =~= ba + (bb + bc + rest));
        assert(data.skip(ba.len() as int) =~= bb + (bc + rest));
        assert(data.skip((ba.len() + bb.len()) as int) =~= bc + rest);
    }

    proof fn lemma_unversioned_size(v: (A::V, B::V, C::V)) {
        lemma_item_size::<A>(v.0);
        lemma_item_size::<B>(v.1);
        lemma_item_size::<C>(v.2);
    }
}

impl<'a, T: Versioned> Versioned for &'a T {
    open spec fn obeys_codec_spec() -> bool {
        T::obeys_codec_spec()
    }

    open spec fn spec_version() -> Option<Version> {
        None
    }

    open spec fn spec_network_specific() -> bool {
        T::spec_network_specific()
    }

    open spec fn spec_limit_recursion() -> bool {
        false
    }

    fn version() -> (r: Option<Version>) {
        None
    }

    fn network_specific() -> (r: bool) {
        T::network_specific()
    }

    fn limit_recursion() -> (r: bool) {
        false
    }
}

impl<'a, T: Serializable> Serializable for &'a T {
    open spec fn spec_serializable(v: T::V) -> bool {
        T::spec_serializable(v)
    }

    /// A reference writes what its target writes, version tag included.
    open spec fn spec_unversioned(v: T::V) -> Seq<u8> {
        item_bytes::<T>(v)
    }

    open spec fn spec_unversioned_size(v: T::V) -> nat {
        item_size::<T>(v)
    }

    fn unversioned_serialize(value: &&'a T, out: &mut Vec<u8>) -> (r: Result<(), CodecError>) {
        T::serialize(*value, out)
    }

    fn unversioned_serialized_size(value: &&'a T) -> (n: usize) {
        T::serialized_size(*value)
    }
}

/// The items of `s` written one after the other.
pub open spec fn seq_bytes<T: Serializable>(s: Seq<T::V>) -> Seq<u8>
    decreases s.len(),
{
    if s.len() == 0 {
        Seq::<u8>::empty()
    } else {
        seq_bytes::<T>(s.drop_last()) + item_bytes::<T>(s.last())
    }
}

/// The sum of the reported sizes of the items of `s`.
pub open spec fn seq_size<T: Serializable>(s: Seq<T::V>) -> nat
    decreases s.len(),
{
    if s.len() == 0 {
        0
    } else {
        seq_size::<T>(s.drop_last()) + item_size::<T>(s.last())
    }
}

/// Reading `count` items one after the other from `data`.
pub open spec fn seq_deserialize<T: Deserializable>(data: Seq<u8>, count: nat, depth: u32) -> Option<
    (Seq<T::V>, nat),
>
    decreases count,
{
    if count == 0 {
        Some((Seq::<T::V>::empty(), 0))
    } else {
        match seq_deserialize::<T>(data, (count - 1) as nat, depth) {
            None => None,
            Some((es, n)) => match item_deserialize::<T>(data.skip(n as int), depth) {
                None => None,
                Some((e, m)) => Some((es.push(e), n + m)),
            },
        }
    }
}

/// Once reading a prefix of the items fails, reading more of them fails too.
pub proof fn lemma_seq_deserialize_fails<T: Deserializable>(data: Seq<u8>, k: nat, count: nat, depth: u32)
    requires
        k <= count,
        seq_deserialize::<T>(data, k, depth) is None,
    ensures
        seq_deserialize::<T>(data, count, depth) is None,
    decreases count,
{
    if k < count {
        lemma_seq_deserialize_fails::<T>(data, k, (count - 1) as nat, depth);
    }
}

/// Reading back the items of `s` gives `s`, whatever follows them.
pub proof fn lemma_seq_roundtrip<T: RoundTrip>(s: Seq<T::V>, rest: Seq<u8>, depth: u32)
    requires
        forall|i: int| 0 <= i < s.len() ==> #[trigger] T::spec_serializable(s[i]),
        forall|i: int| 0 <= i < s.len() ==> #[trigger] item_decodable::<T>(s[i], depth),
    ensures
        seq_deserialize::<T>(seq_bytes::<T>(s) + rest, s.len(), depth) == Some(
            (s, seq_bytes::<T>(s).len()),
        ),
    decreases s.len(),
{
    if s.len() > 0 {
        let init = s.drop_last();
        let last = s.last();
        assert(T::spec_serializable(s[s.len() - 1]));
        assert(item_decodable::<T>(s[s.len() - 1], depth));
        assert forall|i: int| 0 <= i < init.len() implies #[trigger] T::spec_serializable(init[i]) by {
            assert(T::spec_serializable(s[i]));
        }
        assert forall|i: int| 0 <= i < init.len() implies #[trigger] item_decodable::<T>(
            init[i],
            depth,
        ) by {
            assert(item_decodable::<T>(s[i], depth));
        }
        let tail = item_bytes::<T>(last) + rest;
        lemma_seq_roundtrip::<T>(init, tail, depth);
        lemma_item_roundtrip::<T>(last, rest, depth);
        let data = seq_bytes::<T>(s) + rest;
        assert(data =~= seq_bytes::<T>(init) + tail);
        assert(data.skip(seq_bytes::<T>(init).len() as int) =~= tail);
        assert(init.push(last) =~= s);
    }
}

/// The reported sizes add up to the number of bytes written.
pub proof fn lemma_seq_size<T: RoundTrip>(s: Seq<T::V>)
    requires
        forall|i: int| 0 <= i < s.len() ==> #[trigger] T::spec_serializable(s[i]),
    ensures
        seq_size::<T>(s) == seq_bytes::<T>(s).len(),
    decreases s.len(),
{
    if s.len() > 0 {
        assert(T::spec_serializable(s[s.len() - 1]));
        assert forall|i: int| 0 <= i < s.drop_last().len() implies #[trigger] T::spec_serializable(
            s.drop_last()[i],
        ) by {
            assert(T::spec_serializable(s[i]));
        }
        lemma_seq_size::<T>(s.drop_last());
        lemma_item_size::<T>(s.last());
    }
}

/// The size of a prefix is at most the size of the whole.
pub proof fn lemma_seq_size_prefix<T: Serializable>(s: Seq<T::V>, i: int)
    requires
        0 <= i <= s.len(),
    ensures
        seq_size::<T>(s.take(i)) <= seq_size::<T>(s),
    decreases s.len(),
{
    if i < s.len() {
        assert(s.take(i) =~= s.drop_last().take(i));
        lemma_seq_size_prefix::<T>(s.drop_last(), i);
    } else {
        assert(s.take(i) =~= s);
    }
}

impl<T: Versioned> Versioned for Vec<T> {
    open spec fn obeys_codec_spec() -> bool {
        T::obeys_codec_spec()
    }

    open spec fn spec_version() -> Option<Version> {
        None
    }

    open spec fn spec_network_specific() -> bool {
        T::spec_network_specific()
    }

    open spec fn spec_limit_recursion() -> bool {
        false
    }

    fn version() -> (r: Option<Version>) {
        None
    }

    fn network_specific() -> (r: bool) {
        T::network_specific()
    }

    fn limit_recursion() -> (r: bool) {
        false
    }
}

impl<T: Serializable> Serializable for Vec<T> {
    open spec fn spec_serializable(v: Seq<T::V>) -> bool {
        forall|i: int| 0 <= i < v.len() ==> #[trigger] T::spec_serializable(v[i])
    }

    /// The length as a `u32` (truncated), then each item in turn.
    open spec fn spec_unversioned(v: Seq<T::V>) -> Seq<u8> {
        le_bytes((v.len() as u32) as nat, 4) + seq_bytes::<T>(v)
    }

    open spec fn spec_unversioned_size(v: Seq<T::V>) -> nat {
        4 + seq_size::<T>(v)
    }

    fn unversioned_serialize(value: &Vec<T>, out: &mut Vec<u8>) -> (r: Result<(), CodecError>) {
        let ghost start = out@;
        let ghost dv = value.deep_view();
        let len: u32 = value.len() as u32;
        <u32 as Serializable>::serialize(&len, out)?;
        assert(out@ =~= start + le_bytes((dv.len() as u32) as nat, 4)) by {
            assert(version_bytes(None) + le_bytes(len as nat, 4) =~= le_bytes(len as nat, 4));
        }
        let ghost mid = out@;
        let mut i: usize = 0;
        assert(dv.take(0) =~= Seq::<T::V>::empty());
        while i < value.len()
            invariant
                T::obeys_codec_spec(),
                i <= value@.len(),
                dv == value.deep_view(),
                dv.len() == value@.len(),
                out@ == mid + seq_bytes::<T>(dv.take(i as int)),
                forall|j: int| 0 <= j < i ==> #[trigger] T::spec_serializable(dv[j]),
            decreases value@.len() - i,
        {
            let ghost before = out@;
            let r = T::serialize(&value[i], out);
            assert(value@[i as int].deep_view() == dv[i as int]);
            if r.is_err() {
                return r;
            }
            proof {
                let t = dv.take(i + 1);
                assert(t.drop_last() =~= dv.take(i as int));
                assert(t.last() == dv[i as int]);
                assert(out@ =~= mid + seq_bytes::<T>(t));
            }
            i = i + 1;
        }
        assert(dv.take(dv.len() as int) =~= dv);
        assert(out@ =~= start + (le_bytes((dv.len() as u32) as nat, 4) + seq_bytes::<T>(dv)));
        Ok(())
    }

    fn unversioned_serialized_size(value: &Vec<T>) -> (n: usize) {
        let ghost dv = value.deep_view();
        let mut acc: usize = 0;
        let mut i: usize = 0;
        assert(dv.take(0) =~= Seq::<T::V>::empty());
        while i < value.len()
            invariant
                T::obeys_codec_spec(),
                i <= value@.len(),
                dv == value.deep_view(),
                dv.len() == value@.len(),
                4 + seq_size::<T>(dv) <= usize::MAX,
                acc == seq_size::<T>(dv.take(i as int)),
            decreases value@.len() - i,
        {
            proof {
                let t = dv.take(i + 1);
                assert(t.drop_last() =~= dv.take(i as int));
                assert(t.last() == dv[i as int]);
                lemma_seq_size_prefix::<T>(dv, i + 1);
            }
            assert(value@[i as int].deep_view() == dv[i as int]);
            let s = T::serialized_size(&value[i]);
            acc = acc + s;
            i = i + 1;
        }
        assert(dv.take(dv.len() as int) =~= dv);
        4 + acc
    }
}

impl<T: Deserializable> Deserializable for Vec<T> {
    /// A `u32` length, then that many items.
    open spec fn spec_versioned_deserialize(data: Seq<u8>, version: Option<Version>, depth: u32)
        -> Option<(Seq<T::V>, nat)> {
        match item_deserialize::<u32>(data, depth) {
            None => None,
            Some((len, k)) => match seq_deserialize::<T>(data.skip(k as int), len as nat, depth) {
                None => None,
                Some((es, n)) => Some((es, k + n)),
            },
        }
    }

    open spec fn spec_decodable(v: Seq<T::V>, depth: u32) -> bool {
        &&& depth <= RECURSION_LIMIT
        &&& v.len() <= u32::MAX
        &&& forall|i: int| 0 <= i < v.len() ==> #[trigger] item_decodable::<T>(v[i], depth)
    }

    fn versioned_deserialize(
        data: &[u8],
        pos: &mut usize,
        version: Option<Version>,
        depth: u32,
    ) -> (r: Result<Vec<T>, CodecError>) {
        let ghost start = *pos;
        let len = <u32 as Deserializable>::deserialize(data, pos, depth)?;
        let ghost p4 = *pos;
        let ghost body = data@.skip(p4 as int);
        proof {
            assert(body =~= data@.skip(start as int).skip(p4 - start));
            assert(data@.skip(start as int).skip(0) =~= data@.skip(start as int));
            assert(item_deserialize::<u32>(data@.skip(start as int), depth) == Some((len, (p4 - start) as nat)));
        }
        let mut result: Vec<T> = Vec::new();
        let mut i: u32 = 0;
        assert(result.deep_view() =~= Seq::<T::V>::empty());
        while i < len
            invariant
                T::obeys_codec_spec(),
                i <= len,
                p4 <= *pos <= data@.len(),
                body == data@.skip(p4 as int),
                start <= p4,
                start == *old(pos),
                body == data@.skip(start as int).skip(p4 - start),
                item_deserialize::<u32>(data@.skip(start as int), depth) == Some((len, (p4 - start) as nat)),
                seq_deserialize::<T>(body, i as nat, depth) == Some((result.deep_view(), (*pos - p4) as nat)),
            decreases len - i,
        {
            let ghost here = *pos;
            proof {
                assert(data@.skip(here as int) =~= body.skip(here - p4));
            }
            let e = T::deserialize(data, pos, depth);
            match e {
                Ok(x) => {
                    let ghost prev = result.deep_view();
                    result.push(x);
                    assert(result.deep_view() =~= prev.push(x.deep_view()));
                },
                Err(err) => {
                    proof {
                        assert(item_deserialize::<T>(body.skip(here - p4), depth) is None);
                        assert(seq_deserialize::<T>(body, (i + 1) as nat, depth) is None);
                        lemma_seq_deserialize_fails::<T>(body, (i + 1) as nat, len as nat, depth);
                        assert(Self::spec_versioned_deserialize(data@.skip(start as int), version, depth) is None);
                    }
                    return Err(err);
                },
            }
            i = i + 1;
        }
        Ok(result)
    }
}

impl<T: RoundTrip> RoundTrip for Vec<T> {
    proof fn lemma_unversioned_roundtrip(v: Seq<T::V>, rest: Seq<u8>, depth: u32) {
        let len = v.len() as u32;
        let sb = seq_bytes::<T>(v);
        lemma_item_roundtrip::<u32>(len, sb + rest, depth);
        assert(item_bytes::<u32>(len) =~= le_bytes(len as nat, 4));
        lemma_seq_roundtrip::<T>(v, rest, depth);
        let data = Self::spec_unversioned(v) + rest;
        assert(data =~= item_bytes::<u32>(len) + (sb + rest));
        assert(data.skip(4) =~= sb + rest);
        assert(len as nat == v.len());
    }

    proof fn lemma_unversioned_size(v: Seq<T::V>) {
        lemma_seq_size::<T>(v);
        lemma_pow256_values();
        crate::bytes::lemma_le_bytes_len((v.len() as u32) as nat, 4);
    }
}


impl<T: Versioned> Versioned for std::sync::Arc<T> {
    open spec fn obeys_codec_spec() -> bool {
        T::obeys_codec_spec()
    }

    open spec fn spec_version() -> Option<Version> {
        None
    }

    open spec fn spec_network_specific() -> bool {
        T::spec_network_specific()
    }

    open spec fn spec_limit_recursion() -> bool {
        false
    }

    fn version() -> (r: Option<Version>) {
        None
    }

    fn network_specific() -> (r: bool) {
        T::network_specific()
    }

    fn limit_recursion() -> (r: bool) {
        false
    }
}

impl<T: Deserializable> Deserializable for std::sync::Arc<T> {
    /// The body of the shared value, read with the version handed in.
    open spec fn spec_versioned_deserialize(data: Seq<u8>, version: Option<Version>, depth: u32) -> Option<
        (T::V, nat),
    > {
        T::spec_versioned_deserialize(data, version, depth)
    }

    open spec fn spec_decodable(v: T::V, depth: u32) -> bool {
        T::spec_decodable(v, depth)
    }

    fn versioned_deserialize(data: &[u8], pos: &mut usize, version: Option<Version>, depth: u32) -> (r: Result<
        std::sync::Arc<T>,
        CodecError,
    >) {
        let v = T::versioned_deserialize(data, pos, version, depth)?;
        Ok(std::sync::Arc::new(v))
    }
}

} // verus!

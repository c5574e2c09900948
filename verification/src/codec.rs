//! The `Serializable` / `Deserializable` traits and the top-level entry points.
use vstd::prelude::*;
use crate::versioned::{version_bytes, CodecError, Version, Versioned, RECURSION_LIMIT};

verus! {

/// `depth + 1` when `limit` holds, else `depth`, as a recursion depth.
pub open spec fn next_depth(depth: u32, limit: bool) -> u32 {
    if limit {
        (depth + 1) as u32
    } else {
        depth
    }
}

/// Writing a value: its version tag (if any), then its unversioned bytes.
pub trait Serializable: Versioned {
    /// Whether writing the value succeeds.
    open spec fn spec_serializable(v: Self::V) -> bool {
        true
    }

    /// The bytes written for the value, without its version tag.
    open spec fn spec_unversioned(v: Self::V) -> Seq<u8> {
        Seq::empty()
    }

    /// The size the type reports for the value, without its version tag.
    open spec fn spec_unversioned_size(v: Self::V) -> nat {
        0
    }

    fn unversioned_serialize(value: &Self, out: &mut Vec<u8>) -> (r: Result<(), CodecError>)
        requires
            Self::obeys_codec_spec(),
        ensures
            (r is Ok) == Self::spec_serializable(value.deep_view()),
            r is Ok ==> final(out)@ == old(out)@ + Self::spec_unversioned(value.deep_view()),
    ;

    fn unversioned_serialized_size(value: &Self) -> (n: usize)
        requires
            Self::obeys_codec_spec(),
            Self::spec_unversioned_size(value.deep_view()) <= usize::MAX,
        ensures
            n == Self::spec_unversioned_size(value.deep_view()),
    ;

    /// Writes the version tag of the type, if any, then the value.
    fn serialize(value: &Self, out: &mut Vec<u8>) -> (r: Result<(), CodecError>)
        requires
            Self::obeys_codec_spec(),
        ensures
            (r is Ok) == Self::spec_serializable(value.deep_view()),
            r is Ok ==> final(out)@ == old(out)@ + (version_bytes(Self::spec_version())
                + Self::spec_unversioned(value.deep_view())),
    {
        let ghost start = out@;
        match Self::version() {
            Some(v) => {
                out.push(v.major);
                out.push(v.minor);
            },
            None => {},
        }
        assert(out@ == start + version_bytes(Self::spec_version()));
        let r = Self::unversioned_serialize(value, out);
        assert(r is Ok ==> out@ =~= start + (version_bytes(Self::spec_version())
            + Self::spec_unversioned(value.deep_view())));
        r
    }

    /// The number of bytes `serialize` writes, version tag included.
    fn serialized_size(value: &Self) -> (n: usize)
        requires
            Self::obeys_codec_spec(),
            Self::spec_unversioned_size(value.deep_view()) + version_bytes(Self::spec_version()).len()
                <= usize::MAX,
        ensures
            n == Self::spec_unversioned_size(value.deep_view()) + version_bytes(
                Self::spec_version(),
            ).len(),
    {
        let s = Self::unversioned_serialized_size(value);
        match Self::version() {
            Some(_) => s + 2,
            None => s,
        }
    }
}

/// The bytes `serialize` writes for a value: version tag, then unversioned bytes.
pub open spec fn item_bytes<T: Serializable>(v: T::V) -> Seq<u8> {
    version_bytes(T::spec_version()) + T::spec_unversioned(v)
}

/// The size `serialized_size` reports for a value.
pub open spec fn item_size<T: Serializable>(v: T::V) -> nat {
    T::spec_unversioned_size(v) + version_bytes(T::spec_version()).len()
}

/// Reading a value: its version tag (if the type has one), a recursion check, then the body.
pub trait Deserializable: Versioned {
    /// What reading the body of a value from `data` gives: the value and the bytes used.
    open spec fn spec_versioned_deserialize(data: Seq<u8>, version: Option<Version>, depth: u32)
        -> Option<(Self::V, nat)> {
        None
    }

    /// Whether the encoding of `v` reads back when its body is read at `depth`.
    open spec fn spec_decodable(v: Self::V, depth: u32) -> bool {
        true
    }

    fn versioned_deserialize(
        data: &[u8],
        pos: &mut usize,
        version: Option<Version>,
        depth: u32,
    ) -> (r: Result<Self, CodecError>)
        requires
            Self::obeys_codec_spec(),
            *old(pos) <= data@.len(),
        ensures
            *final(pos) <= data@.len(),
            match Self::spec_versioned_deserialize(data@.skip(*old(pos) as int), version, depth) {
                Some((v, n)) => r matches Ok(x) && x.deep_view() == v && *final(pos) == *old(pos) + n,
                None => r is Err,
            },
    ;

    /// Reads the version tag of the type, if it has one.
    fn get_version(data: &[u8], pos: &mut usize) -> (r: Result<Option<Version>, CodecError>)
        requires
            Self::obeys_codec_spec(),
            *old(pos) <= data@.len(),
        ensures
            *final(pos) <= data@.len(),
            match Self::spec_version() {
                Some(_) => if data@.len() - *old(pos) < 2 {
                    r is Err
                } else {
                    &&& r == Ok::<Option<Version>, CodecError>(
                        Some(Version { major: data@[*old(pos) as int], minor: data@[*old(pos) + 1] }),
                    )
                    &&& *final(pos) == *old(pos) + 2
                },
                None => r == Ok::<Option<Version>, CodecError>(None) && *final(pos) == *old(pos),
            },
    {
        match Self::version() {
            Some(_) => {
                if data.len() - *pos < 2 {
                    return Err(CodecError::UnexpectedEndOfInput);
                }
                let major = data[*pos];
                let minor = data[*pos + 1];
                *pos = *pos + 2;
                Ok(Some(Version { major, minor }))
            },
            None => Ok(None),
        }
    }

    /// Reads a value: its version tag, then its body, one level deeper for
    /// recursion-limited types. Fails past the recursion limit.
    fn deserialize(data: &[u8], pos: &mut usize, depth: u32) -> (r: Result<Self, CodecError>)
        requires
            Self::obeys_codec_spec(),
            *old(pos) <= data@.len(),
        ensures
            *final(pos) <= data@.len(),
            ({
                let rest = data@.skip(*old(pos) as int);
                let k: nat = if Self::spec_version() is Some { 2 } else { 0 };
                if rest.len() < k || depth > RECURSION_LIMIT {
                    r is Err
                } else {
                    let ver = if Self::spec_version() is Some {
                        Some(Version { major: rest[0], minor: rest[1] })
                    } else {
                        None
                    };
                    match Self::spec_versioned_deserialize(
                        rest.skip(k as int),
                        ver,
                        next_depth(depth, Self::spec_limit_recursion()),
                    ) {
                        Some((v, n)) => r matches Ok(x) && x.deep_view() == v && *final(pos) == *old(pos)
                            + k + n,
                        None => r is Err,
                    }
                }
            }),
    {
        let ghost start = *pos;
        let version = Self::get_version(data, pos)?;
        if depth > RECURSION_LIMIT {
            return Err(CodecError::RecursionLimit);
        }
        let d = if Self::limit_recursion() {
            depth + 1
        } else {
            depth
        };
        let ghost mid = *pos;
        proof {
            assert(data@.skip(mid as int) =~= data@.skip(start as int).skip(mid - start));
        }
        Self::versioned_deserialize(data, pos, version, d)
    }
}

/// The version tag at the front of `data` for type `T`, and its length.
pub open spec fn read_version<T: Versioned>(data: Seq<u8>) -> Option<(Option<Version>, nat)> {
    match T::spec_version() {
        Some(_) => if data.len() < 2 {
            None
        } else {
            Some((Some(Version { major: data[0], minor: data[1] }), 2))
        },
        None => Some((None, 0)),
    }
}

/// What `deserialize` gives for `data` at `depth`: the value and the bytes used.
pub open spec fn item_deserialize<T: Deserializable>(data: Seq<u8>, depth: u32) -> Option<(T::V, nat)> {
    match read_version::<T>(data) {
        None => None,
        Some((ver, k)) => if depth > RECURSION_LIMIT {
            None
        } else {
            match T::spec_versioned_deserialize(
                data.skip(k as int),
                ver,
                next_depth(depth, T::spec_limit_recursion()),
            ) {
                Some((v, n)) => Some((v, n + k)),
                None => None,
            }
        },
    }
}

/// Whether `v`, written with `serialize`, reads back with `deserialize` at `depth`.
pub open spec fn item_decodable<T: Deserializable>(v: T::V, depth: u32) -> bool {
    &&& depth <= RECURSION_LIMIT
    &&& T::spec_decodable(v, next_depth(depth, T::spec_limit_recursion()))
}

/// The laws that tie writing and reading a type together.
pub trait RoundTrip: Serializable + Deserializable {
    /// Reading the unversioned bytes of `v` back, under the type's own version, gives `v`
    /// and uses exactly those bytes, whatever follows them.
    proof fn lemma_unversioned_roundtrip(v: Self::V, rest: Seq<u8>, depth: u32)
        requires
            Self::spec_serializable(v),
            Self::spec_decodable(v, depth),
        ensures
            Self::spec_versioned_deserialize(Self::spec_unversioned(v) + rest, Self::spec_version(), depth)
                == Some((v, Self::spec_unversioned(v).len())),
    ;

    /// The reported size is the number of bytes written.
    proof fn lemma_unversioned_size(v: Self::V)
        requires
            Self::spec_serializable(v),
        ensures
            Self::spec_unversioned_size(v) == Self::spec_unversioned(v).len(),
    ;
}

/// `deserialize` reads back what `serialize` wrote, whatever follows it.
pub proof fn lemma_item_roundtrip<T: RoundTrip>(v: T::V, rest: Seq<u8>, depth: u32)
    requires
        T::spec_serializable(v),
        item_decodable::<T>(v, depth),
    ensures
        item_deserialize::<T>(item_bytes::<T>(v) + rest, depth) == Some((v, item_bytes::<T>(v).len())),
{
    let d = next_depth(depth, T::spec_limit_recursion());
    T::lemma_unversioned_roundtrip(v, rest, d);
    let data = item_bytes::<T>(v) + rest;
    let k = version_bytes(T::spec_version()).len();
    assert(data.skip(k as int) =~= T::spec_unversioned(v) + rest);
    match T::spec_version() {
        Some(ver) => {
            assert(data[0] == ver.major && data[1] == ver.minor);
        },
        None => {},
    }
}

/// The size `serialized_size` reports is the number of bytes `serialize` writes.
pub proof fn lemma_item_size<T: RoundTrip>(v: T::V)
    requires
        T::spec_serializable(v),
    ensures
        item_size::<T>(v) == item_bytes::<T>(v).len(),
{
    T::lemma_unversioned_size(v);
}

} // verus!

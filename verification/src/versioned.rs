//! Version tags, network identifiers and the errors of the binary codec.
use vstd::prelude::*;

verus! {

/// A `major.minor` version tag written in front of versioned encodings.
#[derive(Debug, Clone, Copy, PartialEq, Eq, Hash, Structural)]
pub struct Version {
    pub major: u8,
    pub minor: u8,
}

impl DeepView for Version {
    type V = Version;

    open spec fn deep_view(&self) -> Version {
        *self
    }
}

/// The network a network-specific encoding belongs to.
#[derive(Debug, Copy, Clone, PartialEq, Eq, PartialOrd, Ord, Hash, Structural)]
pub enum NetworkId {
    Undeployed,
    DevNet,
    TestNet,
    MainNet,
}

impl DeepView for NetworkId {
    type V = NetworkId;

    open spec fn deep_view(&self) -> NetworkId {
        *self
    }
}

/// The byte that stands for a network identifier.
pub open spec fn network_byte(n: NetworkId) -> u8 {
    match n {
        NetworkId::Undeployed => 0,
        NetworkId::DevNet => 1,
        NetworkId::TestNet => 2,
        NetworkId::MainNet => 3,
    }
}

/// The network identifier a byte stands for, if any.
pub open spec fn network_of_byte(b: u8) -> Option<NetworkId> {
    if b == 0 {
        Some(NetworkId::Undeployed)
    } else if b == 1 {
        Some(NetworkId::DevNet)
    } else if b == 2 {
        Some(NetworkId::TestNet)
    } else if b == 3 {
        Some(NetworkId::MainNet)
    } else {
        None
    }
}

impl NetworkId {
    /// The discriminant byte of this network identifier.
    pub fn to_byte(&self) -> (b: u8)
        ensures
            b == network_byte(*self),
    {
        match self {
            NetworkId::Undeployed => 0,
            NetworkId::DevNet => 1,
            NetworkId::TestNet => 2,
            NetworkId::MainNet => 3,
        }
    }

    /// The network identifier with the given discriminant byte.
    pub fn from_byte(b: u8) -> (r: Option<NetworkId>)
        ensures
            r == network_of_byte(b),
    {
        if b == 0 {
            Some(NetworkId::Undeployed)
        } else if b == 1 {
            Some(NetworkId::DevNet)
        } else if b == 2 {
            Some(NetworkId::TestNet)
        } else if b == 3 {
            Some(NetworkId::MainNet)
        } else {
            None
        }
    }
}

/// Why an encoding could not be written or read.
#[derive(Debug, Clone, Copy, PartialEq, Eq, Structural)]
pub enum CodecError {
    /// The input ended before the value did.
    UnexpectedEndOfInput,
    /// The input, or the value to write, is not valid for the format.
    InvalidData,
    /// Nested values went deeper than the recursion limit.
    RecursionLimit,
    /// The version tag is not one this type can read.
    UnsupportedVersion,
    /// The network identifier in the input is not the expected one.
    NetworkMismatch,
    /// Bytes were left over after the value.
    BytesRemaining,
}

/// How deep nested recursion-limited values may be read.
pub const RECURSION_LIMIT: u32 = 250;

/// The bytes of a version tag, as written in front of a versioned value.
pub open spec fn version_bytes(v: Option<Version>) -> Seq<u8> {
    match v {
        Some(v) => seq![v.major, v.minor],
        None => Seq::<u8>::empty(),
    }
}

/// Per-type information on how values of the type are tagged.
pub trait Versioned: Sized + DeepView {
    /// Whether the type's codec meets the specifications of these traits: so
    /// for every type of this library; unknown for others.
    open spec fn obeys_codec_spec() -> bool {
        false
    }

    /// The version written in front of each value, if any.
    open spec fn spec_version() -> Option<Version> {
        None
    }

    /// Whether a top-level encoding carries a network identifier; by default,
    /// exactly when the type is versioned.
    open spec fn spec_network_specific() -> bool {
        Self::spec_version() is Some
    }

    /// Whether reading a value of this type counts one level of recursion; by default not.
    open spec fn spec_limit_recursion() -> bool {
        false
    }

    fn version() -> (r: Option<Version>)
        requires
            Self::obeys_codec_spec(),
        ensures
            r == Self::spec_version(),
    ;

    fn network_specific() -> (r: bool)
        requires
            Self::obeys_codec_spec(),
        ensures
            r == Self::spec_network_specific(),
    ;

    fn limit_recursion() -> (r: bool)
        requires
            Self::obeys_codec_spec(),
        ensures
            r == Self::spec_limit_recursion(),
    ;
}

impl Versioned for Version {
    open spec fn obeys_codec_spec() -> bool {
        true
    }

    open spec fn spec_version() -> Option<Version> {
        None
    }

    open spec fn spec_network_specific() -> bool {
        false
    }

    open spec fn spec_limit_recursion() -> bool {
        false
    }

    fn version() -> (r: Option<Version>) {
        None
    }

    fn network_specific() -> (r: bool) {
        false
    }

    fn limit_recursion() -> (r: bool) {
        false
    }
}

impl Versioned for NetworkId {
    open spec fn obeys_codec_spec() -> bool {
        true
    }

    open spec fn spec_version() -> Option<Version> {
        None
    }

    open spec fn spec_network_specific() -> bool {
        false
    }

    open spec fn spec_limit_recursion() -> bool {
        false
    }

    fn version() -> (r: Option<Version>) {
        None
    }

    fn network_specific() -> (r: bool) {
        false
    }

    fn limit_recursion() -> (r: bool) {
        false
    }
}

/// Network identifiers are tagged 0 to 3 in the order undeployed, devnet,
/// testnet, mainnet: exactly the bytes below 4 are tags, and each tag reads
/// back as the network it was written for.
pub proof fn law_network_tags()
    ensures
        forall|n: NetworkId|
            #[trigger] network_byte(n) == match n {
                NetworkId::Undeployed => 0u8,
                NetworkId::DevNet => 1u8,
                NetworkId::TestNet => 2u8,
                NetworkId::MainNet => 3u8,
            },
        forall|b: u8| (#[trigger] network_of_byte(b) is Some) <==> b < 4,
        forall|n: NetworkId| #[trigger] network_of_byte(network_byte(n)) == Some(n),
{
}

} // verus!

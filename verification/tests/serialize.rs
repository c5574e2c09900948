use midnight_ledger::codec::{Deserializable, Serializable};
use midnight_ledger::entry::{deserialize, serialize};
use midnight_ledger::versioned::{CodecError, NetworkId, Version, Versioned, RECURSION_LIMIT};
use midnight_ledger::DeepView;

#[derive(PartialEq, Debug, Clone)]
struct SerializableStruct {
    foo: u64,
    bar: u64,
}

impl DeepView for SerializableStruct {
    type V = SerializableStruct;

    fn deep_view(&self) -> Self::V {
        self.clone()
    }
}

impl Versioned for SerializableStruct {
    fn version() -> Option<Version> {
        None
    }
    fn network_specific() -> bool {
        false
    }
    fn limit_recursion() -> bool {
        false
    }
}

impl Serializable for SerializableStruct {
    fn unversioned_serialize(value: &Self, out: &mut Vec<u8>) -> Result<(), CodecError> {
        <u64 as Serializable>::unversioned_serialize(&value.foo, out)?;
        <u64 as Serializable>::unversioned_serialize(&value.bar, out)
    }

    fn unversioned_serialized_size(_value: &Self) -> usize {
        128
    }
}

impl Deserializable for SerializableStruct {
    fn versioned_deserialize(
        data: &[u8],
        pos: &mut usize,
        _version: Option<Version>,
        depth: u32,
    ) -> Result<Self, CodecError> {
        let foo = <u64 as Deserializable>::versioned_deserialize(data, pos, None, depth)?;
        let bar = <u64 as Deserializable>::versioned_deserialize(data, pos, None, depth)?;
        Ok(SerializableStruct { foo, bar })
    }
}

#[derive(PartialEq, Clone, Debug)]
struct VersionedStruct {
    foo: u64,
    bar: u64,
}

impl DeepView for VersionedStruct {
    type V = VersionedStruct;

    fn deep_view(&self) -> Self::V {
        self.clone()
    }
}

impl Versioned for VersionedStruct {
    fn version() -> Option<Version> {
        Some(Version { major: 1, minor: 0 })
    }
    fn network_specific() -> bool {
        true
    }
    fn limit_recursion() -> bool {
        false
    }
}

impl Serializable for VersionedStruct {
    fn unversioned_serialize(value: &Self, out: &mut Vec<u8>) -> Result<(), CodecError> {
        <u64 as Serializable>::unversioned_serialize(&value.foo, out)?;
        <u64 as Serializable>::unversioned_serialize(&value.bar, out)
    }

    fn unversioned_serialized_size(_value: &Self) -> usize {
        128
    }
}

impl Deserializable for VersionedStruct {
    fn versioned_deserialize(
        data: &[u8],
        pos: &mut usize,
        version: Option<Version>,
        depth: u32,
    ) -> Result<Self, CodecError> {
        match version {
            Some(Version { major: 1, minor: 0 }) => {
                let foo = <u64 as Deserializable>::versioned_deserialize(data, pos, None, depth)?;
                let bar = <u64 as Deserializable>::versioned_deserialize(data, pos, None, depth)?;
                Ok(VersionedStruct { foo, bar })
            }
            _ => Err(CodecError::UnsupportedVersion),
        }
    }
}

#[derive(PartialEq, Debug, Clone)]
struct DerivedSerializable {
    serializable: SerializableStruct,
    versioned: VersionedStruct,
}

impl DeepView for DerivedSerializable {
    type V = DerivedSerializable;

    fn deep_view(&self) -> Self::V {
        self.clone()
    }
}

impl Versioned for DerivedSerializable {
    fn version() -> Option<Version> {
        None
    }
    fn network_specific() -> bool {
        false
    }
    fn limit_recursion() -> bool {
        false
    }
}

impl Serializable for DerivedSerializable {
    fn unversioned_serialize(value: &Self, out: &mut Vec<u8>) -> Result<(), CodecError> {
        <SerializableStruct as Serializable>::serialize(&value.serializable, out)?;
        <VersionedStruct as Serializable>::serialize(&value.versioned, out)
    }

    fn unversioned_serialized_size(value: &Self) -> usize {
        0 + <SerializableStruct as Serializable>::serialized_size(&value.serializable)
            + <VersionedStruct as Serializable>::serialized_size(&value.versioned)
    }
}

impl Deserializable for DerivedSerializable {
    fn versioned_deserialize(
        data: &[u8],
        pos: &mut usize,
        _version: Option<Version>,
        depth: u32,
    ) -> Result<Self, CodecError> {
        let serializable = <SerializableStruct as Deserializable>::deserialize(data, pos, depth)?;
        let versioned = <VersionedStruct as Deserializable>::deserialize(data, pos, depth)?;
        Ok(DerivedSerializable { serializable, versioned })
    }
}

#[derive(PartialEq, Debug, Clone)]
enum DerivedEnum {
    Unit,
    Tuple(u8, u8),
    Struct { foo: u8, bar: u8 },
}

impl DeepView for DerivedEnum {
    type V = DerivedEnum;

    fn deep_view(&self) -> Self::V {
        self.clone()
    }
}

impl Versioned for DerivedEnum {
    fn version() -> Option<Version> {
        None
    }
    fn network_specific() -> bool {
        false
    }
    fn limit_recursion() -> bool {
        false
    }
}

impl Serializable for DerivedEnum {
    fn unversioned_serialize(value: &Self, out: &mut Vec<u8>) -> Result<(), CodecError> {
        match value {
            DerivedEnum::Unit => <u32 as Serializable>::serialize(&0, out),
            DerivedEnum::Tuple(a, b) => {
                <u32 as Serializable>::serialize(&1, out)?;
                <u8 as Serializable>::serialize(a, out)?;
                <u8 as Serializable>::serialize(b, out)
            }
            DerivedEnum::Struct { foo, bar } => {
                <u32 as Serializable>::serialize(&2, out)?;
                <u8 as Serializable>::serialize(foo, out)?;
                <u8 as Serializable>::serialize(bar, out)
            }
        }
    }

    fn unversioned_serialized_size(value: &Self) -> usize {
        match value {
            DerivedEnum::Unit => 4,
            DerivedEnum::Tuple(..) | DerivedEnum::Struct { .. } => 4 + 1 + 1,
        }
    }
}

impl Deserializable for DerivedEnum {
    fn versioned_deserialize(
        data: &[u8],
        pos: &mut usize,
        _version: Option<Version>,
        depth: u32,
    ) -> Result<Self, CodecError> {
        let disc = <u32 as Deserializable>::deserialize(data, pos, depth)?;
        match disc {
            0 => Ok(DerivedEnum::Unit),
            1 => {
                let a = <u8 as Deserializable>::deserialize(data, pos, depth)?;
                let b = <u8 as Deserializable>::deserialize(data, pos, depth)?;
                Ok(DerivedEnum::Tuple(a, b))
            }
            2 => {
                let foo = <u8 as Deserializable>::deserialize(data, pos, depth)?;
                let bar = <u8 as Deserializable>::deserialize(data, pos, depth)?;
                Ok(DerivedEnum::Struct { foo, bar })
            }
            _ => Err(CodecError::InvalidData),
        }
    }
}

#[test]
fn serialize_serializable() {
    let mut writer = Vec::new();
    let value = SerializableStruct { foo: 5, bar: 10 };
    serialize(&value, &mut writer, NetworkId::Undeployed).unwrap();
    assert_eq!(
        value,
        deserialize(writer.as_slice(), NetworkId::Undeployed).unwrap()
    );
}

#[test]
fn serialize_versioned() {
    let mut writer = Vec::new();
    let value = VersionedStruct { foo: 2, bar: 5 };
    serialize(&value, &mut writer, NetworkId::Undeployed).unwrap();

    assert_eq!(writer[1], 1); // Major Version
    assert_eq!(writer[2], 0); // Minor Version
    assert_eq!(
        value,
        deserialize(writer.as_slice(), NetworkId::Undeployed).unwrap()
    );
}

#[test]
fn serialize_vec_serializable() {
    let mut writer = Vec::new();
    let value: Vec<SerializableStruct> = vec![SerializableStruct { foo: 4, bar: 10 }; 3];
    serialize(&value, &mut writer, NetworkId::Undeployed).unwrap();
    assert_eq!(writer[0], 3); // Size
    let result: Vec<SerializableStruct> =
        deserialize(writer.as_slice(), NetworkId::Undeployed).unwrap();
    assert_eq!(value, result);
}

#[test]
fn serialize_vec_versioned() {
    let mut writer = Vec::new();
    let value: Vec<VersionedStruct> = vec![VersionedStruct { foo: 4, bar: 10 }; 3];
    serialize(&value, &mut writer, NetworkId::DevNet).unwrap();
    assert_eq!(writer[0], 1); // NetworkId
    assert_eq!(writer[1], 3); // Size
    let result: Vec<VersionedStruct> = deserialize(writer.as_slice(), NetworkId::DevNet).unwrap();
    assert_eq!(value, result);
}

#[test]
fn serialize_tuple() {
    let mut writer = Vec::new();
    let value: (SerializableStruct, VersionedStruct) = (
        SerializableStruct { foo: 5, bar: 11 },
        VersionedStruct { foo: 4, bar: 10 },
    );
    serialize(&value, &mut writer, NetworkId::Undeployed).unwrap();
    let result = deserialize(writer.as_slice(), NetworkId::Undeployed).unwrap();
    assert_eq!(value, result);
}

#[test]
fn serialize_ref_tuple() {
    let mut writer = Vec::new();
    let a = SerializableStruct { foo: 5, bar: 11 };
    let b = VersionedStruct { foo: 4, bar: 10 };
    let value = (&a, &b);
    serialize(&value, &mut writer, NetworkId::Undeployed).unwrap();
    let result: (SerializableStruct, VersionedStruct) =
        deserialize(writer.as_slice(), NetworkId::Undeployed).unwrap();
    assert_eq!(*value.0, result.0);
    assert_eq!(*value.1, result.1);
}

#[test]
fn error_on_too_few_bytes() {
    let mut writer = Vec::new();
    let value = SerializableStruct { foo: 5, bar: 11 };
    serialize(&value, &mut writer, NetworkId::Undeployed).unwrap();
    writer.pop();
    assert!(
        deserialize::<SerializableStruct>(writer.as_slice(), NetworkId::Undeployed).is_err()
    );
}

#[test]
fn error_on_left_over_bytes() {
    let mut writer = Vec::new();
    let value = SerializableStruct { foo: 5, bar: 11 };
    writer.push(0);
    serialize(&value, &mut writer, NetworkId::Undeployed).unwrap();
    assert!(
        deserialize::<SerializableStruct>(writer.as_slice(), NetworkId::Undeployed).is_err()
    );
}

#[test]
fn derive_serializable() {
    let mut writer = Vec::new();
    let value = DerivedSerializable {
        serializable: SerializableStruct { foo: 4, bar: 5 },
        versioned: VersionedStruct { foo: 6, bar: 7 },
    };
    serialize(&value, &mut writer, NetworkId::Undeployed).unwrap();
    assert_eq!(
        value,
        deserialize(writer.as_slice(), NetworkId::Undeployed).unwrap()
    );
}

#[test]
fn option_serializable() {
    let mut writer = Vec::new();

    let some_val: Option<VersionedStruct> = Some(VersionedStruct { foo: 2, bar: 3 });
    let none_val: Option<VersionedStruct> = None;

    serialize(&some_val, &mut writer, NetworkId::Undeployed).unwrap();
    assert_eq!(
        some_val,
        deserialize(writer.as_slice(), NetworkId::Undeployed).unwrap()
    );

    writer = Vec::new();
    serialize(&none_val, &mut writer, NetworkId::Undeployed).unwrap();
    assert_eq!(
        none_val,
        deserialize(writer.as_slice(), NetworkId::Undeployed).unwrap()
    );
}

#[test]
fn serialized_size() {
    let ss = SerializableStruct { foo: 1, bar: 2 };
    let vs = VersionedStruct { foo: 3, bar: 4 };
    let ds = DerivedSerializable {
        serializable: ss.clone(),
        versioned: vs.clone(),
    };
    assert_eq!(128, SerializableStruct::serialized_size(&ss));
    assert_eq!(130, VersionedStruct::serialized_size(&vs));
    assert_eq!(258, DerivedSerializable::serialized_size(&ds));
}

#[test]
fn enum_derive() {
    let unit = DerivedEnum::Unit;
    let tuple = DerivedEnum::Tuple(2, 3);
    let strct = DerivedEnum::Struct { foo: 1, bar: 4 };

    let mut writer = Vec::new();
    serialize(&unit, &mut writer, NetworkId::Undeployed).unwrap();
    assert_eq!(
        unit,
        deserialize(writer.as_slice(), NetworkId::Undeployed).unwrap()
    );

    writer = Vec::new();
    serialize(&tuple, &mut writer, NetworkId::Undeployed).unwrap();
    assert_eq!(
        tuple,
        deserialize(writer.as_slice(), NetworkId::Undeployed).unwrap()
    );

    writer = Vec::new();
    serialize(&strct, &mut writer, NetworkId::Undeployed).unwrap();
    assert_eq!(
        strct,
        deserialize(writer.as_slice(), NetworkId::Undeployed).unwrap()
    );
}

enum Recursive {
    Leaf,
    Node(Box<Recursive>),
}

impl DeepView for Recursive {
    type V = ();

    fn deep_view(&self) -> Self::V {}
}

impl Versioned for Recursive {
    fn version() -> Option<Version> {
        None
    }
    fn network_specific() -> bool {
        false
    }
    fn limit_recursion() -> bool {
        true
    }
}

impl Serializable for Recursive {
    fn unversioned_serialize(value: &Self, out: &mut Vec<u8>) -> Result<(), CodecError> {
        match value {
            Recursive::Leaf => <u8 as Serializable>::serialize(&0, out),
            Recursive::Node(child) => {
                <u8 as Serializable>::serialize(&1, out)?;
                Recursive::serialize(child, out)
            }
        }
    }

    fn unversioned_serialized_size(value: &Self) -> usize {
        match value {
            Recursive::Leaf => 1,
            Recursive::Node(child) => 1 + Recursive::serialized_size(child),
        }
    }
}

impl Deserializable for Recursive {
    fn versioned_deserialize(
        data: &[u8],
        pos: &mut usize,
        _version: Option<Version>,
        depth: u32,
    ) -> Result<Self, CodecError> {
        let det = <u8 as Deserializable>::deserialize(data, pos, depth)?;
        match det {
            0 => Ok(Recursive::Leaf),
            1 => Ok(Recursive::Node(Box::new(Recursive::deserialize(data, pos, depth)?))),
            _ => unreachable!(),
        }
    }
}

#[test]
fn recursive_limit() {
    let mut value = Recursive::Leaf;
    for _ in 0..(RECURSION_LIMIT + 1) {
        value = Recursive::Node(Box::new(value));
    }

    let mut bytes: Vec<u8> = Vec::new();
    serialize(&value, &mut bytes, NetworkId::Undeployed).unwrap();
    let res: Result<Recursive, CodecError> = deserialize(bytes.as_slice(), NetworkId::Undeployed);
    assert!(res.is_err())
}

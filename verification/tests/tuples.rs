use midnight_ledger::codec::{Deserializable, Serializable};
use midnight_ledger::entry::{deserialize, serialize};
use midnight_ledger::hash::HashOutput;
use midnight_ledger::coin::TokenType;
use midnight_ledger::versioned::NetworkId;

#[test]
fn one_tuple_is_its_component() {
    let mut out = Vec::new();
    <(u32,) as Serializable>::serialize(&(7u32,), &mut out).unwrap();
    assert_eq!(out, vec![7, 0, 0, 0]);
    let mut pos = 0usize;
    assert_eq!(<(u32,) as Deserializable>::deserialize(&out, &mut pos, 0).unwrap(), (7u32,));
}

#[test]
fn four_tuple_roundtrip() {
    let value = (1u8, 2u16, true, TokenType(HashOutput([5u8; 32])));
    let mut out = Vec::new();
    serialize(&value, &mut out, NetworkId::TestNet).unwrap();
    assert_eq!(out[0], 2);
    assert_eq!(out.len(), 1 + 1 + 2 + 1 + 2 + 32);
    let back: (u8, u16, bool, TokenType) = deserialize(&out, NetworkId::TestNet).unwrap();
    assert_eq!(back, value);
}

#[test]
fn seven_tuple_roundtrip() {
    let value = (1u8, 2u16, 3u32, 4u64, 5u128, false, 7i64);
    let mut out = Vec::new();
    serialize(&value, &mut out, NetworkId::Undeployed).unwrap();
    assert_eq!(out.len(), 1 + 2 + 4 + 8 + 16 + 1 + 8);
    let back: (u8, u16, u32, u64, u128, bool, i64) = deserialize(&out, NetworkId::Undeployed).unwrap();
    assert_eq!(back, value);
}

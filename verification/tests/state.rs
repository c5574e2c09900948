use midnight_ledger::compact::{int_size, read_int, write_int};
use midnight_ledger::hash::HashOutput;
use midnight_ledger::state::{
    AlignedValue, BoundedMerkleTree, ContractOperation, ContractOperationVersion,
    ContractOperationVersionedVerifierKey, EntryPointBuf, StateValue, VerifierKey,
};
use midnight_ledger::codec::{Deserializable, Serializable};
use sha2::Digest;

fn test_compact_int(x: u64) {
    let mut bytes = Vec::new();
    write_int(&mut bytes, x).unwrap();
    let mut pos = 0usize;
    let y = read_int(&bytes, &mut pos).unwrap();
    assert_eq!(x, y);
    assert_eq!(pos, bytes.len());
}

#[test]
fn test_ints() {
    test_compact_int(0x0);
    test_compact_int(0x1);
    test_compact_int(0x42);
    test_compact_int(0x80);
    test_compact_int(0xff);
    test_compact_int(0x100);
    test_compact_int(0x1000);
    test_compact_int(0x10000);
}

#[test]
fn test_nested_drop() {
    let mut sv: StateValue = StateValue::Null;
    for i in 0..12_000 {
        sv = StateValue::Array(vec![sv]);
        if i % 100 == 0 {
            let _ = i;
        }
    }
    drop(sv);
    println!("drop(sv) finished!");
}

#[test]
fn compact_int_encodings() {
    let mut bytes = Vec::new();
    write_int(&mut bytes, 0x7f).unwrap();
    assert_eq!(bytes, vec![0x7f]);
    bytes.clear();
    write_int(&mut bytes, 0x80).unwrap();
    assert_eq!(bytes, vec![0x80, 0x01]);
    bytes.clear();
    write_int(&mut bytes, 0x4000).unwrap();
    assert_eq!(bytes, vec![0x80, 0x80, 0x01]);
    assert_eq!(int_size(0x7f), 1);
    assert_eq!(int_size(0x3fff), 2);
    assert_eq!(int_size(0x1fffff), 3);
    assert_eq!(int_size(0x200000), 4);
}

#[test]
fn compact_int_too_large_is_refused() {
    let mut bytes = vec![9u8];
    assert!(write_int(&mut bytes, 0x200000).is_err());
    assert_eq!(bytes, vec![9u8]);
}

#[test]
fn compact_int_reserved_range_is_refused() {
    let bytes = vec![0x80u8, 0x80, 0x80];
    let mut pos = 0usize;
    assert!(read_int(&bytes, &mut pos).is_err());
    let short = vec![0x80u8];
    let mut pos = 0usize;
    assert!(read_int(&short, &mut pos).is_err());
}

#[test]
fn log_size_of_each_kind() {
    assert_eq!(StateValue::Null.log_size(), 0);
    assert_eq!(StateValue::Cell(AlignedValue(vec![1, 2, 3])).log_size(), 1);
    assert_eq!(StateValue::Array(vec![StateValue::Null, StateValue::Null]).log_size(), 1);
    let tree = BoundedMerkleTree { height: 12, leaves: vec![] };
    assert_eq!(StateValue::BoundedMerkleTree(tree).log_size(), 12);
    let map = |n: usize| {
        StateValue::Mapping(
            (0..n).map(|i| (AlignedValue(vec![i as u8]), StateValue::Null)).collect(),
        )
    };
    assert_eq!(map(0).log_size(), 0);
    assert_eq!(map(1).log_size(), 0);
    assert_eq!(map(2).log_size(), 1);
    assert_eq!(map(3).log_size(), 2);
    assert_eq!(map(4).log_size(), 2);
    assert_eq!(map(5).log_size(), 3);
    assert_eq!(map(200).log_size(), 8);
}

#[test]
fn ep_hash_commits_to_the_name() {
    let ep = EntryPointBuf(b"increment".to_vec());
    let mut preimage = b"midnight:entry-point".to_vec();
    preimage.extend_from_slice(&[0u8; 12]);
    preimage.extend_from_slice(b"increment");
    let expected: [u8; 32] = sha2::Sha256::digest(&preimage).into();
    assert_eq!(ep.ep_hash(), HashOutput(expected));
    assert_ne!(ep.ep_hash(), EntryPointBuf(b"decrement".to_vec()).ep_hash());
}

#[test]
fn contract_operation_keys() {
    let mut op = ContractOperation::new(None);
    assert!(op.latest().is_none());
    assert!(!ContractOperationVersion::V2.has(&op));
    *op.latest_mut() = Some(VerifierKey(vec![1, 2, 3]));
    assert_eq!(op.latest().unwrap().0, vec![1, 2, 3]);
    assert!(ContractOperationVersion::V2.has(&op));
    ContractOperationVersion::V2.rm_from(&mut op);
    assert!(op.latest().is_none());
    let vk = ContractOperationVersionedVerifierKey::V2(VerifierKey(vec![7, 8]));
    assert_eq!(vk.as_version(), ContractOperationVersion::V2);
    vk.insert_into(&mut op);
    assert_eq!(op.latest().unwrap().0, vec![7, 8]);
}

#[test]
fn contract_operation_version_codec() {
    let mut out = Vec::new();
    <ContractOperationVersion as Serializable>::serialize(&ContractOperationVersion::V2, &mut out).unwrap();
    assert_eq!(out, vec![1u8]);
    let mut pos = 0usize;
    assert_eq!(
        <ContractOperationVersion as Deserializable>::deserialize(&out, &mut pos, 0).unwrap(),
        ContractOperationVersion::V2
    );
    let mut pos = 0usize;
    assert!(<ContractOperationVersion as Deserializable>::deserialize(&[0u8], &mut pos, 0).is_err());
    let mut pos = 0usize;
    assert!(<ContractOperationVersion as Deserializable>::deserialize(&[2u8], &mut pos, 0).is_err());
}

#[test]
fn state_value_duplicate_is_deep() {
    let sv = StateValue::Array(vec![
        StateValue::Cell(AlignedValue(vec![4, 5])),
        StateValue::Mapping(vec![(AlignedValue(vec![1]), StateValue::Null)]),
    ]);
    let copy = sv.duplicate();
    match copy {
        StateValue::Array(items) => {
            assert_eq!(items.len(), 2);
            match &items[0] {
                StateValue::Cell(c) => assert_eq!(c.0, vec![4, 5]),
                _ => panic!("expected a cell"),
            }
            match &items[1] {
                StateValue::Mapping(m) => assert_eq!(m.len(), 1),
                _ => panic!("expected a map"),
            }
        }
        _ => panic!("expected an array"),
    }
}

#[test]
fn merkle_tree_roundtrip() {
    let tree = BoundedMerkleTree {
        height: 12,
        leaves: vec![(0, HashOutput([1u8; 32])), (200, HashOutput([2u8; 32])), (4095, HashOutput([3u8; 32]))],
    };
    let mut bytes = Vec::new();
    tree.write_tagged(&mut bytes).unwrap();
    assert_eq!(bytes[0], 0b1100_0000 | 11);
    assert_eq!(bytes[1], 3);
    assert_eq!(bytes.len(), tree.tagged_size());
    let mut pos = 0usize;
    let back = BoundedMerkleTree::read_tagged(&bytes, &mut pos).unwrap();
    assert_eq!(pos, bytes.len());
    assert_eq!(back.height, 12);
    assert_eq!(back.leaves, tree.leaves);
}

#[test]
fn merkle_tree_bad_height_is_refused() {
    let mut bytes = Vec::new();
    assert!(BoundedMerkleTree { height: 0, leaves: vec![] }.write_tagged(&mut bytes).is_err());
    let mut bytes = Vec::new();
    assert!(BoundedMerkleTree { height: 33, leaves: vec![] }.write_tagged(&mut bytes).is_err());
    let mut bytes = Vec::new();
    BoundedMerkleTree { height: 32, leaves: vec![] }.write_tagged(&mut bytes).unwrap();
    assert_eq!(bytes, vec![0b1101_1111, 0]);
}

#[test]
fn merkle_tree_index_out_of_bounds_is_refused() {
    let mut bytes = vec![0b1100_0001u8, 1, 4];
    bytes.extend_from_slice(&[0u8; 32]);
    let mut pos = 0usize;
    assert!(BoundedMerkleTree::read_tagged(&bytes, &mut pos).is_err());
    let mut ok = vec![0b1100_0001u8, 1, 3];
    ok.extend_from_slice(&[0u8; 32]);
    let mut pos = 0usize;
    assert_eq!(BoundedMerkleTree::read_tagged(&ok, &mut pos).unwrap().leaves[0].0, 3);
}

#[test]
fn merkle_tree_unordered_leaves_are_refused() {
    let mut bytes = vec![0b1100_0111u8, 2, 5];
    bytes.extend_from_slice(&[0u8; 32]);
    bytes.push(5);
    bytes.extend_from_slice(&[1u8; 32]);
    let mut pos = 0usize;
    assert!(BoundedMerkleTree::read_tagged(&bytes, &mut pos).is_err());
}

#[test]
fn merkle_tree_wrong_tag_is_refused() {
    let bytes = vec![0b1110_0000u8, 0];
    let mut pos = 0usize;
    assert!(BoundedMerkleTree::read_tagged(&bytes, &mut pos).is_err());
}

#[test]
fn entry_point_codec() {
    let ep = EntryPointBuf(b"mint".to_vec());
    let mut bytes = Vec::new();
    <EntryPointBuf as Serializable>::serialize(&ep, &mut bytes).unwrap();
    assert_eq!(bytes, vec![4, 0, 0, 0, b'm', b'i', b'n', b't']);
    assert_eq!(<EntryPointBuf as Serializable>::serialized_size(&ep), 8);
    let mut pos = 0usize;
    let back = <EntryPointBuf as Deserializable>::deserialize(&bytes, &mut pos, 0).unwrap();
    assert_eq!(back.0, ep.0);
    let mut pos = 0usize;
    assert!(<EntryPointBuf as Deserializable>::deserialize(&bytes[..6], &mut pos, 0).is_err());
}

#[test]
fn entry_point_shown_as_text() {
    assert!(EntryPointBuf(b"get_count".to_vec()).shows_as_text());
    assert!(EntryPointBuf(b"a+b-c/d\\e?#$^*&.'\":".to_vec()).shows_as_text());
    assert!(EntryPointBuf(Vec::new()).shows_as_text());
    assert!(!EntryPointBuf(b"with space".to_vec()).shows_as_text());
    assert!(!EntryPointBuf(b"50%".to_vec()).shows_as_text());
    assert!(!EntryPointBuf(vec![0xff]).shows_as_text());
}

use midnight_ledger::coin::{Commitment, Info, Nonce, Nullifier, PublicKey, QualifiedInfo, SecretKey, TokenType};
use midnight_ledger::contract::Address;
use midnight_ledger::entry::deserialize;
use midnight_ledger::hash::{persistent_commit, persistent_hash, HashOutput};
use midnight_ledger::transfer::{Recipient, SenderEvidence};
use midnight_ledger::versioned::NetworkId;
use sha2::Digest;

/// A version-2.0 encoding for the undeployed network: network byte, version, body.
fn v2_undeployed(body: &[u8]) -> Vec<u8> {
    let mut bytes = vec![0u8, 2, 0];
    bytes.extend_from_slice(body);
    bytes
}

#[test]
fn test_secret_key_versioned_deserialize() {
    let bytes = v2_undeployed(&[0x11; 32]);
    let sk: SecretKey = deserialize(&bytes, NetworkId::Undeployed).unwrap();
    assert_eq!(sk, SecretKey(HashOutput([0x11; 32])));
}

#[test]
fn test_token_type_versioned_deserialize() {
    let bytes = v2_undeployed(&[0x22; 32]);
    let tt: TokenType = deserialize(&bytes, NetworkId::Undeployed).unwrap();
    assert_eq!(tt, TokenType(HashOutput([0x22; 32])));
}

#[test]
fn test_info_versioned_deserialize() {
    let mut body = vec![0x33u8; 32];
    body.extend_from_slice(&[2, 0]);
    body.extend_from_slice(&[0x44; 32]);
    body.extend_from_slice(&42u128.to_le_bytes());
    let info: Info = deserialize(&v2_undeployed(&body), NetworkId::Undeployed).unwrap();
    assert_eq!(
        info,
        Info { nonce: Nonce(HashOutput([0x33; 32])), type_: TokenType(HashOutput([0x44; 32])), value: 42 }
    );
}

#[test]
fn test_qualified_info_versioned_deserialize() {
    let mut body = vec![0x33u8; 32];
    body.extend_from_slice(&[2, 0]);
    body.extend_from_slice(&[0x44; 32]);
    body.extend_from_slice(&42u128.to_le_bytes());
    body.extend_from_slice(&7u64.to_le_bytes());
    let qi: QualifiedInfo = deserialize(&v2_undeployed(&body), NetworkId::Undeployed).unwrap();
    assert_eq!(qi.value, 42);
    assert_eq!(qi.mt_index, 7);
    assert_eq!(qi.nonce, Nonce(HashOutput([0x33; 32])));
}

#[test]
fn static_deserialize_address() {
    let bytes = v2_undeployed(&[0x55; 32]);
    let addr: Address = deserialize(&bytes, NetworkId::Undeployed).unwrap();
    assert_eq!(addr, Address(HashOutput([0x55; 32])));
}

#[test]
fn persistent_hash_is_sha256() {
    let expected: [u8; 32] = sha2::Sha256::digest(b"abc").into();
    assert_eq!(persistent_hash(b"abc"), HashOutput(expected));
}

#[test]
fn persistent_commit_hashes_opening_then_value() {
    let opening = HashOutput([9u8; 32]);
    let value = 5u64;
    let mut pre = vec![9u8; 32];
    pre.extend_from_slice(&5u64.to_le_bytes());
    let expected: [u8; 32] = sha2::Sha256::digest(&pre).into();
    assert_eq!(persistent_commit(&value, opening), HashOutput(expected));
}

fn sample_info() -> Info {
    Info { nonce: Nonce(HashOutput([1u8; 32])), type_: TokenType(HashOutput([2u8; 32])), value: 1000 }
}

#[test]
fn commitment_depends_on_recipient() {
    let info = sample_info();
    let pk = PublicKey(HashOutput([3u8; 32]));
    let user = info.commitment(&Recipient::User(pk));
    let contract = info.commitment(&Recipient::Contract(Address(HashOutput([3u8; 32]))));
    assert_ne!(user, contract);
    let mut pre = Vec::new();
    pre.extend_from_slice(&[1u8; 32]);
    pre.extend_from_slice(&[2u8; 32]);
    pre.extend_from_slice(&1000u128.to_le_bytes());
    pre.push(1);
    pre.extend_from_slice(&[3u8; 32]);
    pre.extend_from_slice(b"mdn:cc");
    let expected: [u8; 32] = sha2::Sha256::digest(&pre).into();
    assert_eq!(user, Commitment(HashOutput(expected)));
}

#[test]
fn nullifier_matches_sender() {
    let info = sample_info();
    let sk = SecretKey(HashOutput([4u8; 32]));
    let n = info.nullifier(&SenderEvidence::User(sk));
    let mut pre = Vec::new();
    pre.extend_from_slice(&[1u8; 32]);
    pre.extend_from_slice(&[2u8; 32]);
    pre.extend_from_slice(&1000u128.to_le_bytes());
    pre.push(1);
    pre.extend_from_slice(&[4u8; 32]);
    pre.extend_from_slice(b"mdn:cn");
    let expected: [u8; 32] = sha2::Sha256::digest(&pre).into();
    assert_eq!(n, Nullifier(HashOutput(expected)));
}

#[test]
fn public_key_hashes_secret_key() {
    let sk = SecretKey(HashOutput([6u8; 32]));
    let mut pre = vec![6u8; 32];
    pre.extend_from_slice(b"mdn:pk");
    let expected: [u8; 32] = sha2::Sha256::digest(&pre).into();
    assert_eq!(sk.public_key(), PublicKey(HashOutput(expected)));
}

#[test]
fn qualify_then_unqualify() {
    let info = sample_info();
    let q = info.qualify(12);
    assert_eq!(q.mt_index, 12);
    assert_eq!(Info::from(&q), info);
}

#[test]
fn random_info_has_fresh_nonce() {
    let a = Info::new(5, TokenType(HashOutput([0u8; 32])));
    let b = Info::new(5, TokenType(HashOutput([0u8; 32])));
    assert_eq!(a.value, 5);
    assert_ne!(a.nonce, b.nonce);
}

#[test]
fn custom_token_type_differs_by_domain() {
    let addr = Address(HashOutput([8u8; 32]));
    let a = addr.custom_token_type(HashOutput([0u8; 32]));
    let b = addr.custom_token_type(HashOutput([1u8; 32]));
    assert_ne!(a, b);
    let mut pre = b"midnight:derive_token".to_vec();
    pre.extend_from_slice(&[0u8; 11]);
    pre.extend_from_slice(&[0u8; 32]);
    pre.extend_from_slice(&[8u8; 32]);
    let expected: [u8; 32] = sha2::Sha256::digest(&pre).into();
    assert_eq!(a, TokenType(HashOutput(expected)));
}

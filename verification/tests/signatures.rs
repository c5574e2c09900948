use midnight_ledger::codec::{Deserializable, Serializable};
use midnight_ledger::maintenance::ContractMaintenanceAuthority;
use midnight_ledger::signatures::{Signature, SigningKey, VerifyingKey};

fn roundtrip<T: Serializable + Deserializable>(value: &T) -> (Vec<u8>, T) {
    let mut bytes = Vec::new();
    T::serialize(value, &mut bytes).unwrap();
    assert_eq!(bytes.len(), T::serialized_size(value));
    let mut pos = 0usize;
    let back = T::deserialize(&bytes, &mut pos, 0).unwrap();
    assert_eq!(pos, bytes.len());
    (bytes, back)
}

#[test]
fn sign_then_verify() {
    let sk = SigningKey::sample();
    let vk = sk.verifying_key();
    let sig = sk.sign(b"hello");
    assert!(vk.verify(b"hello", &sig));
    assert!(!vk.verify(b"hellp", &sig));
    let other = SigningKey::sample().verifying_key();
    assert!(!other.verify(b"hello", &sig));
}

#[test]
fn verifying_key_codec() {
    let vk = SigningKey::sample().verifying_key();
    let (bytes, back) = roundtrip(&vk);
    assert_eq!(&bytes[0..2], &[1, 0]);
    assert_eq!(bytes.len(), 34);
    assert_eq!(back, vk);
    let mut bad = vec![1u8, 0];
    bad.extend_from_slice(&[0xff; 32]);
    let mut pos = 0usize;
    assert!(<VerifyingKey as Deserializable>::deserialize(&bad, &mut pos, 0).is_err());
}

#[test]
fn signature_codec() {
    let sig = SigningKey::sample().sign(b"msg");
    let (bytes, back) = roundtrip(&sig);
    assert_eq!(bytes.len(), 66);
    assert_eq!(back, sig);
    let mut bad = vec![1u8, 0];
    bad.extend_from_slice(&[0u8; 64]);
    let mut pos = 0usize;
    assert!(<Signature as Deserializable>::deserialize(&bad, &mut pos, 0).is_err());
}

#[test]
fn signing_key_codec() {
    let sk = SigningKey::sample();
    let (bytes, back) = roundtrip(&sk);
    assert_eq!(bytes.len(), 34);
    assert_eq!(back.verifying_key(), sk.verifying_key());
    let mut zero = vec![1u8, 0];
    zero.extend_from_slice(&[0u8; 32]);
    let mut pos = 0usize;
    assert!(<SigningKey as Deserializable>::deserialize(&zero, &mut pos, 0).is_err());
    let mut one = [0u8; 32];
    one[31] = 1;
    assert!(SigningKey::from_bytes(one).is_some());
    assert!(SigningKey::from_bytes([0u8; 32]).is_none());
}

#[test]
fn maintenance_authority_codec() {
    let auth = ContractMaintenanceAuthority::new();
    assert_eq!(auth.threshold, 1);
    assert_eq!(auth.counter, 0);
    let (bytes, back) = roundtrip(&auth);
    assert_eq!(bytes, vec![1, 0, 0, 0, 0, 0, 1, 0, 0, 0, 0, 0, 0, 0]);
    assert_eq!(back, auth);
    let committee = vec![SigningKey::sample().verifying_key(), SigningKey::sample().verifying_key()];
    let auth = ContractMaintenanceAuthority { committee, threshold: 2, counter: 7 };
    let (bytes, back) = roundtrip(&auth);
    assert_eq!(bytes.len(), 2 + 4 + 2 * 34 + 8);
    assert_eq!(back, auth);
}

#[test]
fn signature_by_key_verifies_on_any_message() {
    let sk = SigningKey::sample();
    let vk = sk.verifying_key();
    for msg in [&b""[..], &b"midnight:contract-update:"[..], &[0u8; 100][..]] {
        let sig = sk.sign(msg);
        assert!(vk.verify(msg, &sig));
    }
}

#[test]
fn signing_key_bytes_are_normalized() {
    // n - 1, the negation of one: its point -G has an odd y-coordinate, so the
    // key keeps the scalar one, with the same x-only public key.
    let minus_one: [u8; 32] = [
        0xff, 0xff, 0xff, 0xff, 0xff, 0xff, 0xff, 0xff, 0xff, 0xff, 0xff, 0xff, 0xff, 0xff, 0xff, 0xfe,
        0xba, 0xae, 0xdc, 0xe6, 0xaf, 0x48, 0xa0, 0x3b, 0xbf, 0xd2, 0x5e, 0x8c, 0xd0, 0x36, 0x41, 0x40,
    ];
    let mut one = [0u8; 32];
    one[31] = 1;
    let k = SigningKey::from_bytes(minus_one).unwrap();
    let mut out = Vec::new();
    SigningKey::serialize(&k, &mut out).unwrap();
    assert_eq!(&out[2..], &one[..]);
    assert_eq!(k.verifying_key(), SigningKey::from_bytes(one).unwrap().verifying_key());
    let mut pos = 0usize;
    let back = SigningKey::deserialize(&out, &mut pos, 0).unwrap();
    let mut again = Vec::new();
    SigningKey::serialize(&back, &mut again).unwrap();
    assert_eq!(again, out);
}

#[test]
fn verifying_key_from_bytes() {
    let vk = SigningKey::sample().verifying_key();
    assert_eq!(VerifyingKey::from_bytes(*vk.as_bytes()), Some(vk));
    assert!(VerifyingKey::from_bytes([0xffu8; 32]).is_none());
}

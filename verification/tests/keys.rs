//! Tests of the identity layer: key codecs, ordering, signing and
//! verification, run against the real cryptographic libraries.

use sn_membership::error::Error;
use sn_membership::keys::{Keypair, PublicKey, Signature};
use sn_membership::xor_name::XorName;

fn bls_secret_key_set() -> blsttc::SecretKeySet {
    // a degree-zero polynomial: one elder, threshold zero
    let mut bytes = vec![0u8; 32];
    bytes[31] = 7;
    blsttc::SecretKeySet::from_bytes(bytes).expect("a small scalar is a valid polynomial")
}

fn gen_keys() -> Vec<PublicKey> {
    let ed_pk = ed25519_dalek::SigningKey::from_bytes(&[7u8; 32]).verifying_key();
    let sks = bls_secret_key_set();
    let bls_pk = sks.public_keys().public_key();
    let share_pk = sks.public_keys().public_key_share(0u64);
    vec![
        PublicKey::Ed25519(ed_pk.to_bytes()),
        PublicKey::Bls(bls_pk.to_bytes()),
        PublicKey::BlsShare(share_pk.to_bytes()),
    ]
}

#[test]
fn zbase32_encode_decode_public_key() {
    let keys = gen_keys();
    for key in keys {
        assert_eq!(
            key,
            PublicKey::decode_from_zbase32(&key.encode_to_zbase32().unwrap()).unwrap()
        );
    }
}

#[test]
fn serialisation_public_key() {
    let keys = gen_keys();
    for key in keys {
        let encoded = key.serialize();
        let decoded = PublicKey::deserialize(&encoded).unwrap();
        assert_eq!(decoded, key);
    }
}

#[test]
fn zbase32_known_values() {
    // one zero byte: five zero bits then three zero bits padded
    let pk = PublicKey::Ed25519([0u8; 32]);
    let encoded = pk.encode_to_zbase32().unwrap();
    // tag byte 0 then 32 zero bytes: 33 bytes, 53 characters, all 'y'
    assert_eq!(encoded.len(), 53);
    assert!(encoded.chars().all(|c| c == 'y'));
}

#[test]
fn zbase32_rejects_bad_input() {
    assert!(matches!(
        PublicKey::decode_from_zbase32("not valid!"),
        Err(Error::FailedToParse(_))
    ));
    // valid alphabet, but not a serialised key
    assert!(matches!(
        PublicKey::decode_from_zbase32("yyyy"),
        Err(Error::FailedToParse(_))
    ));
}

#[test]
fn deserialize_rejects_bad_tag() {
    let mut bytes = vec![9u8];
    bytes.extend_from_slice(&[0u8; 32]);
    assert!(matches!(
        PublicKey::deserialize(&bytes),
        Err(Error::FailedToParse(_))
    ));
}

#[test]
fn key_order_follows_serialisation() {
    let keys = gen_keys();
    for a in &keys {
        for b in &keys {
            let by_keys = a.partial_cmp(b).unwrap();
            let by_bytes = a.serialize().cmp(&b.serialize());
            assert_eq!(by_keys, by_bytes);
        }
    }
    // the ed25519 variant's tag sorts before the BLS tags
    assert!(keys[0] < keys[1]);
    assert!(keys[1] < keys[2]);
}

#[test]
fn sign_then_verify_succeeds() {
    let keypair = Keypair::ed25519_from_sk_bytes([3u8; 32]);
    let pk = keypair.public_key();
    let msg = b"the quick brown fox";
    let sig = keypair.sign(msg);
    assert_eq!(pk.verify(&sig, msg), Ok(()));
}

#[test]
fn tampered_signature_is_invalid() {
    let keypair = Keypair::ed25519_from_sk_bytes([3u8; 32]);
    let pk = keypair.public_key();
    let msg = b"the quick brown fox";
    let sig = keypair.sign(msg);
    assert_eq!(pk.verify(&sig, b"another message"), Err(Error::InvalidSignature));
}

#[test]
fn variant_mismatch_is_its_own_error() {
    let keypair = Keypair::ed25519_from_sk_bytes([3u8; 32]);
    let pk = keypair.public_key();
    let bls_sig = Signature::Bls([0u8; 96]);
    // never InvalidSignature: the variants already disagree
    assert_eq!(pk.verify(&bls_sig, b"msg"), Err(Error::SigningKeyTypeMismatch));
    let share_sig = Signature::BlsShare { index: 0, share: [0u8; 96] };
    assert_eq!(pk.verify(&share_sig, b"msg"), Err(Error::SigningKeyTypeMismatch));
}

#[test]
fn bls_share_sign_then_verify_succeeds() {
    let sks = bls_secret_key_set();
    let sk_bytes = sks.secret_key_share(0u64).to_bytes();
    let keypair = Keypair::bls_share_from_sk_bytes(0, sk_bytes).unwrap();
    let pk = keypair.public_key();
    let msg = b"share me";
    let sig = keypair.sign(msg);
    assert_eq!(pk.verify(&sig, msg), Ok(()));
}

#[test]
fn hex_round_trip_matches_reference() {
    let keys = gen_keys();
    for key in keys {
        let ours = key.to_hex();
        let reference = hex::encode(key.to_bytes());
        assert_eq!(ours, reference);
        assert_eq!(key.to_hex_upper(), hex::encode_upper(key.to_bytes()));
    }
}

#[test]
fn ed25519_from_hex_round_trip() {
    let ed_pk = ed25519_dalek::SigningKey::from_bytes(&[9u8; 32]).verifying_key();
    let key = PublicKey::Ed25519(ed_pk.to_bytes());
    let parsed = PublicKey::ed25519_from_hex(&key.to_hex()).unwrap();
    assert_eq!(parsed, key);
    // upper-case hex parses too
    let parsed_upper = PublicKey::ed25519_from_hex(&key.to_hex_upper()).unwrap();
    assert_eq!(parsed_upper, key);
}

#[test]
fn ed25519_from_hex_rejects_bad_input() {
    assert!(matches!(
        PublicKey::ed25519_from_hex("zz"),
        Err(Error::FailedToParse(_))
    ));
    // valid hex of the wrong length
    assert!(matches!(
        PublicKey::ed25519_from_hex("abcd"),
        Err(Error::FailedToParse(_))
    ));
}

#[test]
fn bls_from_hex_round_trip() {
    let sks = bls_secret_key_set();
    let bls_pk = sks.public_keys().public_key();
    let key = PublicKey::Bls(bls_pk.to_bytes());
    let parsed = PublicKey::bls_from_hex(&key.to_hex()).unwrap();
    assert_eq!(parsed, key);
    // 32 bytes cannot be a BLS key
    let short = hex::encode([1u8; 32]);
    assert!(matches!(
        PublicKey::bls_from_hex(&short),
        Err(Error::FailedToParse(_))
    ));
}

#[test]
fn name_of_key_takes_leading_bytes() {
    let keys = gen_keys();
    let ed_name = XorName::from_public_key(&keys[0]);
    assert_eq!(ed_name.0.to_vec(), keys[0].to_bytes());
    let bls_name = XorName::from_public_key(&keys[1]);
    assert_eq!(bls_name.0.to_vec(), keys[1].to_bytes()[..32].to_vec());
}

#[test]
fn getters_return_their_variant() {
    let keys = gen_keys();
    assert!(keys[0].ed25519().is_some());
    assert!(keys[0].bls().is_none());
    assert!(keys[0].bls_share().is_none());
    assert!(keys[1].bls().is_some());
    assert!(keys[2].bls_share().is_some());
}

#[test]
fn zero_secret_share_cannot_make_a_keypair() {
    // the zero scalar's key share is the identity point; nothing it signs
    // could ever verify, so it is refused up front
    assert!(matches!(
        Keypair::bls_share_from_sk_bytes(0, [0u8; 32]),
        Err(Error::FailedToParse(_))
    ));
}

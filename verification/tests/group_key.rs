//! Tests of the quorum merge primitive.

use sn_membership::group_key::{GetGroupKeyResponse, GROUP_SIZE};
use sn_membership::keys::PublicKey;
use sn_membership::xor_name::XorName;

fn name(b: u8) -> XorName {
    let mut bytes = [0u8; 32];
    bytes[0] = b;
    XorName(bytes)
}

fn key(b: u8) -> PublicKey {
    PublicKey::Ed25519([b; 32])
}

fn pair(b: u8) -> (XorName, PublicKey) {
    (name(b), key(b))
}

#[test]
fn merge_majority_wins() {
    assert_eq!(GROUP_SIZE, 3);
    let t = name(200);
    let r0 = GetGroupKeyResponse {
        target_id: t,
        public_sign_keys: vec![pair(1), pair(2), pair(3)],
    };
    let r1 = GetGroupKeyResponse {
        target_id: t,
        public_sign_keys: vec![pair(1), pair(2), pair(3)],
    };
    let r2 = GetGroupKeyResponse {
        target_id: t,
        public_sign_keys: vec![pair(1), pair(2), pair(4)],
    };
    let merged = r0.merge(&vec![r1, r2]).unwrap();
    assert_eq!(merged.target_id, t);
    // counts: p1 and p2 three times, p3 twice, p4 once
    assert_eq!(merged.public_sign_keys, vec![pair(1), pair(2), pair(3)]);
}

#[test]
fn merge_mismatched_target_returns_none() {
    let r0 = GetGroupKeyResponse {
        target_id: name(200),
        public_sign_keys: vec![pair(1), pair(2), pair(3)],
    };
    let r1 = GetGroupKeyResponse {
        target_id: name(201),
        public_sign_keys: vec![pair(1), pair(2), pair(3)],
    };
    assert!(r0.merge(&vec![r1]).is_none());
}

#[test]
fn merge_is_idempotent_on_merge_shaped_responses() {
    // pairs already sorted by their serialised bytes, GROUP_SIZE of them
    let r = GetGroupKeyResponse {
        target_id: name(200),
        public_sign_keys: vec![pair(1), pair(2), pair(3)],
    };
    let copy = GetGroupKeyResponse {
        target_id: r.target_id,
        public_sign_keys: r.public_sign_keys.clone(),
    };
    let merged = r.merge(&vec![copy]).unwrap();
    assert_eq!(merged, r);
}

#[test]
fn merge_is_monotone_under_majority_subsets() {
    let t = name(200);
    let r0 = GetGroupKeyResponse {
        target_id: t,
        public_sign_keys: vec![pair(1), pair(2), pair(3), pair(4)],
    };
    let r1 = GetGroupKeyResponse {
        target_id: t,
        public_sign_keys: vec![pair(1), pair(2), pair(3)],
    };
    let before = r0.merge(&vec![r1.clone()]).unwrap();
    // a response whose entries all sit in the majority already
    let extra = GetGroupKeyResponse {
        target_id: t,
        public_sign_keys: before.public_sign_keys.clone(),
    };
    let after = r0.merge(&vec![r1, extra]).unwrap();
    for p in &before.public_sign_keys {
        assert!(after.public_sign_keys.contains(p));
    }
}

#[test]
fn generate_random_fills_thirty_pairs() {
    let r = GetGroupKeyResponse::generate_random();
    assert_eq!(r.public_sign_keys.len(), 30);
}

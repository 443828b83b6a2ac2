//! The trusted boundary to the cryptographic libraries.
//!
//! Every function here is a thin wrapper around one call into `ed25519-dalek`,
//! `blsttc` or `rand`; Verus believes the stated contracts without reading the
//! bodies.  What a primitive returns is named by an uninterpreted spec
//! function wherever it is a function of the arguments alone; nothing is
//! claimed of random output.

use vstd::prelude::*;

use crate::error::Error;
use ed25519_dalek::Signer;
use ed25519_dalek::Verifier;

verus! {

/// Whether 32 bytes parse as an Ed25519 public key
/// (`ed25519_dalek::VerifyingKey::from_bytes` succeeds).
pub uninterp spec fn ed_pk_parses(pk: Seq<u8>) -> bool;

/// Whether an Ed25519 signature over `msg` checks out under `pk`
/// (`ed25519_dalek::VerifyingKey::verify` succeeds).
pub uninterp spec fn ed_valid(pk: Seq<u8>, sig: Seq<u8>, msg: Seq<u8>) -> bool;

/// The public key bytes derived from an Ed25519 secret key
/// (`ed25519_dalek::SigningKey::verifying_key`).
pub uninterp spec fn ed_pk_of(sk: Seq<u8>) -> Seq<u8>;

/// The (deterministic) Ed25519 signature of `msg` under a secret key
/// (`ed25519_dalek::SigningKey::sign`).
pub uninterp spec fn ed_sig_of(sk: Seq<u8>, msg: Seq<u8>) -> Seq<u8>;

/// Whether 48 bytes parse as a BLS public key
/// (`blsttc::PublicKey::from_bytes` succeeds).
pub uninterp spec fn bls_pk_parses(pk: Seq<u8>) -> bool;

/// Whether a BLS signature over `msg` checks out under `pk`
/// (`blsttc::PublicKey::verify`).
pub uninterp spec fn bls_valid(pk: Seq<u8>, sig: Seq<u8>, msg: Seq<u8>) -> bool;

/// Whether a BLS signature share over `msg` checks out under a key share
/// (`blsttc::PublicKeyShare::verify`).
pub uninterp spec fn bls_share_valid(pk: Seq<u8>, sig: Seq<u8>, msg: Seq<u8>) -> bool;

/// Whether 32 bytes parse as a BLS secret key share
/// (`blsttc::SecretKeyShare::from_bytes` succeeds).
pub uninterp spec fn bls_sk_parses(sk: Seq<u8>) -> bool;

/// Whether 96 bytes parse as a BLS signature share
/// (`blsttc::SignatureShare::from_bytes` succeeds).
pub uninterp spec fn bls_sig_share_parses(sig: Seq<u8>) -> bool;

/// The public key share derived from a secret key share
/// (`blsttc::SecretKeyShare::public_key_share`).
pub uninterp spec fn bls_share_pk_of(sk: Seq<u8>) -> Seq<u8>;

/// The (deterministic) BLS signature share of `msg` under a secret key share
/// (`blsttc::SecretKeyShare::sign`).
pub uninterp spec fn bls_share_sig_of(sk: Seq<u8>, msg: Seq<u8>) -> Seq<u8>;

/// Whether bytes parse as a BLS public key set
/// (`blsttc::PublicKeySet::from_bytes` succeeds).
pub uninterp spec fn bls_pkset_parses(b: Seq<u8>) -> bool;

/// The section public key of a BLS public key set
/// (`blsttc::PublicKeySet::public_key`).
pub uninterp spec fn bls_pkset_pk_of(b: Seq<u8>) -> Seq<u8>;

/// The threshold of a BLS public key set (`blsttc::PublicKeySet::threshold`):
/// one more share than this is needed to combine.
pub uninterp spec fn bls_pkset_threshold_of(b: Seq<u8>) -> int;

/// The public key share a key set assigns to index `i`
/// (`blsttc::PublicKeySet::public_key_share`).
pub uninterp spec fn bls_pkset_share_pk_of(b: Seq<u8>, i: int) -> Seq<u8>;

/// The signature combined from the given shares under a key set
/// (`blsttc::PublicKeySet::combine_signatures`).
pub uninterp spec fn bls_combined_sig_of(b: Seq<u8>, shares: Seq<(u64, [u8; 96])>) -> Seq<u8>;

/// Relies on `ed25519_dalek::VerifyingKey::from_bytes`: tells whether the
/// bytes denote a point on the curve.
#[verifier::external_body]
pub(crate) fn ed_pk_ok(pk: &[u8; 32]) -> (r: bool)
    ensures
        r == ed_pk_parses(pk@),
{
    ed25519_dalek::VerifyingKey::from_bytes(pk).is_ok()
}

/// Relies on `ed25519_dalek::VerifyingKey::verify`: true exactly when the
/// signature is valid for the message under the key.
#[verifier::external_body]
pub(crate) fn ed_verify(pk: &[u8; 32], sig: &[u8; 64], msg: &[u8]) -> (r: bool)
    ensures
        r == ed_valid(pk@, sig@, msg@),
        r ==> ed_pk_parses(pk@),
{
    match ed25519_dalek::VerifyingKey::from_bytes(pk) {
        Ok(vk) => vk.verify(msg, &ed25519_dalek::Signature::from_bytes(sig)).is_ok(),
        Err(_) => false,
    }
}

/// Relies on `ed25519_dalek::SigningKey::verifying_key`: the public half of a
/// secret key; its bytes always parse back.
#[verifier::external_body]
pub(crate) fn ed_derive_pk(sk: &[u8; 32]) -> (r: [u8; 32])
    ensures
        r@ == ed_pk_of(sk@),
        ed_pk_parses(r@),
{
    ed25519_dalek::SigningKey::from_bytes(sk).verifying_key().to_bytes()
}

/// Relies on `ed25519_dalek::SigningKey::sign`: deterministic signing that
/// produces a signature valid under the derived public key.
#[verifier::external_body]
pub(crate) fn ed_sign(sk: &[u8; 32], msg: &[u8]) -> (r: [u8; 64])
    ensures
        r@ == ed_sig_of(sk@, msg@),
        ed_valid(ed_pk_of(sk@), r@, msg@),
{
    ed25519_dalek::SigningKey::from_bytes(sk).sign(msg).to_bytes()
}

/// Relies on `blsttc::PublicKey::from_bytes`: tells whether the bytes denote
/// a G1 point.
#[verifier::external_body]
pub(crate) fn bls_pk_ok(pk: &[u8; 48]) -> (r: bool)
    ensures
        r == bls_pk_parses(pk@),
{
    blsttc::PublicKey::from_bytes(*pk).is_ok()
}

/// Relies on `blsttc::PublicKey::verify`: true exactly when the signature is
/// valid for the message under the key.
#[verifier::external_body]
pub(crate) fn bls_verify(pk: &[u8; 48], sig: &[u8; 96], msg: &[u8]) -> (r: bool)
    ensures
        r == bls_valid(pk@, sig@, msg@),
{
    match (blsttc::PublicKey::from_bytes(*pk), blsttc::Signature::from_bytes(*sig)) {
        (Ok(k), Ok(s)) => k.verify(&s, msg),
        _ => false,
    }
}

/// Relies on `blsttc::PublicKeyShare::verify`: true exactly when the
/// signature share is valid for the message under the key share.
#[verifier::external_body]
pub(crate) fn bls_share_verify(pk: &[u8; 48], sig: &[u8; 96], msg: &[u8]) -> (r: bool)
    ensures
        r == bls_share_valid(pk@, sig@, msg@),
        r ==> bls_sig_share_parses(sig@),
{
    match (blsttc::PublicKeyShare::from_bytes(*pk), blsttc::SignatureShare::from_bytes(*sig)) {
        (Ok(k), Ok(s)) => k.verify(&s, msg),
        _ => false,
    }
}

/// Relies on `blsttc::SecretKeyShare::from_bytes`: tells whether the bytes
/// denote a field element.
#[verifier::external_body]
pub(crate) fn bls_sk_ok(sk: &[u8; 32]) -> (r: bool)
    ensures
        r == bls_sk_parses(sk@),
{
    blsttc::SecretKeyShare::from_bytes(*sk).is_ok()
}

/// Relies on `blsttc::SecretKeyShare::public_key_share`: the public half of a
/// secret key share; its bytes always parse back.
#[verifier::external_body]
pub(crate) fn bls_share_derive_pk(sk: &[u8; 32]) -> (r: [u8; 48])
    requires
        bls_sk_parses(sk@),
    ensures
        r@ == bls_share_pk_of(sk@),
        bls_pk_parses(r@),
{
    let s = blsttc::SecretKeyShare::from_bytes(*sk).expect("checked by the caller");
    s.public_key_share().to_bytes()
}

/// Relies on `blsttc::SecretKeyShare::sign`: deterministic signing that
/// produces a share valid under the derived public key share.  The zero
/// scalar is excluded: its key share is the identity point, which the
/// library's verification rejects outright.
#[verifier::external_body]
pub(crate) fn bls_share_sign(sk: &[u8; 32], msg: &[u8]) -> (r: [u8; 96])
    requires
        bls_sk_parses(sk@),
        sk@ != Seq::new(32, |i: int| 0u8),
    ensures
        r@ == bls_share_sig_of(sk@, msg@),
        bls_share_valid(bls_share_pk_of(sk@), r@, msg@),
        bls_sig_share_parses(r@),
{
    let s = blsttc::SecretKeyShare::from_bytes(*sk).expect("checked by the caller");
    s.sign(msg).to_bytes()
}

/// Relies on `blsttc::PublicKeySet::from_bytes`: tells whether the bytes
/// denote a polynomial commitment.
#[verifier::external_body]
pub(crate) fn bls_pkset_ok(b: &Vec<u8>) -> (r: bool)
    ensures
        r == bls_pkset_parses(b@),
{
    blsttc::PublicKeySet::from_bytes(b.clone()).is_ok()
}

/// Relies on `blsttc::PublicKeySet::public_key`: the section key of a key
/// set; its bytes always parse back.  At least one full point of input is
/// required: shorter inputs parse as the empty commitment, on which the
/// call would index an empty coefficient vector.
#[verifier::external_body]
pub(crate) fn bls_pkset_public_key(b: &Vec<u8>) -> (r: [u8; 48])
    requires
        bls_pkset_parses(b@),
        b@.len() >= 48,
    ensures
        r@ == bls_pkset_pk_of(b@),
        bls_pk_parses(r@),
{
    let s = blsttc::PublicKeySet::from_bytes(b.clone()).expect("checked by the caller");
    s.public_key().to_bytes()
}

/// Relies on `blsttc::PublicKeySet::threshold`: `threshold + 1` shares are
/// needed to combine a signature.  At least one full point of input is
/// required: on the empty commitment the degree would underflow.
#[verifier::external_body]
pub(crate) fn bls_pkset_threshold(b: &Vec<u8>) -> (r: usize)
    requires
        bls_pkset_parses(b@),
        b@.len() >= 48,
    ensures
        r as int == bls_pkset_threshold_of(b@),
{
    let s = blsttc::PublicKeySet::from_bytes(b.clone()).expect("checked by the caller");
    s.threshold()
}

/// Relies on `blsttc::PublicKeySet::public_key_share`: the key share a set
/// assigns to one signer index; its bytes always parse back.
#[verifier::external_body]
pub(crate) fn bls_pkset_share_pk(b: &Vec<u8>, i: u64) -> (r: [u8; 48])
    requires
        bls_pkset_parses(b@),
    ensures
        r@ == bls_pkset_share_pk_of(b@, i as int),
        bls_pk_parses(r@),
{
    let s = blsttc::PublicKeySet::from_bytes(b.clone()).expect("checked by the caller");
    s.public_key_share(i).to_bytes()
}

/// Relies on `blsttc::PublicKeySet::combine_signatures`: with distinct signer
/// indices it succeeds exactly when more than `threshold` shares are given,
/// and its output is a function of the key set and the shares.
#[verifier::external_body]
pub(crate) fn bls_combine(b: &Vec<u8>, shares: &Vec<(u64, [u8; 96])>) -> (r: Result<[u8; 96], Error>)
    requires
        bls_pkset_parses(b@),
        b@.len() >= 48,
        forall|j: int, k: int| 0 <= j < k < shares@.len() ==> shares@[j].0 != shares@[k].0,
        forall|j: int| 0 <= j < shares@.len() ==> bls_sig_share_parses(#[trigger] shares@[j].1@),
    ensures
        r is Ok <==> shares@.len() > bls_pkset_threshold_of(b@),
        r matches Ok(sig) ==> sig@ == bls_combined_sig_of(b@, shares@),
{
    let set = blsttc::PublicKeySet::from_bytes(b.clone()).expect("checked by the caller");
    let parsed = shares.iter().map(|(i, s)| {
        (*i, blsttc::SignatureShare::from_bytes(*s).expect("share bytes were checked"))
    });
    match set.combine_signatures(parsed) {
        Ok(sig) => Ok(sig.to_bytes()),
        Err(_) => Err(Error::FailedToAggregate),
    }
}

/// Relies on `rand::random`: 32 bytes drawn from the thread generator.
/// Nothing is promised of the value.
#[verifier::external_body]
pub(crate) fn random_bytes_32() -> (r: [u8; 32]) {
    rand::random::<[u8; 32]>()
}

} // verus!

//! Algorithm-tagged public keys, signatures and keypairs.
//!
//! A `PublicKey` is one of three variants — single-signer Ed25519, threshold
//! BLS, or a BLS share — each carrying its fixed-length raw encoding.
//! Equality, ordering and hashing go by the canonical tagged serialisation,
//! so a heterogeneous set of keys has one total order independent of the
//! algorithm.

use vstd::prelude::*;

use crate::bytes_util::{
    bytes_eq, copy_32, copy_48, lemma_lex_cmp_antisym, lemma_lex_cmp_eq, lemma_lex_cmp_trans,
    lex_cmp, push_all, spec_lex_cmp,
};
use crate::crypto;
use crate::error::Error;
use crate::hex;
use crate::xor_name::XorName;
use crate::zbase32;
use vstd::std_specs::cmp::PartialOrdSpec;

verus! {

/// Wrapper for the public key types of the supported algorithms.
#[derive(Clone, Copy, Debug, Hash)]
pub enum PublicKey {
    /// An Ed25519 public key: its 32 raw bytes.
    Ed25519([u8; 32]),
    /// A BLS public key: its 48 raw bytes.
    Bls([u8; 48]),
    /// A BLS public key share: its 48 raw bytes.
    BlsShare([u8; 48]),
}

/// The tag byte that opens the canonical serialisation of each variant.
pub open spec fn spec_key_tag(pk: PublicKey) -> u8 {
    match pk {
        PublicKey::Ed25519(_) => 0u8,
        PublicKey::Bls(_) => 1u8,
        PublicKey::BlsShare(_) => 2u8,
    }
}

/// The raw algorithm-specific bytes of a key, without the tag.
pub open spec fn spec_key_bytes(pk: PublicKey) -> Seq<u8> {
    match pk {
        PublicKey::Ed25519(b) => b@,
        PublicKey::Bls(b) => b@,
        PublicKey::BlsShare(b) => b@,
    }
}

/// The canonical serialisation: one tag byte, then the raw key bytes.
pub open spec fn spec_serialize(pk: PublicKey) -> Seq<u8> {
    seq![spec_key_tag(pk)] + spec_key_bytes(pk)
}

/// Whether a byte string has the shape of a serialised key.
pub open spec fn spec_ser_shape(s: Seq<u8>) -> bool {
    ||| (s.len() == 33 && s[0] == 0u8)
    ||| (s.len() == 49 && (s[0] == 1u8 || s[0] == 2u8))
}

/// Two keys with the same serialisation are the same key.
pub proof fn lemma_serialize_injective(a: PublicKey, b: PublicKey)
    requires
        spec_serialize(a) == spec_serialize(b),
    ensures
        a == b,
{
    assert(spec_serialize(a)[0] == spec_key_tag(a));
    assert(spec_serialize(b)[0] == spec_key_tag(b));
    assert(spec_key_bytes(a) =~= spec_serialize(a).skip(1));
    assert(spec_key_bytes(b) =~= spec_serialize(b).skip(1));
    match (a, b) {
        (PublicKey::Ed25519(x), PublicKey::Ed25519(y)) => {
            assert(x@ == y@);
            assert(x =~= y);
        },
        (PublicKey::Bls(x), PublicKey::Bls(y)) => {
            assert(x@ == y@);
            assert(x =~= y);
        },
        (PublicKey::BlsShare(x), PublicKey::BlsShare(y)) => {
            assert(x@ == y@);
            assert(x =~= y);
        },
        _ => {
            assert(false);
        },
    }
}

impl PublicKey {
    /// Returns the bytes of the underlying public key.
    pub fn to_bytes(self) -> (r: Vec<u8>)
        ensures
            r@ == spec_key_bytes(self),
    {
        let mut out: Vec<u8> = Vec::new();
        match self {
            PublicKey::Ed25519(b) => push_all(&mut out, b.as_slice()),
            PublicKey::Bls(b) => push_all(&mut out, b.as_slice()),
            PublicKey::BlsShare(b) => push_all(&mut out, b.as_slice()),
        }
        proof {
            assert(out@ =~= spec_key_bytes(self));
        }
        out
    }

    /// Returns the Ed25519 key bytes, if applicable.
    pub fn ed25519(&self) -> (r: Option<[u8; 32]>)
        ensures
            r matches Some(b) ==> *self == PublicKey::Ed25519(b),
            r is Some <==> self is Ed25519,
    {
        if let PublicKey::Ed25519(key) = self {
            Some(*key)
        } else {
            None
        }
    }

    /// Returns the BLS key bytes, if applicable.
    pub fn bls(&self) -> (r: Option<[u8; 48]>)
        ensures
            r matches Some(b) ==> *self == PublicKey::Bls(b),
            r is Some <==> self is Bls,
    {
        if let PublicKey::Bls(key) = self {
            Some(*key)
        } else {
            None
        }
    }

    /// Returns the BLS key share bytes, if applicable.
    pub fn bls_share(&self) -> (r: Option<[u8; 48]>)
        ensures
            r matches Some(b) ==> *self == PublicKey::BlsShare(b),
            r is Some <==> self is BlsShare,
    {
        if let PublicKey::BlsShare(key) = self {
            Some(*key)
        } else {
            None
        }
    }

    /// The canonical serialisation: one tag byte, then the raw key bytes.
    pub fn serialize(&self) -> (r: Vec<u8>)
        ensures
            r@ == spec_serialize(*self),
    {
        let mut out: Vec<u8> = Vec::new();
        match self {
            PublicKey::Ed25519(b) => {
                out.push(0u8);
                push_all(&mut out, b.as_slice());
            },
            PublicKey::Bls(b) => {
                out.push(1u8);
                push_all(&mut out, b.as_slice());
            },
            PublicKey::BlsShare(b) => {
                out.push(2u8);
                push_all(&mut out, b.as_slice());
            },
        }
        proof {
            assert(out@ =~= spec_serialize(*self));
        }
        out
    }

    /// Reads a key back from its canonical serialisation.
    ///
    /// Succeeds exactly on byte strings of the serialised shape, and then
    /// returns the one key that serialises to the input.
    pub fn deserialize(bytes: &[u8]) -> (r: Result<PublicKey, Error>)
        ensures
            r is Ok <==> spec_ser_shape(bytes@),
            r matches Ok(pk) ==> spec_serialize(pk) == bytes@,
            r matches Err(e) ==> e is FailedToParse,
    {
        let n: usize = bytes.len();
        if n == 33 && bytes[0] == 0 {
            let pk = PublicKey::Ed25519(copy_32(bytes, 1));
            proof {
                assert(spec_serialize(pk) =~= bytes@);
            }
            Ok(pk)
        } else if n == 49 && bytes[0] == 1 {
            let pk = PublicKey::Bls(copy_48(bytes, 1));
            proof {
                assert(spec_serialize(pk) =~= bytes@);
            }
            Ok(pk)
        } else if n == 49 && bytes[0] == 2 {
            let pk = PublicKey::BlsShare(copy_48(bytes, 1));
            proof {
                assert(spec_serialize(pk) =~= bytes@);
            }
            Ok(pk)
        } else {
            Err(Error::FailedToParse(String::from_str("not a serialised public key")))
        }
    }

    /// Construct an Ed25519 public key from a hex-encoded string.
    ///
    /// Succeeds exactly when the string is well-formed hex of 32 bytes that
    /// parse as a curve point.
    pub fn ed25519_from_hex(hex_str: &str) -> (r: Result<PublicKey, Error>)
        ensures
            r is Ok <==> hex::spec_hex_ok(hex_str@) && hex::spec_hex_decode(hex_str@).len() == 32
                && crypto::ed_pk_parses(hex::spec_hex_decode(hex_str@)),
            r matches Ok(pk) ==> pk is Ed25519 && spec_key_bytes(pk) == hex::spec_hex_decode(
                hex_str@,
            ),
            r matches Err(e) ==> e is FailedToParse,
    {
        let bytes = hex::hex_decode(hex_str)?;
        if bytes.len() != 32 {
            return Err(
                Error::FailedToParse(
                    String::from_str("an ed25519 public key takes exactly 32 bytes"),
                ),
            );
        }
        let arr = copy_32(bytes.as_slice(), 0);
        proof {
            assert(arr@ =~= hex::spec_hex_decode(hex_str@));
        }
        if !crypto::ed_pk_ok(&arr) {
            return Err(
                Error::FailedToParse(
                    String::from_str("the bytes are not an ed25519 public key"),
                ),
            );
        }
        Ok(PublicKey::Ed25519(arr))
    }

    /// Construct a BLS public key from a hex-encoded string.
    ///
    /// Succeeds exactly when the string is well-formed hex of 48 bytes that
    /// parse as a group element; a wrong byte count is reported with its
    /// own distinct message.
    pub fn bls_from_hex(hex_str: &str) -> (r: Result<PublicKey, Error>)
        ensures
            r is Ok <==> hex::spec_hex_ok(hex_str@) && hex::spec_hex_decode(hex_str@).len() == 48
                && crypto::bls_pk_parses(hex::spec_hex_decode(hex_str@)),
            r matches Ok(pk) ==> pk is Bls && spec_key_bytes(pk) == hex::spec_hex_decode(hex_str@),
            r matches Err(e) ==> e is FailedToParse,
            (hex::spec_hex_ok(hex_str@) && hex::spec_hex_decode(hex_str@).len() != 48) ==> (
            match r {
                Err(Error::FailedToParse(m)) => m@
                    == "the provided string must represent exactly 48 bytes of a BLS public key"@,
                _ => false,
            }),
    {
        let bytes = hex::hex_decode(hex_str)?;
        if bytes.len() != 48 {
            return Err(
                Error::FailedToParse(
                    String::from_str(
                        "the provided string must represent exactly 48 bytes of a BLS public key",
                    ),
                ),
            );
        }
        let arr = copy_48(bytes.as_slice(), 0);
        proof {
            assert(arr@ =~= hex::spec_hex_decode(hex_str@));
        }
        if !crypto::bls_pk_ok(&arr) {
            return Err(
                Error::FailedToParse(String::from_str("the bytes are not a BLS public key")),
            );
        }
        Ok(PublicKey::Bls(arr))
    }

    /// The key rendered as lower-case hex of its raw bytes.
    pub fn to_hex(&self) -> (r: String)
        ensures
            r@ == hex::spec_hex_encode(spec_key_bytes(*self)),
    {
        let bytes = self.to_bytes();
        hex::hex_encode(bytes.as_slice(), false)
    }

    /// The key rendered as upper-case hex of its raw bytes.
    pub fn to_hex_upper(&self) -> (r: String)
        ensures
            r@ == hex::spec_hex_encode_upper(spec_key_bytes(*self)),
    {
        let bytes = self.to_bytes();
        hex::hex_encode(bytes.as_slice(), true)
    }

    /// The key serialised and encoded in z-base-32.
    pub fn encode_to_zbase32(&self) -> (r: Result<String, Error>)
        ensures
            r matches Ok(s) ==> s@ == zbase32::spec_zb_encode(spec_serialize(*self)),
            r is Ok,
    {
        let ser = self.serialize();
        Ok(zbase32::zb_encode(ser.as_slice()))
    }

    /// Reads a key from a z-base-32 encoded string.
    ///
    /// Succeeds exactly when the characters are all from the alphabet and
    /// the decoded bytes are a serialised key.
    pub fn decode_from_zbase32(encoded: &str) -> (r: Result<PublicKey, Error>)
        ensures
            r is Ok <==> zbase32::spec_zb_ok(encoded@) && spec_ser_shape(
                zbase32::spec_zb_decode(encoded@),
            ),
            r matches Ok(pk) ==> spec_serialize(pk) == zbase32::spec_zb_decode(encoded@),
            r matches Err(e) ==> e is FailedToParse,
    {
        let m: usize = encoded.unicode_len();
        if m > 79 {
            proof {
                vstd::arithmetic::div_mod::lemma_div_is_ordered(400, 5 * encoded@.len() as int, 8);
                assert(zbase32::spec_zb_decode(encoded@).len() >= 50);
            }
            return Err(
                Error::FailedToParse(String::from_str("input too long for a public key")),
            );
        }
        let bytes = zbase32::zb_decode(encoded)?;
        PublicKey::deserialize(bytes.as_slice())
    }
}

impl PartialEq for PublicKey {
    /// Keys are equal when their variants and raw bytes are.
    fn eq(&self, other: &Self) -> (r: bool) {
        let r = match (self, other) {
            (PublicKey::Ed25519(x), PublicKey::Ed25519(y)) => bytes_eq(
                x.as_slice(),
                y.as_slice(),
            ),
            (PublicKey::Bls(x), PublicKey::Bls(y)) => bytes_eq(x.as_slice(), y.as_slice()),
            (PublicKey::BlsShare(x), PublicKey::BlsShare(y)) => bytes_eq(
                x.as_slice(),
                y.as_slice(),
            ),
            _ => false,
        };
        proof {
            lemma_key_bytes_equal(*self, *other);
        }
        r
    }
}

impl vstd::std_specs::cmp::PartialEqSpecImpl for PublicKey {
    open spec fn obeys_eq_spec() -> bool {
        true
    }

    open spec fn eq_spec(&self, other: &Self) -> bool {
        *self == *other
    }
}

/// Keys of the same variant with the same raw bytes are the same value.
proof fn lemma_key_bytes_equal(a: PublicKey, b: PublicKey)
    ensures
        spec_key_tag(a) == spec_key_tag(b) && spec_key_bytes(a) == spec_key_bytes(b) ==> a == b,
{
    if spec_key_tag(a) == spec_key_tag(b) && spec_key_bytes(a) == spec_key_bytes(b) {
        assert(spec_serialize(a) =~= spec_serialize(b));
        lemma_serialize_injective(a, b);
    }
}

/// The one order on keys: lexicographic on the canonical serialisation, so
/// it is independent of the algorithm.
pub open spec fn spec_cmp_keys(a: PublicKey, b: PublicKey) -> core::cmp::Ordering {
    spec_lex_cmp(spec_serialize(a), spec_serialize(b))
}

impl PartialOrd for PublicKey {
    /// Compares by the canonical serialisation.
    fn partial_cmp(&self, other: &Self) -> (r: Option<core::cmp::Ordering>) {
        let sa = self.serialize();
        let sb = other.serialize();
        Some(lex_cmp(sa.as_slice(), sb.as_slice()))
    }
}

impl vstd::std_specs::cmp::PartialOrdSpecImpl for PublicKey {
    open spec fn obeys_partial_cmp_spec() -> bool {
        true
    }

    open spec fn partial_cmp_spec(&self, other: &Self) -> Option<core::cmp::Ordering> {
        Some(spec_cmp_keys(*self, *other))
    }
}

/// What `partial_cmp` returns on keys is exactly the lexicographic
/// comparison of their canonical serialisations: comparison is consistent
/// with `serialize` on every mix of variants.
pub proof fn lemma_key_order_consistent_with_serialization(a: PublicKey, b: PublicKey)
    ensures
        a.partial_cmp_spec(&b) == Some(
            spec_lex_cmp(spec_serialize(a), spec_serialize(b)),
        ),
{
}

/// The key order is total: exactly one of less, equal, greater holds, equal
/// means the same key, and swapping the sides flips the answer.
pub proof fn lemma_key_order_total(a: PublicKey, b: PublicKey)
    ensures
        (spec_cmp_keys(a, b) == core::cmp::Ordering::Equal) <==> a == b,
        (spec_cmp_keys(a, b) == core::cmp::Ordering::Less) <==> (spec_cmp_keys(b, a)
            == core::cmp::Ordering::Greater),
{
    lemma_lex_cmp_eq(spec_serialize(a), spec_serialize(b));
    lemma_lex_cmp_antisym(spec_serialize(a), spec_serialize(b));
    if spec_serialize(a) == spec_serialize(b) {
        lemma_serialize_injective(a, b);
    }
}

/// The key order is transitive.
pub proof fn lemma_key_order_transitive(a: PublicKey, b: PublicKey, c: PublicKey)
    requires
        spec_cmp_keys(a, b) == core::cmp::Ordering::Less,
        spec_cmp_keys(b, c) == core::cmp::Ordering::Less,
    ensures
        spec_cmp_keys(a, c) == core::cmp::Ordering::Less,
{
    lemma_lex_cmp_trans(spec_serialize(a), spec_serialize(b), spec_serialize(c));
}

/// Wrapper for the signature types of the supported algorithms, parallel to
/// the key variants.
#[derive(Clone, Copy, Debug, Hash)]
pub enum Signature {
    /// An Ed25519 signature: its 64 raw bytes.
    Ed25519([u8; 64]),
    /// A BLS signature: its 96 raw bytes.
    Bls([u8; 96]),
    /// A BLS signature share: the signer's share index and the 96 raw bytes.
    BlsShare { index: u64, share: [u8; 96] },
}

impl PartialEq for Signature {
    /// Signatures are equal when their variants, bytes and share index are.
    fn eq(&self, other: &Self) -> (r: bool) {
        match (self, other) {
            (Signature::Ed25519(x), Signature::Ed25519(y)) => {
                let r = bytes_eq(x.as_slice(), y.as_slice());
                proof {
                    if x@ == y@ {
                        assert(x =~= y);
                    }
                }
                r
            },
            (Signature::Bls(x), Signature::Bls(y)) => {
                let r = bytes_eq(x.as_slice(), y.as_slice());
                proof {
                    if x@ == y@ {
                        assert(x =~= y);
                    }
                }
                r
            },
            (
                Signature::BlsShare { index: i, share: x },
                Signature::BlsShare { index: j, share: y },
            ) => {
                let r = *i == *j && bytes_eq(x.as_slice(), y.as_slice());
                proof {
                    if x@ == y@ {
                        assert(x =~= y);
                    }
                }
                r
            },
            _ => false,
        }
    }
}

impl vstd::std_specs::cmp::PartialEqSpecImpl for Signature {
    open spec fn obeys_eq_spec() -> bool {
        true
    }

    open spec fn eq_spec(&self, other: &Self) -> bool {
        *self == *other
    }
}

/// Whether a signature's variant matches a key's variant.
pub open spec fn spec_variants_match(pk: PublicKey, sig: Signature) -> bool {
    match (pk, sig) {
        (PublicKey::Ed25519(_), Signature::Ed25519(_)) => true,
        (PublicKey::Bls(_), Signature::Bls(_)) => true,
        (PublicKey::BlsShare(_), Signature::BlsShare { .. }) => true,
        _ => false,
    }
}

/// What verification returns: success exactly when the variants match and
/// the algorithm-specific check passes; a variant mismatch is its own error,
/// distinct from a cryptographically invalid signature.
pub open spec fn spec_verify(pk: PublicKey, sig: Signature, msg: Seq<u8>) -> Result<(), Error> {
    match (pk, sig) {
        (PublicKey::Ed25519(k), Signature::Ed25519(s)) => if crypto::ed_valid(k@, s@, msg) {
            Ok(())
        } else {
            Err(Error::InvalidSignature)
        },
        (PublicKey::Bls(k), Signature::Bls(s)) => if crypto::bls_valid(k@, s@, msg) {
            Ok(())
        } else {
            Err(Error::InvalidSignature)
        },
        (PublicKey::BlsShare(k), Signature::BlsShare { share, .. }) => if crypto::bls_share_valid(
            k@,
            share@,
            msg,
        ) {
            Ok(())
        } else {
            Err(Error::InvalidSignature)
        },
        _ => Err(Error::SigningKeyTypeMismatch),
    }
}

impl PublicKey {
    /// Checks `signature` against `data` under this key.
    ///
    /// Returns `Ok(())` exactly when the variants match and the
    /// algorithm-specific check passes; a mismatch of variants is reported
    /// as its own error, never as an invalid signature.
    pub fn verify(&self, signature: &Signature, data: &[u8]) -> (r: Result<(), Error>)
        ensures
            r == spec_verify(*self, *signature, data@),
    {
        let is_valid = match (self, signature) {
            (PublicKey::Ed25519(k), Signature::Ed25519(s)) => crypto::ed_verify(k, s, data),
            (PublicKey::Bls(k), Signature::Bls(s)) => crypto::bls_verify(k, s, data),
            (PublicKey::BlsShare(k), Signature::BlsShare { share, .. }) => crypto::bls_share_verify(
                k,
                share,
                data,
            ),
            _ => {
                return Err(Error::SigningKeyTypeMismatch);
            },
        };
        if is_valid {
            Ok(())
        } else {
            Err(Error::InvalidSignature)
        }
    }
}

/// A key and a signature of different variants never verify, and the error
/// is always the variant mismatch — never "invalid signature".
pub proof fn lemma_mismatched_verify(pk: PublicKey, sig: Signature, msg: Seq<u8>)
    requires
        !spec_variants_match(pk, sig),
    ensures
        spec_verify(pk, sig, msg) == Err::<(), Error>(Error::SigningKeyTypeMismatch),
{
}

/// A keypair: the secret half of an identity together with its public key.
///
/// The secret bytes never leave the process through any operation of the
/// core; signing is the only use.
#[derive(Clone, Copy, Debug)]
pub enum Keypair {
    /// An Ed25519 signing key and its public key.
    Ed25519 { sk: [u8; 32], pk: [u8; 32] },
    /// A BLS secret key share, its share index, and its public key share.
    BlsShare { index: u64, sk: [u8; 32], pk: [u8; 48] },
}

impl Keypair {
    /// The stored public half really is the one derived from the secret half.
    pub open spec fn wf(&self) -> bool {
        match *self {
            Keypair::Ed25519 { sk, pk } => pk@ == crypto::ed_pk_of(sk@) && crypto::ed_pk_parses(
                pk@,
            ),
            Keypair::BlsShare { index, sk, pk } => crypto::bls_sk_parses(sk@) && sk@ != Seq::new(
                32,
                |i: int| 0u8,
            ) && pk@ == crypto::bls_share_pk_of(sk@) && crypto::bls_pk_parses(pk@),
        }
    }

    /// The public key this keypair signs under.
    pub open spec fn spec_public_key(&self) -> PublicKey {
        match *self {
            Keypair::Ed25519 { pk, .. } => PublicKey::Ed25519(pk),
            Keypair::BlsShare { pk, .. } => PublicKey::BlsShare(pk),
        }
    }

    /// A fresh random Ed25519 keypair.
    pub fn new_ed25519() -> (r: Keypair)
        ensures
            r.wf(),
            r is Ed25519,
    {
        let sk = crypto::random_bytes_32();
        Keypair::ed25519_from_sk_bytes(sk)
    }

    /// The Ed25519 keypair of a given secret key; every 32-byte string is
    /// one.
    pub fn ed25519_from_sk_bytes(sk: [u8; 32]) -> (r: Keypair)
        ensures
            r.wf(),
            r matches Keypair::Ed25519 { sk: s, .. } && s == sk,
    {
        let pk = crypto::ed_derive_pk(&sk);
        Keypair::Ed25519 { sk, pk }
    }

    /// The BLS-share keypair of a given secret key share.
    ///
    /// Succeeds exactly when the bytes denote a non-zero field element; the
    /// zero scalar is refused because no signature of its identity key
    /// share can ever verify.
    pub fn bls_share_from_sk_bytes(index: u64, sk: [u8; 32]) -> (r: Result<Keypair, Error>)
        ensures
            r is Ok <==> crypto::bls_sk_parses(sk@) && sk@ != Seq::new(32, |i: int| 0u8),
            r matches Ok(kp) ==> kp.wf() && (kp matches Keypair::BlsShare {
                index: i,
                sk: s,
                ..
            } && i == index && s == sk),
            r matches Err(e) ==> e is FailedToParse,
    {
        let zero = [0u8; 32];
        if bytes_eq(sk.as_slice(), zero.as_slice()) {
            proof {
                assert(zero@ =~= Seq::new(32, |i: int| 0u8));
            }
            return Err(
                Error::FailedToParse(String::from_str("the zero scalar cannot sign")),
            );
        }
        proof {
            assert(zero@ =~= Seq::new(32, |i: int| 0u8));
        }
        if !crypto::bls_sk_ok(&sk) {
            return Err(
                Error::FailedToParse(String::from_str("the bytes are not a BLS secret key share")),
            );
        }
        let pk = crypto::bls_share_derive_pk(&sk);
        Ok(Keypair::BlsShare { index, sk, pk })
    }

    /// The share index, for BLS-share keypairs.
    pub fn share_index(&self) -> (r: Option<u64>)
        ensures
            r matches Some(i) ==> *self matches Keypair::BlsShare { index, .. } && index == i,
            r is Some <==> self is BlsShare,
    {
        match self {
            Keypair::BlsShare { index, .. } => Some(*index),
            _ => None,
        }
    }

    /// The public key this keypair signs under.
    pub fn public_key(&self) -> (r: PublicKey)
        ensures
            r == self.spec_public_key(),
    {
        match self {
            Keypair::Ed25519 { pk, .. } => PublicKey::Ed25519(*pk),
            Keypair::BlsShare { pk, .. } => PublicKey::BlsShare(*pk),
        }
    }

    /// Signs `data` with the secret half.
    ///
    /// The result always verifies under `public_key()`: signing and
    /// verifying compose for every keypair and message.
    pub fn sign(&self, data: &[u8]) -> (r: Signature)
        requires
            self.wf(),
        ensures
            spec_verify(self.spec_public_key(), r, data@) == Ok::<(), Error>(()),
            match *self {
                Keypair::Ed25519 { sk, .. } => r matches Signature::Ed25519(s) && s@
                    == crypto::ed_sig_of(sk@, data@),
                Keypair::BlsShare { index, sk, .. } => r matches Signature::BlsShare {
                    index: i,
                    share,
                } && i == index && share@ == crypto::bls_share_sig_of(sk@, data@)
                    && crypto::bls_sig_share_parses(share@),
            },
    {
        match self {
            Keypair::Ed25519 { sk, .. } => Signature::Ed25519(crypto::ed_sign(sk, data)),
            Keypair::BlsShare { index, sk, .. } => Signature::BlsShare {
                index: *index,
                share: crypto::bls_share_sign(sk, data),
            },
        }
    }
}

/// The raw bytes that become a key's network address: the Ed25519 bytes
/// directly, or the leading 32 bytes of a BLS encoding.
pub open spec fn spec_name_of_key(pk: PublicKey) -> Seq<u8> {
    match pk {
        PublicKey::Ed25519(b) => b@,
        PublicKey::Bls(b) => b@.take(32),
        PublicKey::BlsShare(b) => b@.take(32),
    }
}

impl XorName {
    /// The deterministic network address of a public key.
    pub fn from_public_key(pk: &PublicKey) -> (r: XorName)
        ensures
            r@ == spec_name_of_key(*pk),
    {
        let r = match pk {
            PublicKey::Ed25519(b) => XorName(*b),
            PublicKey::Bls(b) => XorName(copy_32(b.as_slice(), 0)),
            PublicKey::BlsShare(b) => XorName(copy_32(b.as_slice(), 0)),
        };
        proof {
            assert(r@ =~= spec_name_of_key(*pk));
        }
        r
    }
}

/// Encoding a key in z-base-32 and decoding the result gives the key back:
/// the encoding is well-formed, decodes to the canonical serialisation, and
/// the serialisation has the accepted shape.  Together with the contracts of
/// `encode_to_zbase32` and `decode_from_zbase32` this is the z-base-32 round
/// trip on every public key.
pub proof fn lemma_zbase32_roundtrip(pk: PublicKey)
    ensures
        zbase32::spec_zb_ok(zbase32::spec_zb_encode(spec_serialize(pk))),
        zbase32::spec_zb_decode(zbase32::spec_zb_encode(spec_serialize(pk))) == spec_serialize(pk),
        spec_ser_shape(spec_serialize(pk)),
{
    zbase32::lemma_zb_roundtrip(spec_serialize(pk));
    assert(spec_serialize(pk)[0] == spec_key_tag(pk));
}

/// Deserialising a serialisation gives the key back: the serialised bytes
/// have the accepted shape, and any key that serialises to them is the
/// original.  Together with the contracts of `serialize` and `deserialize`
/// this is the binary round trip on every public key.
pub proof fn lemma_serialize_roundtrip(pk: PublicKey, other: PublicKey)
    ensures
        spec_ser_shape(spec_serialize(pk)),
        spec_serialize(other) == spec_serialize(pk) ==> other == pk,
{
    assert(spec_serialize(pk)[0] == spec_key_tag(pk));
    if spec_serialize(other) == spec_serialize(pk) {
        lemma_serialize_injective(other, pk);
    }
}

} // verus!

//! The primitives the protocol is built on: X25519 key agreement, Ed25519
//! signatures, XSalsa20-Poly1305 secret boxes, Shamir secret sharing and the
//! operating system's random source. Each is a black box here; what the
//! protocol relies on is written in the contract of the wrapper that calls it.

use vstd::prelude::*;
use rand_core::RngCore;
use ed25519_dalek::Signer;
use crypto_secretbox::aead::{Aead, KeyInit};

verus! {

pub type KAPublicKey = [u8; 32];
pub type KASecretKey = [u8; 32];
pub type Key = [u8; 32];
pub type Nonce = [u8; 24];
pub type SignPublicKey = [u8; 32];
pub type SignSecretKey = [u8; 32];
pub type Signature = [u8; 64];

pub const SIGN_PUBLIC_KEY_BYTES: usize = 32;

/// The X25519 function of a secret scalar and a point.
pub uninterp spec fn x25519_of(k: Seq<u8>, u: Seq<u8>) -> Seq<u8>;

/// The X25519 public key of a secret scalar.
pub uninterp spec fn dh_public_of(k: Seq<u8>) -> Seq<u8>;

/// The Ed25519 signature of a message under a secret key.
pub uninterp spec fn signature_of(m: Seq<u8>, sk: Seq<u8>) -> Seq<u8>;

/// Whether a signature of a message checks against a public key.
pub uninterp spec fn signature_valid(m: Seq<u8>, sig: Seq<u8>, pk: Seq<u8>) -> bool;

/// The secret box of a message under a nonce and a key.
pub uninterp spec fn sealed_of(m: Seq<u8>, nonce: Seq<u8>, k: Seq<u8>) -> Seq<u8>;

/// What a secret box opens to under a nonce and a key, if it is authentic.
pub uninterp spec fn opened_of(c: Seq<u8>, nonce: Seq<u8>, k: Seq<u8>) -> Option<Seq<u8>>;

/// The secret that a list of shares reconstructs to, if they are consistent.
pub uninterp spec fn recovered_of(shares: Seq<Seq<u8>>) -> Option<Seq<u8>>;

/// Relies on x25519_dalek::x25519: the shared point depends on its two arguments alone.
#[verifier::external_body]
pub fn dh(k: KASecretKey, u: KAPublicKey) -> (r: [u8; 32])
    ensures
        r@ == x25519_of(k@, u@),
{
    x25519_dalek::x25519(k, u)
}

/// Relies on rand_core::OsRng::try_fill_bytes: fresh random bytes from the
/// operating system, or an error when it has none to give.
#[verifier::external_body]
fn os_random<const N: usize>() -> (r: Result<[u8; N], ()>) {
    let mut bytes = [0u8; N];
    rand_core::OsRng.try_fill_bytes(&mut bytes).map_err(|_| ())?;
    Ok(bytes)
}

/// A fresh X25519 secret: 32 random bytes (clamping happens where it is used).
pub fn fresh_dh_secret() -> (r: Result<KASecretKey, ()>) {
    os_random::<32>()
}

/// A fresh nonce for a secret box.
pub fn gen_nonce() -> (r: Result<Nonce, ()>) {
    os_random::<24>()
}

/// Relies on x25519_dalek::PublicKey::from: the public key of a secret
/// depends on the secret alone.
#[verifier::external_body]
pub fn dh_public(k: KASecretKey) -> (r: KAPublicKey)
    ensures
        r@ == dh_public_of(k@),
{
    x25519_dalek::PublicKey::from(&x25519_dalek::StaticSecret::from(k)).to_bytes()
}

/// The Ed25519 verifying key of a signing key.
pub uninterp spec fn sign_public_of(sk: Seq<u8>) -> Seq<u8>;

/// Relies on ed25519_dalek::SigningKey::verifying_key: the verifying key
/// depends on the signing key alone.
#[verifier::external_body]
fn sign_public(sk: &SignSecretKey) -> (r: SignPublicKey)
    ensures
        r@ == sign_public_of(sk@),
{
    ed25519_dalek::SigningKey::from_bytes(sk).verifying_key().to_bytes()
}

/// A fresh signing key (32 random bytes) and its verifying key.
pub fn gen_sign_keypair() -> (r: Result<(SignPublicKey, SignSecretKey), ()>)
    ensures
        r matches Ok((pk, sk)) ==> pk@ == sign_public_of(sk@),
{
    let sk = os_random::<32>()?;
    Ok((sign_public(&sk), sk))
}

/// Relies on ed25519_dalek::SigningKey::sign: Ed25519 signing is
/// deterministic in the message and the key.
#[verifier::external_body]
pub fn sign(m: &[u8], sk: &SignSecretKey) -> (r: Signature)
    ensures
        r@ == signature_of(m@, sk@),
{
    ed25519_dalek::SigningKey::from_bytes(sk).sign(m).to_bytes()
}

/// Relies on ed25519_dalek::VerifyingKey::verify: whether the signature
/// checks depends on the message, the signature and the key alone.
#[verifier::external_body]
pub fn verify_signature(m: &[u8], sig: &Signature, pk: &SignPublicKey) -> (r: Result<(), ()>)
    ensures
        r.is_ok() == signature_valid(m@, sig@, pk@),
{
    match ed25519_dalek::VerifyingKey::from_bytes(pk) {
        Ok(vk) => ed25519_dalek::Verifier::verify(&vk, m, &ed25519_dalek::Signature::from_bytes(sig)).map_err(|_| ()),
        Err(_) => Err(()),
    }
}


/// Relies on getrandom::getrandom: fresh random bytes, or an error from the
/// operating system.
#[verifier::external_body]
pub fn random_seed() -> (r: Result<[u8; 32], ()>) {
    let mut seed = [0u8; 32];
    getrandom::getrandom(&mut seed).map_err(|_| ())?;
    Ok(seed)
}

/// Relies on crypto_secretbox::XSalsa20Poly1305::encrypt: with no associated
/// data it does not fail, the box is a function of the message, the nonce and
/// the key, and opening it under the same nonce and key gives the message back.
#[verifier::external_body]
pub fn crypto_secret_wrap(m: &[u8], nonce: Nonce, k: Key) -> (r: Result<Vec<u8>, ()>)
    ensures
        r is Ok,
        r matches Ok(c) ==> c@ == sealed_of(m@, nonce@, k@),
        r matches Ok(c) ==> opened_of(c@, nonce@, k@) == Some(m@),
{
    let cipher = crypto_secretbox::XSalsa20Poly1305::new(&k.into());
    cipher.encrypt(&nonce.into(), m).map_err(|_| ())
}

/// Relies on crypto_secretbox::XSalsa20Poly1305::decrypt: whether the box
/// opens, and to what, depends on the box, the nonce and the key alone.
#[verifier::external_body]
pub fn crypto_secret_unwrap(c: &[u8], nonce: Nonce, k: Key) -> (r: Result<Vec<u8>, ()>)
    ensures
        match r {
            Ok(m) => opened_of(c@, nonce@, k@) == Some(m@),
            Err(_) => opened_of(c@, nonce@, k@) is None,
        },
{
    let cipher = crypto_secretbox::XSalsa20Poly1305::new(&k.into());
    cipher.decrypt(&nonce.into(), c).map_err(|_| ())
}

/// The shares at positions `idx`, in that order.
pub open spec fn pick(shares: Seq<Seq<u8>>, idx: Seq<int>) -> Seq<Seq<u8>> {
    Seq::new(idx.len(), |k: int| shares[idx[k]])
}

/// Any `threshold` or more distinct shares of `shares` (at least one) rebuild `secret`.
pub open spec fn rebuilds(shares: Seq<Seq<u8>>, threshold: nat, secret: Seq<u8>) -> bool {
    forall|idx: Seq<int>|
        idx.len() >= threshold && idx.len() >= 1 && idx.no_duplicates() && (forall|k: int|
            0 <= k < idx.len() ==> 0 <= #[trigger] idx[k] < shares.len()) ==> #[trigger] recovered_of(
            pick(shares, idx),
        ) == Some(secret)
}

/// Relies on sss_rs::wrapped_sharing::share, with a hash appended for
/// verification: with at least two shares to create and no more required than
/// created, it makes one share per requested share, each its evaluation point
/// (distinct, nonzero) then the secret's and the hash's bytes, and any
/// `threshold` of them rebuild the secret (Shamir's scheme).
#[verifier::external_body]
pub fn split_secret(secret: &[u8], threshold: u8, count: u8) -> (r: Result<Vec<Vec<u8>>, ()>)
    requires
        2 <= count,
        threshold <= count,
    ensures
        r is Ok,
        r matches Ok(shares) ==> {
            &&& shares.len() == count
            &&& forall|i: int| 0 <= i < count ==> (#[trigger] shares@[i]@).len() == secret@.len() + 65
            &&& forall|i: int, j: int|
                0 <= i < j < count ==> #[trigger] shares@[i]@[0] != #[trigger] shares@[j]@[0]
            &&& rebuilds(share_views(shares@), threshold as nat, secret@)
        },
{
    sss_rs::wrapped_sharing::share(secret, threshold, count, true).map_err(|_| ())
}

/// The shares can be handed to the reconstruction without making it panic:
/// there is at least one, they have one nonempty length, and their first bytes
/// (the evaluation points) are distinct.
pub open spec fn shares_well_formed(shares: Seq<Seq<u8>>) -> bool {
    &&& shares.len() >= 1
    &&& forall|i: int| 0 <= i < shares.len() ==> #[trigger] shares[i].len() == shares[0].len()
    &&& shares[0].len() >= 1
    &&& forall|i: int, j: int|
        0 <= i < j < shares.len() ==> #[trigger] shares[i][0] != #[trigger] shares[j][0]
}

/// The bytes of each share.
pub open spec fn share_views(shares: Seq<Vec<u8>>) -> Seq<Seq<u8>> {
    Seq::new(shares.len(), |i: int| shares[i]@)
}

/// Relies on sss_rs::wrapped_sharing::reconstruct, with hash verification:
/// the outcome depends on the shares alone.
#[verifier::external_body]
pub fn combine_shares(shares: &Vec<Vec<u8>>) -> (r: Result<Vec<u8>, ()>)
    requires
        shares_well_formed(share_views(shares@)),
    ensures
        match r {
            Ok(s) => recovered_of(share_views(shares@)) == Some(s@),
            Err(_) => recovered_of(share_views(shares@)) is None,
        },
{
    sss_rs::wrapped_sharing::reconstruct(shares, true).map_err(|_| ())
}

} // verus!

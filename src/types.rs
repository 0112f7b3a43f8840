//! The data each party holds, the states of the two machines, and the
//! messages between them.

use std::sync::Arc;
use vstd::prelude::*;
use crate::crypto::{KAPublicKey, KASecretKey, SignPublicKey, SignSecretKey};
use crate::helpers::{BundledSignature, Collector, CryptoMsg, RevealedShare, Signed};
use crate::idmap::IdMap;

verus! {

/// A set of ids, held as a map to nothing.
pub type IdSet = IdMap<()>;

/// A user's identity, its long-term keys, the registry of everyone's
/// verification keys, and the vector it contributes.
pub struct UserData {
    pub id: usize,
    pub threshold: usize,
    pub sign_pk: SignPublicKey,
    pub sign_sk: SignSecretKey,
    pub others_sign_pks: Arc<IdMap<SignPublicKey>>,
    pub grad: Vec<i64>,
}

/// A user's two key-agreement key pairs: one to seal shares, one to derive
/// pairwise masks.
pub struct OwnKeysData {
    pub comm_pk: KAPublicKey,
    pub comm_sk: KASecretKey,
    pub rand_pk: KAPublicKey,
    pub rand_sk: KASecretKey,
}

/// The other users' advertised key-agreement public keys.
pub struct OthersKeysData {
    pub comm_pks: IdMap<KAPublicKey>,
    pub rand_pks: IdMap<KAPublicKey>,
}

pub enum UserState {
    Round0,
    Round1(OwnKeysData),
    Round2(OwnKeysData, OthersKeysData, [u8; 32]),
    Round3(OwnKeysData, OthersKeysData, [u8; 32], IdMap<CryptoMsg>),
    Round4(OwnKeysData, OthersKeysData, [u8; 32], IdMap<CryptoMsg>, IdSet),
    Done,
    Failed,
}

/// A pair of signed key-agreement public keys: (comm, rand).
pub type SignedKeys = (Signed<KAPublicKey>, Signed<KAPublicKey>);

pub enum UserInput {
    Round0(),
    Round1(IdMap<SignedKeys>),
    Round2(IdMap<CryptoMsg>),
    Round3(Vec<usize>),
    Round4(IdMap<BundledSignature>),
}

pub enum UserOutput {
    Round0(Signed<KAPublicKey>, Signed<KAPublicKey>),
    Round1(IdMap<CryptoMsg>),
    Round2(Vec<i64>),
    Round3(BundledSignature),
    Round4(IdMap<RevealedShare>),
}

pub enum ServerState {
    Round0(Collector<SignedKeys>),
    Round1(Collector<IdMap<CryptoMsg>>, IdMap<KAPublicKey>),
    Round2(Collector<Vec<i64>>, IdMap<KAPublicKey>, IdSet),
    Round3(Collector<BundledSignature>, IdMap<KAPublicKey>, IdSet, Vec<Vec<i64>>, IdSet),
    Round4(Collector<IdMap<RevealedShare>>, IdMap<KAPublicKey>, IdSet, Vec<Vec<i64>>, IdSet),
    Done,
    Failed,
}

pub enum ServerOutput {
    Messages(IdMap<UserInput>),
    Gradient(Vec<i64>),
}

} // verus!

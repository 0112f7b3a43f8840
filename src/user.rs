//! The user's side of the protocol: one state machine per participant.

use std::sync::Arc;
use vstd::prelude::*;
use crate::codec::{id_set_bytes, push_id_set};
use crate::crypto::{
    rebuilds, share_views,
    dh, dh_public, dh_public_of, fresh_dh_secret, gen_nonce, Nonce, random_seed, sealed_of, sign, signature_of,
    signature_valid, split_secret, verify_signature, x25519_of, opened_of, KAPublicKey, SignPublicKey, SignSecretKey, Signature,
};
use crate::error::ProtocolError;
use crate::helpers::{
    chacha_mask, scalar_mul, scale_spec, shares_bytes, sum_components, sum_spec, vector_from_seed,
    views, BundledSignature, CryptoMsg, MaskGenShares, RevealedShare, Signable, Signed,
    parse_shares,
};
use crate::idmap::{ids_increasing, IdMap};
use crate::types::{
    IdSet, OthersKeysData, OwnKeysData, SignedKeys, UserData, UserInput, UserOutput, UserState,
};

verus! {

/// The sign with which user `u` adds the mask it shares with `v`: plus when
/// `v` comes first, nothing for itself, minus when `v` comes after. The two
/// ends of a pair use opposite signs, so the pair's mask cancels in the sum.
pub open spec fn pair_sign(v: usize, u: usize) -> i64 {
    if v < u {
        1i64
    } else if v == u {
        0i64
    } else {
        -1i64
    }
}

/// The mask that `u`, holding secret `sk`, shares with `v`, whose public key is
/// `pk`, signed as `u` adds it.
pub open spec fn pair_mask(sk: Seq<u8>, pk: Seq<u8>, v: usize, u: usize, len: nat) -> Seq<i64> {
    scale_spec(pair_sign(v, u), chacha_mask(x25519_of(sk, pk), len))
}

/// What user `id` adds up in round two: its vector, its own mask, and one
/// pairwise mask for each peer.
pub open spec fn masked_terms(
    grad: Seq<i64>,
    seed: Seq<u8>,
    rand_sk: Seq<u8>,
    id: usize,
    peers: Seq<usize>,
    rand_pks: Map<usize, KAPublicKey>,
) -> Seq<Seq<i64>> {
    Seq::new(
        peers.len() + 2,
        |k: int|
            if k == 0 {
                grad
            } else if k == 1 {
                chacha_mask(seed, grad.len())
            } else {
                pair_mask(rand_sk, rand_pks[peers[k - 2]]@, peers[k - 2], id, grad.len())
            },
    )
}

/// Round zero: fresh key pairs, whose public halves are signed; fails only
/// when the random source does.
fn round_0(data: &UserData) -> (r: Result<
    (OwnKeysData, (Signed<KAPublicKey>, Signed<KAPublicKey>)),
    ProtocolError,
>)
    ensures
        r matches Err(e) ==> e == ProtocolError::PrimitiveFailed,
        r matches Ok((keys, (c, k))) ==> {
            &&& keys.comm_pk@ == dh_public_of(keys.comm_sk@)
            &&& keys.rand_pk@ == dh_public_of(keys.rand_sk@)
            &&& c.msg == keys.comm_pk
            &&& c.sig@ == signature_of(keys.comm_pk@, data.sign_sk@)
            &&& k.msg == keys.rand_pk
            &&& k.sig@ == signature_of(keys.rand_pk@, data.sign_sk@)
        },
{
    let (comm_sk, rand_sk) = match (fresh_dh_secret(), fresh_dh_secret()) {
        (Ok(a), Ok(b)) => (a, b),
        _ => {
            return Err(ProtocolError::PrimitiveFailed);
        },
    };
    let comm_pk = dh_public(comm_sk);
    let rand_pk = dh_public(rand_sk);
    let own_keys = OwnKeysData { comm_pk, comm_sk, rand_pk, rand_sk };
    Ok((own_keys, (Signed::wrap(comm_pk, &data.sign_sk), Signed::wrap(rand_pk, &data.sign_sk))))
}

/// Round two: the user's vector hidden under its own mask and one pairwise
/// mask for each user that sent it shares.
fn round_2(
    data: &UserData,
    own_keys: &OwnKeysData,
    others_keys: &OthersKeysData,
    own_seed: [u8; 32],
    crypted_keys: &IdMap<CryptoMsg>,
) -> (r: Result<Vec<i64>, ProtocolError>)
    ensures
        r is Ok <==> crypted_keys.entries().len() >= data.threshold && forall|i: int|
            0 <= i < crypted_keys.ids().len() ==> others_keys.rand_pks@.contains_key(
                #[trigger] crypted_keys.ids()[i],
            ),
        (r == Err::<Vec<i64>, ProtocolError>(ProtocolError::ThresholdNotMet))
            <==> crypted_keys.entries().len() < data.threshold,
        (r == Err::<Vec<i64>, ProtocolError>(ProtocolError::MalformedMessage)) <==> crypted_keys.entries().len()
            >= data.threshold && exists|i: int|
            0 <= i < crypted_keys.ids().len() && !others_keys.rand_pks@.contains_key(
                #[trigger] crypted_keys.ids()[i],
            ),
        r matches Ok(out) ==> out@ == sum_spec(
                    masked_terms(
                        data.grad@,
                        own_seed@,
                        own_keys.rand_sk@,
                        data.id,
                        crypted_keys.ids(),
                        others_keys.rand_pks@,
                    ),
                    data.grad@.len(),
                ),
{
    let u_2 = crypted_keys.keys();
    if u_2.len() < data.threshold {
        return Err(ProtocolError::ThresholdNotMet);
    }
    let len = data.grad.len();
    let ghost terms = masked_terms(
        data.grad@,
        own_seed@,
        own_keys.rand_sk@,
        data.id,
        crypted_keys.ids(),
        others_keys.rand_pks@,
    );
    let mut parts: Vec<Vec<i64>> = Vec::new();
    let grad = data.grad.clone();
    assert(grad@ =~= data.grad@);
    parts.push(grad);
    parts.push(vector_from_seed(own_seed, len));
    assert(terms.len() == u_2@.len() + 2);
    assert(views(parts@) =~= terms.subrange(0, 2));
    let mut i: usize = 0;
    while i < u_2.len()
        invariant
            i <= u_2@.len(),
            u_2@ == crypted_keys.ids(),
            u_2@.len() == crypted_keys.entries().len(),
            u_2@.len() >= data.threshold,
            terms.len() == u_2@.len() + 2,
            terms == masked_terms(
                data.grad@,
                own_seed@,
                own_keys.rand_sk@,
                data.id,
                crypted_keys.ids(),
                others_keys.rand_pks@,
            ),
            len == data.grad@.len(),
            views(parts@) == terms.subrange(0, i + 2),
            forall|j: int|
                0 <= j < i ==> others_keys.rand_pks@.contains_key(#[trigger] crypted_keys.ids()[j]),
        decreases u_2@.len() - i,
    {
        let v = u_2[i];
        let other_rand_pk = match others_keys.rand_pks.get(v) {
            Some(pk) => pk,
            None => {
                assert(!others_keys.rand_pks@.contains_key(crypted_keys.ids()[i as int]));
                return Err(ProtocolError::MalformedMessage);
            },
        };
        let common_seed = dh(own_keys.rand_sk, *other_rand_pk);
        let l: i64 = if v < data.id {
            1
        } else if v == data.id {
            0
        } else {
            -1
        };
        let mask = scalar_mul(l, vector_from_seed(common_seed, len));
        let ghost before = parts@;
        parts.push(mask);
        proof {
            assert(l == pair_sign(v, data.id));
            assert(terms[i + 2] == pair_mask(
                own_keys.rand_sk@,
                others_keys.rand_pks@[v]@,
                v,
                data.id,
                data.grad@.len(),
            ));
            assert(mask@ == terms[i + 2]);
            assert(views(parts@) =~= views(before).push(mask@));
        }
        i = i + 1;
        assert(views(parts@) =~= terms.subrange(0, i + 2));
    }
    assert(views(parts@) =~= terms);
    Ok(sum_components(parts, len))
}

/// Round three: a signature over the set of ids the server reports alive.
fn round_3(data: &UserData, users: &Vec<usize>) -> (r: Result<(IdSet, Signature), ProtocolError>)
    ensures
        match r {
            Ok((alive, sig)) => {
                &&& users@.len() >= 3
                &&& alive@.dom() == users@.to_set()
                &&& sig@ == signature_of(id_set_bytes(alive.ids()), data.sign_sk@)
            },
            Err(e) => users@.len() < 3 && e == ProtocolError::ThresholdNotMet,
        },
{
    if users.len() < 3 {
        return Err(ProtocolError::ThresholdNotMet);
    }
    let mut alive: IdSet = IdMap::new();
    let mut i: usize = 0;
    while i < users.len()
        invariant
            i <= users@.len(),
            alive@.dom() == users@.subrange(0, i as int).to_set(),
        decreases users@.len() - i,
    {
        alive.insert(users[i], ());
        i = i + 1;
        assert(users@.subrange(0, i as int) =~= users@.subrange(0, i - 1).push(users@[i - 1]));
        proof {
            users@.subrange(0, i - 1).lemma_push_to_set_commute(users@[i - 1]);
        }
        assert(alive@.dom() =~= users@.subrange(0, i as int).to_set());
    }
    assert(users@.subrange(0, users@.len() as int) =~= users@);
    let ids = alive.keys();
    let mut msg: Vec<u8> = Vec::new();
    push_id_set(&mut msg, &ids);
    let sig = sign(msg.as_slice(), &data.sign_sk);
    Ok((alive, sig))
}

} // verus!

verus! {

/// The comm keys of the signed pairs, in the same order.
pub open spec fn comm_keys_of(s: Seq<(usize, SignedKeys)>) -> Seq<(usize, KAPublicKey)> {
    Seq::new(s.len(), |i: int| (s[i].0, s[i].1.0.msg))
}

/// The rand keys of the signed pairs, in the same order.
pub open spec fn rand_keys_of(s: Seq<(usize, SignedKeys)>) -> Seq<(usize, KAPublicKey)> {
    Seq::new(s.len(), |i: int| (s[i].0, s[i].1.1.msg))
}

/// Every id in `ids` has a registered verification key.
pub open spec fn all_registered(registry: Map<usize, SignPublicKey>, ids: Seq<usize>) -> bool {
    forall|i: int| 0 <= i < ids.len() ==> registry.contains_key(#[trigger] ids[i])
}

/// Both keys of every pair are signed by the sender's registered key.
pub open spec fn keys_signed(
    registry: Map<usize, SignPublicKey>,
    s: Seq<(usize, SignedKeys)>,
) -> bool {
    forall|i: int|
        0 <= i < s.len() ==> signature_valid(
            (#[trigger] s[i]).1.0.msg@,
            s[i].1.0.sig@,
            registry[s[i].0]@,
        ) && signature_valid(s[i].1.1.msg@, s[i].1.1.sig@, registry[s[i].0]@)
}

/// Envelope `i` of `msgs` goes to the `i`-th user of `v` and seals, under
/// the pairwise key of `comm_sk` and that user's comm key, the record from
/// `me` to it holding share `i` of each list; it opens back to that record.
pub open spec fn sealed_each(
    msgs: IdMap<CryptoMsg>,
    v: IdMap<SignedKeys>,
    me: usize,
    comm_sk: Seq<u8>,
    rand_sk_shares: Seq<Seq<u8>>,
    seed_shares: Seq<Seq<u8>>,
) -> bool {
    &&& msgs.ids() == v.ids()
    &&& forall|i: int|
        0 <= i < msgs.entries().len() ==> {
            let m = #[trigger] msgs.entries()[i].1;
            let rec = shares_bytes(me, v.ids()[i], rand_sk_shares[i], seed_shares[i]);
            let key = x25519_of(comm_sk, v.entries()[i].1.0.msg@);
            &&& m.c@ == sealed_of(rec, m.nonce@, key)
            &&& opened_of(m.c@, m.nonce@, key) == Some(rec)
        }
}

/// The envelopes carry, one share each, a sharing of the rand secret key and
/// one of the seed, any `threshold` shares of which rebuild them.
pub open spec fn seals_sharing(
    msgs: IdMap<CryptoMsg>,
    v: IdMap<SignedKeys>,
    me: usize,
    comm_sk: Seq<u8>,
    rand_sk: Seq<u8>,
    seed: Seq<u8>,
    threshold: nat,
) -> bool {
    exists|rs: Seq<Seq<u8>>, ss: Seq<Seq<u8>>|
        #![trigger rebuilds(rs, threshold, rand_sk), rebuilds(ss, threshold, seed)]
        rs.len() == v.entries().len() && ss.len() == v.entries().len() && rebuilds(
            rs,
            threshold,
            rand_sk,
        ) && rebuilds(ss, threshold, seed) && sealed_each(msgs, v, me, comm_sk, rs, ss)
}

/// Seals for the `i`-th user of `v` its share of the rand secret key and of
/// the seed, under the `i`-th nonce.
pub fn seal_shares(
    data: &UserData,
    own_keys: &OwnKeysData,
    v: &IdMap<SignedKeys>,
    rand_sk_shares: &Vec<Vec<u8>>,
    seed_shares: &Vec<Vec<u8>>,
    nonces: &Vec<Nonce>,
) -> (r: IdMap<CryptoMsg>)
    requires
        rand_sk_shares@.len() == v.entries().len(),
        seed_shares@.len() == v.entries().len(),
        nonces@.len() == v.entries().len(),
    ensures
        forall|i: int| 0 <= i < r.entries().len() ==> #[trigger] r.entries()[i].1.nonce == nonces@[i],
        sealed_each(
            r,
            *v,
            data.id,
            own_keys.comm_sk@,
            share_views(rand_sk_shares@),
            share_views(seed_shares@),
        ),
{
    let n = v.len();
    let mut msgs: Vec<(usize, CryptoMsg)> = Vec::new();
    let mut i: usize = 0;
    while i < n
        invariant
            n == v.entries().len(),
            i <= n,
            rand_sk_shares@.len() == n,
            seed_shares@.len() == n,
            nonces@.len() == n,
            msgs@.len() == i,
            forall|j: int| 0 <= j < i ==> (#[trigger] msgs@[j]).0 == v.ids()[j] && msgs@[j].1.nonce
                == nonces@[j],
            forall|j: int|
                0 <= j < i ==> {
                    let m = (#[trigger] msgs@[j]).1;
                    let rec = shares_bytes(
                        data.id,
                        v.ids()[j],
                        rand_sk_shares@[j]@,
                        seed_shares@[j]@,
                    );
                    let key = x25519_of(own_keys.comm_sk@, v.entries()[j].1.0.msg@);
                    &&& m.c@ == sealed_of(rec, m.nonce@, key)
                    &&& opened_of(m.c@, m.nonce@, key) == Some(rec)
                },
        decreases n - i,
    {
        let e = v.entry(i);
        let id = e.0;
        let common_key = dh(own_keys.comm_sk, (e.1).0.msg);
        let a = rand_sk_shares[i].clone();
        let b = seed_shares[i].clone();
        assert(a@ =~= rand_sk_shares@[i as int]@);
        assert(b@ =~= seed_shares@[i as int]@);
        let rec = MaskGenShares::new(data.id, id, a, b);
        let plain = rec.to_bytes();
        let msg = CryptoMsg::seal(plain.as_slice(), common_key, nonces[i]);
        msgs.push((id, msg));
        i = i + 1;
    }
    proof {
        use_type_invariant(v);
        assert forall|a: int, b: int| 0 <= a < b < msgs@.len() implies msgs@[a].0 < msgs@[b].0 by {
            assert(msgs@[a].0 == v.ids()[a]);
            assert(msgs@[b].0 == v.ids()[b]);
        }
    }
    let r = IdMap::from_sorted(msgs);
    proof {
        assert(r.ids() =~= v.ids());
        assert forall|i: int| 0 <= i < r.entries().len() implies share_views(rand_sk_shares@)[i]
            == rand_sk_shares@[i]@ && share_views(seed_shares@)[i] == seed_shares@[i]@ by {}
    }
    r
}

/// Round one: check everyone's signed keys, split the rand secret and a fresh
/// seed into shares, and seal each user's two shares for it.
fn round_1(data: &UserData, own_keys: &OwnKeysData, v: &IdMap<SignedKeys>) -> (r: Result<
    (OthersKeysData, [u8; 32], IdMap<CryptoMsg>),
    ProtocolError,
>)
    ensures
        (r == Err::<(OthersKeysData, [u8; 32], IdMap<CryptoMsg>), ProtocolError>(
            ProtocolError::ThresholdNotMet,
        )) <==> v.entries().len() < data.threshold,
        (r == Err::<(OthersKeysData, [u8; 32], IdMap<CryptoMsg>), ProtocolError>(
            ProtocolError::UnknownSigner,
        )) <==> v.entries().len() >= data.threshold && !all_registered(
            data.others_sign_pks@,
            v.ids(),
        ),
        (r == Err::<(OthersKeysData, [u8; 32], IdMap<CryptoMsg>), ProtocolError>(
            ProtocolError::SignatureInvalid,
        )) <==> v.entries().len() >= data.threshold && all_registered(
            data.others_sign_pks@,
            v.ids(),
        ) && !keys_signed(data.others_sign_pks@, v.entries()),
        r matches Err(e) ==> e == ProtocolError::ThresholdNotMet || e
            == ProtocolError::UnknownSigner || e == ProtocolError::SignatureInvalid || e
            == ProtocolError::PrimitiveFailed,
        r matches Err(ProtocolError::PrimitiveFailed) ==> v.entries().len() >= data.threshold
            && all_registered(data.others_sign_pks@, v.ids()) && keys_signed(
            data.others_sign_pks@,
            v.entries(),
        ),
        v.entries().len() >= data.threshold && all_registered(data.others_sign_pks@, v.ids())
            && keys_signed(data.others_sign_pks@, v.entries()) && (v.entries().len() < 2
            || v.entries().len() > 255) ==> r == Err::<
            (OthersKeysData, [u8; 32], IdMap<CryptoMsg>),
            ProtocolError,
        >(ProtocolError::PrimitiveFailed),
        r matches Ok((others, seed, msgs)) ==> {
            &&& others.comm_pks.entries() == comm_keys_of(v.entries())
            &&& others.rand_pks.entries() == rand_keys_of(v.entries())
            &&& msgs.ids() == v.ids()
            &&& seals_sharing(
                msgs,
                *v,
                data.id,
                own_keys.comm_sk@,
                own_keys.rand_sk@,
                seed@,
                data.threshold as nat,
            )
        },
{
    let n = v.len();
    if n < data.threshold {
        return Err(ProtocolError::ThresholdNotMet);
    }
    let registry: &IdMap<SignPublicKey> = &data.others_sign_pks;
    let mut pks: Vec<SignPublicKey> = Vec::new();
    let mut i: usize = 0;
    while i < n
        invariant
            n == v.entries().len(),
            n >= data.threshold,
            *registry == *data.others_sign_pks,
            i <= n,
            pks@.len() == i,
            forall|j: int|
                0 <= j < i ==> registry@.contains_key(#[trigger] v.ids()[j]) && registry@[v.ids()[j]]
                    == pks@[j],
        decreases n - i,
    {
        let id = v.entry(i).0;
        match registry.get(id) {
            Some(pk) => pks.push(*pk),
            None => {
                assert(!registry@.contains_key(v.ids()[i as int]));
                return Err(ProtocolError::UnknownSigner);
            },
        }
        i = i + 1;
    }
    let mut i: usize = 0;
    while i < n
        invariant
            n == v.entries().len(),
            n >= data.threshold,
            *registry == *data.others_sign_pks,
            all_registered(registry@, v.ids()),
            i <= n,
            pks@.len() == n,
            forall|j: int|
                0 <= j < n ==> registry@.contains_key(#[trigger] v.ids()[j]) && registry@[v.ids()[j]]
                    == pks@[j],
            forall|j: int|
                0 <= j < i ==> signature_valid(
                    (#[trigger] v.entries()[j]).1.0.msg@,
                    v.entries()[j].1.0.sig@,
                    registry@[v.entries()[j].0]@,
                ) && signature_valid(
                    v.entries()[j].1.1.msg@,
                    v.entries()[j].1.1.sig@,
                    registry@[v.entries()[j].0]@,
                ),
        decreases n - i,
    {
        let e = v.entry(i);
        assert(v.ids()[i as int] == v.entries()[i as int].0);
        let ok = (e.1).0.verify(&pks[i]).is_ok() && (e.1).1.verify(&pks[i]).is_ok();
        if !ok {
            assert(!signature_valid(
                v.entries()[i as int].1.0.msg@,
                v.entries()[i as int].1.0.sig@,
                registry@[v.entries()[i as int].0]@,
            ) || !signature_valid(
                v.entries()[i as int].1.1.msg@,
                v.entries()[i as int].1.1.sig@,
                registry@[v.entries()[i as int].0]@,
            ));
            return Err(ProtocolError::SignatureInvalid);
        }
        i = i + 1;
    }
    if n < 2 || n > 255 {
        return Err(ProtocolError::PrimitiveFailed);
    }
    let mut comm: Vec<(usize, KAPublicKey)> = Vec::new();
    let mut rand: Vec<(usize, KAPublicKey)> = Vec::new();
    let mut i: usize = 0;
    while i < n
        invariant
            n == v.entries().len(),
            n >= data.threshold,
            all_registered(data.others_sign_pks@, v.ids()),
            keys_signed(data.others_sign_pks@, v.entries()),
            i <= n,
            comm@ == comm_keys_of(v.entries()).subrange(0, i as int),
            rand@ == rand_keys_of(v.entries()).subrange(0, i as int),
        decreases n - i,
    {
        let e = v.entry(i);
        comm.push((e.0, (e.1).0.msg));
        rand.push((e.0, (e.1).1.msg));
        i = i + 1;
        assert(comm@ =~= comm_keys_of(v.entries()).subrange(0, i as int));
        assert(rand@ =~= rand_keys_of(v.entries()).subrange(0, i as int));
    }
    proof {
        assert(comm@ =~= comm_keys_of(v.entries()));
        assert(rand@ =~= rand_keys_of(v.entries()));
        use_type_invariant(v);
        v.lemma_wf();
    }
    let comm_pks = IdMap::from_sorted(comm);
    let rand_pks = IdMap::from_sorted(rand);
    let seed = match random_seed() {
        Ok(s) => s,
        Err(()) => {
            return Err(ProtocolError::PrimitiveFailed);
        },
    };
    let rand_sk_bytes = own_keys.rand_sk.as_message();
    let seed_bytes = seed.as_message();
    let (rand_sk_shares, seed_shares) = match (
        split_secret(rand_sk_bytes.as_slice(), data.threshold as u8, n as u8),
        split_secret(seed_bytes.as_slice(), data.threshold as u8, n as u8),
    ) {
        (Ok(a), Ok(b)) => (a, b),
        _ => {
            return Err(ProtocolError::PrimitiveFailed);
        },
    };
    let mut nonces: Vec<Nonce> = Vec::new();
    let mut i: usize = 0;
    while i < n
        invariant
            i <= n,
            nonces@.len() == i,
            n == v.entries().len(),
            n >= data.threshold,
            all_registered(data.others_sign_pks@, v.ids()),
            keys_signed(data.others_sign_pks@, v.entries()),
        decreases n - i,
    {
        match gen_nonce() {
            Ok(nonce) => nonces.push(nonce),
            Err(()) => {
                return Err(ProtocolError::PrimitiveFailed);
            },
        }
        i = i + 1;
    }
    let msgs = seal_shares(data, own_keys, v, &rand_sk_shares, &seed_shares, &nonces);
    assert(rebuilds(share_views(rand_sk_shares@), data.threshold as nat, own_keys.rand_sk@));
    assert(rebuilds(share_views(seed_shares@), data.threshold as nat, seed@));
    Ok((OthersKeysData { comm_pks, rand_pks }, seed, msgs))
}

} // verus!

verus! {

/// What the envelope `m` from `v`, addressed to `me`, yields: the two shares
/// it carries, or why it yields none.
pub open spec fn envelope_outcome(
    me: usize,
    comm_sk: Seq<u8>,
    comm_pks: Map<usize, KAPublicKey>,
    v: usize,
    m: CryptoMsg,
) -> Result<(Seq<u8>, Seq<u8>), ProtocolError> {
    if !comm_pks.contains_key(v) {
        Err(ProtocolError::MalformedMessage)
    } else {
        match opened_of(m.c@, m.nonce@, x25519_of(comm_sk, comm_pks[v]@)) {
            None => Err(ProtocolError::DecryptionFailed),
            Some(p) => match parse_shares(p) {
                None => Err(ProtocolError::DecryptionFailed),
                Some((from, to, a, b)) => if from != v || to != me {
                    Err(ProtocolError::ShareTagMismatch)
                } else {
                    Ok((a, b))
                },
            },
        }
    }
}

/// The outcome of the `i`-th envelope of `crypted`.
pub open spec fn outcome_at(
    me: usize,
    comm_sk: Seq<u8>,
    comm_pks: Map<usize, KAPublicKey>,
    crypted: IdMap<CryptoMsg>,
    i: int,
) -> Result<(Seq<u8>, Seq<u8>), ProtocolError> {
    envelope_outcome(me, comm_sk, comm_pks, crypted.entries()[i].0, crypted.entries()[i].1)
}

/// Every alive-set signature was made by a registered user over `msg`.
pub open spec fn alive_signed(
    registry: Map<usize, SignPublicKey>,
    s: Seq<(usize, BundledSignature)>,
    msg: Seq<u8>,
) -> bool {
    forall|i: int|
        0 <= i < s.len() ==> signature_valid(msg, (#[trigger] s[i]).1.sig@, registry[s[i].0]@)
}

/// The shares revealed for `k`: the seed share of an alive user, the rand
/// secret share of one that dropped.
pub open spec fn reveals(r: RevealedShare, alive: bool, shares: (Seq<u8>, Seq<u8>)) -> bool {
    match r {
        RevealedShare::Seed(s) => alive && s@ == shares.1,
        RevealedShare::RandSk(s) => !alive && s@ == shares.0,
    }
}

/// Round four: check everyone signed the same alive set, open the envelopes,
/// and reveal the seed share of each alive user and the rand secret share of
/// each user that dropped.
fn round_4(
    data: &UserData,
    own_keys: &OwnKeysData,
    others_keys: &OthersKeysData,
    crypted_keys: &IdMap<CryptoMsg>,
    alive: &IdSet,
    signatures: &IdMap<BundledSignature>,
) -> (r: Result<IdMap<RevealedShare>, ProtocolError>)
    ensures
        ({
            let sigs_ok = signatures.entries().len() >= data.threshold && all_registered(
                data.others_sign_pks@,
                signatures.ids(),
            ) && alive_signed(
                data.others_sign_pks@,
                signatures.entries(),
                id_set_bytes(alive.ids()),
            );
            let opened = forall|i: int|
                0 <= i < crypted_keys.entries().len() ==> (#[trigger] outcome_at(data.id, own_keys.comm_sk@, others_keys.comm_pks@, *crypted_keys, i)) is Ok;
            let covered = forall|k: usize|
                alive@.contains_key(k) ==> #[trigger] crypted_keys@.contains_key(k);
            &&& (r == Err::<IdMap<RevealedShare>, ProtocolError>(ProtocolError::ThresholdNotMet))
                <==> signatures.entries().len() < data.threshold
            &&& (r == Err::<IdMap<RevealedShare>, ProtocolError>(ProtocolError::UnknownSigner))
                <==> signatures.entries().len() >= data.threshold && !all_registered(
                data.others_sign_pks@,
                signatures.ids(),
            )
            &&& (r == Err::<IdMap<RevealedShare>, ProtocolError>(ProtocolError::SignatureInvalid))
                <==> signatures.entries().len() >= data.threshold && all_registered(
                data.others_sign_pks@,
                signatures.ids(),
            ) && !alive_signed(
                data.others_sign_pks@,
                signatures.entries(),
                id_set_bytes(alive.ids()),
            )
            &&& r is Ok <==> sigs_ok && opened && covered
            &&& r matches Err(e) ==> e == ProtocolError::ThresholdNotMet || e
                == ProtocolError::UnknownSigner || e == ProtocolError::SignatureInvalid || (sigs_ok
                && ((exists|i: int|
                0 <= i < crypted_keys.entries().len() && #[trigger] outcome_at(data.id, own_keys.comm_sk@, others_keys.comm_pks@, *crypted_keys, i) == Err::<
                    (Seq<u8>, Seq<u8>),
                    ProtocolError,
                >(e) && forall|j: int|
                    0 <= j < i ==> (#[trigger] outcome_at(
                        data.id,
                        own_keys.comm_sk@,
                        others_keys.comm_pks@,
                        *crypted_keys,
                        j,
                    )) is Ok) || (opened && !covered && e == ProtocolError::MalformedMessage)))
            &&& r matches Ok(rev) ==> {
                &&& rev@.dom() == crypted_keys@.dom()
                &&& forall|i: int|
                    0 <= i < crypted_keys.entries().len() ==> #[trigger] reveals(
                        rev@[crypted_keys.entries()[i].0],
                        alive@.contains_key(crypted_keys.entries()[i].0),
                        outcome_at(data.id, own_keys.comm_sk@, others_keys.comm_pks@, *crypted_keys, i)->Ok_0,
                    )
            }
        }),
{
    let n = signatures.len();
    if n < data.threshold {
        return Err(ProtocolError::ThresholdNotMet);
    }
    let registry: &IdMap<SignPublicKey> = &data.others_sign_pks;
    let mut pks: Vec<SignPublicKey> = Vec::new();
    let mut i: usize = 0;
    while i < n
        invariant
            n == signatures.entries().len(),
            n >= data.threshold,
            *registry == *data.others_sign_pks,
            i <= n,
            pks@.len() == i,
            forall|j: int|
                0 <= j < i ==> registry@.contains_key(#[trigger] signatures.ids()[j])
                    && registry@[signatures.ids()[j]] == pks@[j],
        decreases n - i,
    {
        let id = signatures.entry(i).0;
        match registry.get(id) {
            Some(pk) => pks.push(*pk),
            None => {
                assert(!registry@.contains_key(signatures.ids()[i as int]));
                return Err(ProtocolError::UnknownSigner);
            },
        }
        i = i + 1;
    }
    let alive_list = alive.keys();
    let mut alive_msg: Vec<u8> = Vec::new();
    push_id_set(&mut alive_msg, &alive_list);
    assert(alive_msg@ =~= id_set_bytes(alive.ids()));
    let mut i: usize = 0;
    while i < n
        invariant
            n == signatures.entries().len(),
            n >= data.threshold,
            *registry == *data.others_sign_pks,
            all_registered(registry@, signatures.ids()),
            alive_msg@ == id_set_bytes(alive.ids()),
            i <= n,
            pks@.len() == n,
            forall|j: int|
                0 <= j < n ==> registry@.contains_key(#[trigger] signatures.ids()[j])
                    && registry@[signatures.ids()[j]] == pks@[j],
            forall|j: int|
                0 <= j < i ==> signature_valid(
                    alive_msg@,
                    (#[trigger] signatures.entries()[j]).1.sig@,
                    registry@[signatures.entries()[j].0]@,
                ),
        decreases n - i,
    {
        let e = signatures.entry(i);
        assert(signatures.ids()[i as int] == signatures.entries()[i as int].0);
        if verify_signature(alive_msg.as_slice(), &e.1.sig, &pks[i]).is_err() {
            return Err(ProtocolError::SignatureInvalid);
        }
        i = i + 1;
    }
    let m = crypted_keys.len();
    let mut gen: Vec<(usize, MaskGenShares)> = Vec::new();
    let mut i: usize = 0;
    while i < m
        invariant
            m == crypted_keys.entries().len(),
            n == signatures.entries().len(),
            n >= data.threshold,
            all_registered(data.others_sign_pks@, signatures.ids()),
            alive_signed(data.others_sign_pks@, signatures.entries(), id_set_bytes(alive.ids())),
            i <= m,
            gen@.len() == i,
            forall|j: int|
                0 <= j < i ==> (#[trigger] outcome_at(
                    data.id,
                    own_keys.comm_sk@,
                    others_keys.comm_pks@,
                    *crypted_keys,
                    j,
                )) is Ok,
            forall|j: int|
                0 <= j < i ==> (#[trigger] gen@[j]).0 == crypted_keys.entries()[j].0 && outcome_at(data.id, own_keys.comm_sk@, others_keys.comm_pks@, *crypted_keys, j)
                    == Ok::<(Seq<u8>, Seq<u8>), ProtocolError>(
                    (gen@[j].1.rand_sk_share@, gen@[j].1.seed_share@),
                ),
        decreases m - i,
    {
        let (v, msg) = crypted_keys.entry(i);
        let v = *v;
        let comm_pk = match others_keys.comm_pks.get(v) {
            Some(pk) => pk,
            None => {
                assert(outcome_at(data.id, own_keys.comm_sk@, others_keys.comm_pks@, *crypted_keys, i as int) == Err::<(Seq<u8>, Seq<u8>), ProtocolError>(
                    ProtocolError::MalformedMessage,
                ));
                return Err(ProtocolError::MalformedMessage);
            },
        };
        let key = dh(own_keys.comm_sk, *comm_pk);
        let plain = match msg.unwrap(key) {
            Ok(p) => p,
            Err(()) => {
                assert(outcome_at(data.id, own_keys.comm_sk@, others_keys.comm_pks@, *crypted_keys, i as int) == Err::<(Seq<u8>, Seq<u8>), ProtocolError>(
                    ProtocolError::DecryptionFailed,
                ));
                return Err(ProtocolError::DecryptionFailed);
            },
        };
        let share = match MaskGenShares::from_bytes(&plain) {
            Some(s) => s,
            None => {
                assert(outcome_at(data.id, own_keys.comm_sk@, others_keys.comm_pks@, *crypted_keys, i as int) == Err::<(Seq<u8>, Seq<u8>), ProtocolError>(
                    ProtocolError::DecryptionFailed,
                ));
                return Err(ProtocolError::DecryptionFailed);
            },
        };
        if share.u != v || share.v != data.id {
            assert(outcome_at(data.id, own_keys.comm_sk@, others_keys.comm_pks@, *crypted_keys, i as int) == Err::<(Seq<u8>, Seq<u8>), ProtocolError>(
                ProtocolError::ShareTagMismatch,
            ));
            return Err(ProtocolError::ShareTagMismatch);
        }
        assert(outcome_at(data.id, own_keys.comm_sk@, others_keys.comm_pks@, *crypted_keys, i as int) == Ok::<(Seq<u8>, Seq<u8>), ProtocolError>(
            (share.rand_sk_share@, share.seed_share@),
        ));
        gen.push((v, share));
        i = i + 1;
    }
    proof {
        assert forall|j: int| 0 <= j < m implies (#[trigger] outcome_at(data.id, own_keys.comm_sk@, others_keys.comm_pks@, *crypted_keys, j)) is Ok by {
            assert(gen@[j].0 == crypted_keys.entries()[j].0);
        }
    }
    let ids = alive.keys();
    let mut k: usize = 0;
    while k < ids.len()
        invariant
            m == crypted_keys.entries().len(),
            n == signatures.entries().len(),
            n >= data.threshold,
            all_registered(data.others_sign_pks@, signatures.ids()),
            alive_signed(data.others_sign_pks@, signatures.entries(), id_set_bytes(alive.ids())),
            gen@.len() == m,
            forall|j: int|
                0 <= j < m ==> (#[trigger] gen@[j]).0 == crypted_keys.entries()[j].0 && outcome_at(data.id, own_keys.comm_sk@, others_keys.comm_pks@, *crypted_keys, j)
                    == Ok::<(Seq<u8>, Seq<u8>), ProtocolError>(
                    (gen@[j].1.rand_sk_share@, gen@[j].1.seed_share@),
                ),
            forall|j: int| 0 <= j < m ==> (#[trigger] outcome_at(data.id, own_keys.comm_sk@, others_keys.comm_pks@, *crypted_keys, j)) is Ok,
            ids@ == alive.ids(),
            k <= ids@.len(),
            forall|j: int| 0 <= j < k ==> crypted_keys@.contains_key(#[trigger] ids@[j]),
        decreases ids@.len() - k,
    {
        if !crypted_keys.contains_key(ids[k]) {
            proof {
                use_type_invariant(alive);
                alive.lemma_wf();
                assert(alive@.contains_key(alive.entries()[k as int].0));
            }
            return Err(ProtocolError::MalformedMessage);
        }
        k = k + 1;
    }
    proof {
        use_type_invariant(alive);
        alive.lemma_wf();
        use_type_invariant(crypted_keys);
        crypted_keys.lemma_wf();
        assert forall|key: usize| alive@.contains_key(key) implies #[trigger] crypted_keys@.contains_key(
            key,
        ) by {
            let j = choose|j: int| 0 <= j < alive.entries().len() && alive.entries()[j].0 == key;
            assert(ids@[j] == key);
        }
    }
    let mut revealed: IdMap<RevealedShare> = IdMap::new();
    let mut i: usize = 0;
    while i < m
        invariant
            m == crypted_keys.entries().len(),
            n == signatures.entries().len(),
            n >= data.threshold,
            all_registered(data.others_sign_pks@, signatures.ids()),
            alive_signed(data.others_sign_pks@, signatures.entries(), id_set_bytes(alive.ids())),
            gen@.len() == m,
            forall|j: int|
                0 <= j < m ==> (#[trigger] gen@[j]).0 == crypted_keys.entries()[j].0 && outcome_at(data.id, own_keys.comm_sk@, others_keys.comm_pks@, *crypted_keys, j)
                    == Ok::<(Seq<u8>, Seq<u8>), ProtocolError>(
                    (gen@[j].1.rand_sk_share@, gen@[j].1.seed_share@),
                ),
            forall|j: int| 0 <= j < m ==> (#[trigger] outcome_at(data.id, own_keys.comm_sk@, others_keys.comm_pks@, *crypted_keys, j)) is Ok,
            ids_increasing(crypted_keys.entries()),
            forall|key: usize| alive@.contains_key(key) ==> #[trigger] crypted_keys@.contains_key(key),
            i <= m,
            forall|key: usize|
                #[trigger] revealed@.contains_key(key) <==> exists|j: int|
                    0 <= j < i && crypted_keys.entries()[j].0 == key,
            forall|j: int|
                0 <= j < i ==> #[trigger] reveals(
                    revealed@[crypted_keys.entries()[j].0],
                    alive@.contains_key(crypted_keys.entries()[j].0),
                    outcome_at(data.id, own_keys.comm_sk@, others_keys.comm_pks@, *crypted_keys, j)->Ok_0,
                ),
        decreases m - i,
    {
        let v = gen[i].0;
        let ghost before = revealed@;
        if alive.contains_key(v) {
            let s = gen[i].1.seed_share.clone();
            assert(s@ =~= gen@[i as int].1.seed_share@);
            revealed.insert(v, RevealedShare::Seed(s));
        } else {
            let s = gen[i].1.rand_sk_share.clone();
            assert(s@ =~= gen@[i as int].1.rand_sk_share@);
            revealed.insert(v, RevealedShare::RandSk(s));
        }
        proof {
            assert forall|j: int| 0 <= j < i + 1 implies #[trigger] reveals(
                revealed@[crypted_keys.entries()[j].0],
                alive@.contains_key(crypted_keys.entries()[j].0),
                outcome_at(data.id, own_keys.comm_sk@, others_keys.comm_pks@, *crypted_keys, j)->Ok_0,
            ) by {
                if j < i {
                    assert(crypted_keys.entries()[j].0 < crypted_keys.entries()[i as int].0);
                }
            }
            assert forall|key: usize|
                #[trigger] revealed@.contains_key(key) <== exists|j: int|
                    0 <= j < i + 1 && crypted_keys.entries()[j].0 == key by {
                if exists|j: int| 0 <= j < i + 1 && crypted_keys.entries()[j].0 == key {
                    let j = choose|j: int| 0 <= j < i + 1 && crypted_keys.entries()[j].0 == key;
                    if j < i {
                        assert(before.contains_key(key));
                    }
                }
            }
            assert forall|key: usize|
                #[trigger] revealed@.contains_key(key) ==> exists|j: int|
                    0 <= j < i + 1 && crypted_keys.entries()[j].0 == key by {
                if revealed@.contains_key(key) && key != v {
                    assert(before.contains_key(key));
                    let j = choose|j: int| 0 <= j < i && crypted_keys.entries()[j].0 == key;
                    assert(0 <= j < i + 1 && crypted_keys.entries()[j].0 == key);
                }
                if key == v {
                    assert(crypted_keys.entries()[i as int].0 == key);
                }
            }
        }
        i = i + 1;
    }
    proof {
        crypted_keys.lemma_wf();
        assert(revealed@.dom() =~= crypted_keys@.dom()) by {
            assert forall|key: usize| #[trigger] revealed@.contains_key(key) <==> crypted_keys@.contains_key(key) by {
                if crypted_keys@.contains_key(key) {
                    let j = choose|j: int| 0 <= j < crypted_keys.entries().len() && crypted_keys.entries()[j].0 == key;
                    assert(0 <= j < m && crypted_keys.entries()[j].0 == key);
                }
            }
        }
    }
    Ok(revealed)
}

} // verus!

verus! {

/// The failure that the round-one input decides by itself, if any.
pub open spec fn round1_check(data: UserData, v: IdMap<SignedKeys>) -> Option<ProtocolError> {
    if v.entries().len() < data.threshold {
        Some(ProtocolError::ThresholdNotMet)
    } else if !all_registered(data.others_sign_pks@, v.ids()) {
        Some(ProtocolError::UnknownSigner)
    } else if !keys_signed(data.others_sign_pks@, v.entries()) {
        Some(ProtocolError::SignatureInvalid)
    } else if v.entries().len() < 2 || v.entries().len() > 255 {
        Some(ProtocolError::PrimitiveFailed)
    } else {
        None
    }
}

/// The failure that the round-two input decides, if any.
pub open spec fn round2_check(
    data: UserData,
    others: OthersKeysData,
    crypted: IdMap<CryptoMsg>,
) -> Option<ProtocolError> {
    if crypted.entries().len() < data.threshold {
        Some(ProtocolError::ThresholdNotMet)
    } else if exists|i: int|
        0 <= i < crypted.ids().len() && !others.rand_pks@.contains_key(#[trigger] crypted.ids()[i]) {
        Some(ProtocolError::MalformedMessage)
    } else {
        None
    }
}

/// The failure that the signatures of round four decide, if any.
pub open spec fn round4_check(
    data: UserData,
    alive: IdSet,
    signatures: IdMap<BundledSignature>,
) -> Option<ProtocolError> {
    if signatures.entries().len() < data.threshold {
        Some(ProtocolError::ThresholdNotMet)
    } else if !all_registered(data.others_sign_pks@, signatures.ids()) {
        Some(ProtocolError::UnknownSigner)
    } else if !alive_signed(
        data.others_sign_pks@,
        signatures.entries(),
        id_set_bytes(alive.ids()),
    ) {
        Some(ProtocolError::SignatureInvalid)
    } else {
        None
    }
}

/// Every envelope opens to a record addressed from its sender to `data.id`,
/// and every alive user sent one.
pub open spec fn envelopes_open(
    data: UserData,
    own: OwnKeysData,
    others: OthersKeysData,
    crypted: IdMap<CryptoMsg>,
    alive: IdSet,
) -> bool {
    &&& forall|i: int|
        0 <= i < crypted.entries().len() ==> (#[trigger] outcome_at(
            data.id,
            own.comm_sk@,
            others.comm_pks@,
            crypted,
            i,
        )) is Ok
    &&& forall|k: usize| alive@.contains_key(k) ==> #[trigger] crypted@.contains_key(k)
}

/// One participant's state machine.
pub struct User {
    data: UserData,
    state: UserState,
}

impl User {
    pub closed spec fn data(&self) -> UserData {
        self.data
    }

    pub closed spec fn state(&self) -> UserState {
        self.state
    }

    pub fn new(
        id: usize,
        threshold: usize,
        sign_pk: SignPublicKey,
        sign_sk: SignSecretKey,
        grad: Vec<i64>,
        others_sign_pks: Arc<IdMap<SignPublicKey>>,
    ) -> (r: User)
        ensures
            r.data().id == id,
            r.data().threshold == threshold,
            r.data().sign_pk == sign_pk,
            r.data().sign_sk == sign_sk,
            r.data().grad == grad,
            r.data().others_sign_pks == others_sign_pks,
            r.state() is Round0,
    {
        User {
            data: UserData { id, threshold, sign_pk, sign_sk, others_sign_pks, grad },
            state: UserState::Round0,
        }
    }

    pub fn id(&self) -> (r: usize)
        ensures
            r == self.data().id,
    {
        self.data.id
    }

    /// Takes the next round's input, and moves on to the next round or fails
    /// for good.
    pub fn round(&mut self, input: UserInput) -> (r: Result<UserOutput, ProtocolError>)
        ensures
            final(self).data() == old(self).data(),
            r is Err <==> final(self).state() is Failed,
            match (old(self).state(), input) {
                (UserState::Round0, UserInput::Round0()) => match (r, final(self).state()) {
                    (Err(e), _) => e == ProtocolError::PrimitiveFailed,
                    (Ok(UserOutput::Round0(c, k)), UserState::Round1(keys)) => {
                        &&& keys.comm_pk@ == dh_public_of(keys.comm_sk@)
                        &&& keys.rand_pk@ == dh_public_of(keys.rand_sk@)
                        &&& c.msg == keys.comm_pk
                        &&& c.sig@ == signature_of(keys.comm_pk@, old(self).data().sign_sk@)
                        &&& k.msg == keys.rand_pk
                        &&& k.sig@ == signature_of(keys.rand_pk@, old(self).data().sign_sk@)
                    },
                    _ => false,
                },
                (UserState::Round1(keys), UserInput::Round1(v)) => match round1_check(
                    old(self).data(),
                    v,
                ) {
                    Some(e) => r == Err::<UserOutput, ProtocolError>(e),
                    None => match (r, final(self).state()) {
                        (Ok(UserOutput::Round1(msgs)), UserState::Round2(k2, others, seed)) => {
                            &&& k2 == keys
                            &&& others.comm_pks.entries() == comm_keys_of(v.entries())
                            &&& others.rand_pks.entries() == rand_keys_of(v.entries())
                            &&& msgs.ids() == v.ids()
                            &&& seals_sharing(
                                msgs,
                                v,
                                old(self).data().id,
                                keys.comm_sk@,
                                keys.rand_sk@,
                                seed@,
                                old(self).data().threshold as nat,
                            )
                        },
                        (Err(e), _) => e == ProtocolError::PrimitiveFailed,
                        _ => false,
                    },
                },
                (UserState::Round2(keys, others, seed), UserInput::Round2(crypted)) => match round2_check(
                    old(self).data(),
                    others,
                    crypted,
                ) {
                    Some(e) => r == Err::<UserOutput, ProtocolError>(e),
                    None => match (r, final(self).state()) {
                        (Ok(UserOutput::Round2(out)), UserState::Round3(k3, o3, s3, c3)) => {
                            &&& k3 == keys && o3 == others && s3 == seed && c3 == crypted
                            &&& out@ == sum_spec(
                                masked_terms(
                                    old(self).data().grad@,
                                    seed@,
                                    keys.rand_sk@,
                                    old(self).data().id,
                                    crypted.ids(),
                                    others.rand_pks@,
                                ),
                                old(self).data().grad@.len(),
                            )
                        },
                        _ => false,
                    },
                },
                (UserState::Round3(keys, others, seed, crypted), UserInput::Round3(users)) => if users@.len()
                    < 3 {
                    r == Err::<UserOutput, ProtocolError>(ProtocolError::ThresholdNotMet)
                } else {
                    match (r, final(self).state()) {
                        (
                            Ok(UserOutput::Round3(sig)),
                            UserState::Round4(k4, o4, s4, c4, alive),
                        ) => {
                            &&& k4 == keys && o4 == others && s4 == seed && c4 == crypted
                            &&& alive@.dom() == users@.to_set()
                            &&& sig.sig@ == signature_of(
                                id_set_bytes(alive.ids()),
                                old(self).data().sign_sk@,
                            )
                        },
                        _ => false,
                    }
                },
                (
                    UserState::Round4(keys, others, _, crypted, alive),
                    UserInput::Round4(signatures),
                ) => match round4_check(old(self).data(), alive, signatures) {
                    Some(e) => r == Err::<UserOutput, ProtocolError>(e),
                    None => {
                        &&& r is Ok <==> envelopes_open(old(self).data(), keys, others, crypted, alive)
                        &&& r matches Ok(out) ==> final(self).state() is Done && match out {
                            UserOutput::Round4(rev) => {
                                &&& rev@.dom() == crypted@.dom()
                                &&& forall|i: int|
                                    0 <= i < crypted.entries().len() ==> #[trigger] reveals(
                                        rev@[crypted.entries()[i].0],
                                        alive@.contains_key(crypted.entries()[i].0),
                                        outcome_at(
                                            old(self).data().id,
                                            keys.comm_sk@,
                                            others.comm_pks@,
                                            crypted,
                                            i,
                                        )->Ok_0,
                                    )
                            },
                            _ => false,
                        }
                        &&& r matches Err(e) ==> e == ProtocolError::MalformedMessage || e
                            == ProtocolError::DecryptionFailed || e
                            == ProtocolError::ShareTagMismatch
                        &&& forall|i: int|
                            0 <= i < crypted.entries().len() && (#[trigger] outcome_at(
                                old(self).data().id,
                                keys.comm_sk@,
                                others.comm_pks@,
                                crypted,
                                i,
                            )) is Err && (forall|j: int|
                                0 <= j < i ==> (#[trigger] outcome_at(
                                    old(self).data().id,
                                    keys.comm_sk@,
                                    others.comm_pks@,
                                    crypted,
                                    j,
                                )) is Ok) ==> r == Err::<UserOutput, ProtocolError>(
                                outcome_at(
                                    old(self).data().id,
                                    keys.comm_sk@,
                                    others.comm_pks@,
                                    crypted,
                                    i,
                                )->Err_0,
                            )
                    },
                },
                _ => r == Err::<UserOutput, ProtocolError>(ProtocolError::RoundMismatch),
            },
    {
        let mut state = UserState::Failed;
        std::mem::swap(&mut state, &mut self.state);
        let (res, next) = match (state, input) {
            (UserState::Round0, UserInput::Round0()) => match round_0(&self.data) {
                Ok((own_keys, (comm_pk, rand_pk))) => (
                    Ok(UserOutput::Round0(comm_pk, rand_pk)),
                    UserState::Round1(own_keys),
                ),
                Err(e) => (Err(e), UserState::Failed),
            },
            (UserState::Round1(own_keys), UserInput::Round1(v)) => {
                match round_1(&self.data, &own_keys, &v) {
                    Ok((others_keys, seed, msgs)) => (
                        Ok(UserOutput::Round1(msgs)),
                        UserState::Round2(own_keys, others_keys, seed),
                    ),
                    Err(e) => (Err(e), UserState::Failed),
                }
            },
            (UserState::Round2(own_keys, others_keys, own_seed), UserInput::Round2(crypted_keys)) => {
                match round_2(&self.data, &own_keys, &others_keys, own_seed, &crypted_keys) {
                    Ok(sum) => (
                        Ok(UserOutput::Round2(sum)),
                        UserState::Round3(own_keys, others_keys, own_seed, crypted_keys),
                    ),
                    Err(e) => (Err(e), UserState::Failed),
                }
            },
            (
                UserState::Round3(own_keys, others_keys, own_seed, crypted_keys),
                UserInput::Round3(users),
            ) => {
                match round_3(&self.data, &users) {
                    Ok((alive, sig)) => (
                        Ok(UserOutput::Round3(BundledSignature::new(sig))),
                        UserState::Round4(own_keys, others_keys, own_seed, crypted_keys, alive),
                    ),
                    Err(e) => (Err(e), UserState::Failed),
                }
            },
            (
                UserState::Round4(own_keys, others_keys, _own_seed, crypted_keys, alive),
                UserInput::Round4(signatures),
            ) => {
                match round_4(
                    &self.data,
                    &own_keys,
                    &others_keys,
                    &crypted_keys,
                    &alive,
                    &signatures,
                ) {
                    Ok(revealed) => (Ok(UserOutput::Round4(revealed)), UserState::Done),
                    Err(e) => (Err(e), UserState::Failed),
                }
            },
            _ => (Err(ProtocolError::RoundMismatch), UserState::Failed),
        };
        self.state = next;
        res
    }
}

} // verus!

use std::collections::BTreeMap;
use std::sync::Arc;

use rand::seq::SliceRandom;
use rand::SeedableRng;
use rand_chacha::ChaCha8Rng;

use aggregation::codec::push_id_set;
use aggregation::crypto::{
    combine_shares, dh, dh_public, fresh_dh_secret, gen_sign_keypair, sign, split_secret,
    verify_signature, SignPublicKey, SignSecretKey,
};
use aggregation::error::ProtocolError;
use aggregation::helpers::{
    scalar_mul, sum_components, vector_from_seed, BundledSignature, Collector, CryptoMsg,
    MaskGenShares, Signed,
};
use aggregation::idmap::IdMap;
use aggregation::server::Server;
use aggregation::types::{ServerOutput, UserInput, UserOutput};
use aggregation::user::User;

/// Runs the protocol with `participants` users, of which the first
/// `active_per_round[r]` (after a fixed shuffle) take part in round `r`.
/// Returns the aggregate and the expected sum over the users that sent a
/// masked vector in round two.
fn general_test(
    participants: usize,
    active_per_round: [usize; 5],
    threshold: usize,
    grad_len: usize,
) -> (Vec<i64>, Vec<i64>) {
    let ids = (0..participants).map(|u| 2 * u + 25).collect::<Vec<usize>>();

    let sign_keys = ids
        .iter()
        .map(|u| (*u, gen_sign_keypair().unwrap()))
        .collect::<BTreeMap<usize, (SignPublicKey, SignSecretKey)>>();
    let mut registry = IdMap::new();
    for (u, (pk, _)) in sign_keys.iter() {
        registry.insert(*u, *pk);
    }
    let sign_pks = Arc::new(registry);

    let mut grads: BTreeMap<usize, Vec<i64>> = BTreeMap::new();
    let mut users = sign_keys
        .into_iter()
        .enumerate()
        .map(|(i, (u, (sign_pk, sign_sk)))| {
            let vec: Vec<i64> = (0..grad_len)
                .map(|j| if (j % participants) == i { j as i64 + 1 } else { 0 })
                .collect();
            grads.insert(u, vec.clone());
            User::new(u, threshold, sign_pk, sign_sk, vec, Arc::clone(&sign_pks))
        })
        .collect::<Vec<User>>();

    let mut server = Server::new(threshold, grad_len);

    let mut msgs: BTreeMap<usize, UserInput> =
        users.iter().map(|u| (u.id(), UserInput::Round0())).collect();

    let masks = active_per_round
        .into_iter()
        .map(|active| {
            let mut mask = (0..participants).map(|u| u < active).collect::<Vec<bool>>();
            let mut rng = ChaCha8Rng::seed_from_u64(45);
            mask.shuffle(&mut rng);
            Iterator::zip(ids.iter(), mask.into_iter())
                .map(|(u, b)| (*u, b))
                .collect::<BTreeMap<usize, bool>>()
        })
        .collect::<Vec<_>>();

    let mut expected = vec![0i64; grad_len];
    for (u, g) in grads.iter() {
        if *masks[2].get(u).unwrap() {
            for j in 0..grad_len {
                expected[j] = expected[j].wrapping_add(g[j]);
            }
        }
    }

    let mut round = 0;
    let vec = loop {
        users.iter_mut().for_each(|u| {
            if *masks[round].get(&u.id()).unwrap() {
                let input = msgs.remove(&u.id()).unwrap();
                let output = u.round(input).unwrap();
                server.recv(u.id(), output);
            }
        });

        match server.round().unwrap() {
            ServerOutput::Messages(m) => msgs = m.into_entries().into_iter().collect(),
            ServerOutput::Gradient(vec) => break vec,
        }

        round += 1;
    };
    (vec, expected)
}

#[test]
fn simple_case() {
    let participants = 9;
    let active_per_round = [9, 9, 9, 9, 9];
    let threshold = 5;
    let grad_len = 9;
    let (vec, expected) = general_test(participants, active_per_round, threshold, grad_len);
    assert_eq!(vec, expected);
    assert_eq!(vec, (1..=9).collect::<Vec<i64>>());
}

#[test]
fn with_dropping_users() {
    let participants = 13;
    let active_per_round = [12, 11, 10, 9, 8];
    let threshold = 5;
    let grad_len = 15;
    let (vec, expected) = general_test(participants, active_per_round, threshold, grad_len);
    assert_eq!(vec, expected);
}

#[test]
#[should_panic]
fn below_threshold() {
    let participants = 9;
    let active_per_round = [9, 9, 9, 9, 4];
    let threshold = 7;
    let grad_len = 9;
    general_test(participants, active_per_round, threshold, grad_len);
}

#[test]
fn below_threshold_reports_threshold_not_met() {
    let mut server = Server::new(3, 4);
    assert_eq!(server.round().err(), Some(ProtocolError::ThresholdNotMet));
    // A failed server accepts no further round.
    assert_eq!(server.round().err(), Some(ProtocolError::RoundMismatch));
}

#[test]
fn shares_rebuild_from_a_subset() {
    let secret: Vec<u8> = (0..32u8).collect();
    let shares = split_secret(&secret, 5, 12).unwrap();
    assert_eq!(shares.len(), 12);
    let subset: Vec<Vec<u8>> = shares[2..10].to_vec();
    assert_eq!(combine_shares(&subset).unwrap(), secret);
    let all: Vec<Vec<u8>> = shares.clone();
    assert_eq!(combine_shares(&all).unwrap(), secret);
}

#[test]
fn sum_components_wraps_and_truncates() {
    let r = sum_components(vec![vec![i64::MAX, 1, 2], vec![1, 2, 3], vec![5, 5, 5]], 3);
    assert_eq!(r, vec![i64::MIN + 5, 8, 10]);
    // a shorter vector shortens the result, as a zip would
    let r = sum_components(vec![vec![1, 2, 3], vec![4, 5]], 3);
    assert_eq!(r, vec![5, 7]);
    assert_eq!(sum_components(vec![], 4), vec![0, 0, 0, 0]);
}

#[test]
fn scalar_mul_applies_signs() {
    assert_eq!(scalar_mul(-1, vec![1, -2, i64::MIN]), vec![-1, 2, i64::MIN]);
    assert_eq!(scalar_mul(0, vec![7, 8]), vec![0, 0]);
    assert_eq!(scalar_mul(1, vec![7, 8]), vec![7, 8]);
}

#[test]
fn collector_overwrites_and_gates_on_threshold() {
    let mut c: Collector<u32> = Collector::new(2);
    c.recv(4, 10);
    c.recv(4, 11);
    let mut d: Collector<u32> = Collector::new(2);
    d.recv(4, 10);
    d.recv(4, 11);
    assert_eq!(c.get().err(), Some(ProtocolError::ThresholdNotMet));
    d.recv(1, 7);
    let m = d.get().ok().unwrap();
    assert_eq!(m.into_entries(), vec![(1, 7), (4, 11)]);
}

#[test]
fn share_records_read_back() {
    let rec = MaskGenShares::new(3, 258, vec![1, 2, 3], vec![9; 5]);
    let bytes = rec.to_bytes();
    assert_eq!(bytes.len(), 32 + 3 + 5);
    assert_eq!(&bytes[0..8], &[3, 0, 0, 0, 0, 0, 0, 0]);
    assert_eq!(&bytes[8..16], &[2, 1, 0, 0, 0, 0, 0, 0]);
    let back = MaskGenShares::from_bytes(&bytes).unwrap();
    assert_eq!((back.u, back.v), (3, 258));
    assert_eq!(back.rand_sk_share, vec![1, 2, 3]);
    assert_eq!(back.seed_share, vec![9; 5]);
    assert!(MaskGenShares::from_bytes(&bytes[..bytes.len() - 1].to_vec()).is_none());
    assert!(MaskGenShares::from_bytes(&vec![0u8; 31]).is_none());
}

#[test]
fn id_sets_are_framed_with_their_size() {
    let mut out = Vec::new();
    push_id_set(&mut out, &vec![1, 300]);
    assert_eq!(
        out,
        vec![2, 0, 0, 0, 0, 0, 0, 0, 1, 0, 0, 0, 0, 0, 0, 0, 44, 1, 0, 0, 0, 0, 0, 0]
    );
}

#[test]
fn masks_are_deterministic() {
    let a = vector_from_seed([7u8; 32], 6);
    let b = vector_from_seed([7u8; 32], 6);
    let c = vector_from_seed([8u8; 32], 6);
    assert_eq!(a, b);
    assert_eq!(a.len(), 6);
    assert_ne!(a, c);
    assert_ne!(a, vec![0i64; 6]);
    // a longer mask starts with the shorter one
    assert_eq!(&vector_from_seed([7u8; 32], 9)[..6], &a[..]);
}

#[test]
fn key_agreement_is_symmetric() {
    let a = fresh_dh_secret().unwrap();
    let b = fresh_dh_secret().unwrap();
    let pa = dh_public(a);
    let pb = dh_public(b);
    assert_ne!(pa, a);
    assert_eq!(dh(a, pb), dh(b, pa));
    assert_ne!(dh(a, pb), pb);
}

#[test]
fn tampered_signatures_are_rejected() {
    let (pk, sk) = gen_sign_keypair().unwrap();
    assert_ne!(pk, sk);
    let key = dh_public(fresh_dh_secret().unwrap());
    let signed = Signed::wrap(key, &sk);
    assert!(signed.verify(&pk).is_ok());
    let mut bad_msg = signed;
    bad_msg.msg[0] ^= 1;
    assert!(bad_msg.verify(&pk).is_err());
    let mut bad_sig = signed;
    bad_sig.sig[5] ^= 0x80;
    assert!(bad_sig.verify(&pk).is_err());
    assert!(verify_signature(b"abc", &sign(b"abc", &sk), &pk).is_ok());
    assert!(verify_signature(b"abd", &sign(b"abc", &sk), &pk).is_err());
}

#[test]
fn secret_boxes_open_only_with_their_key() {
    let k = [3u8; 32];
    let msg = CryptoMsg::new(b"hello", k).unwrap();
    assert_ne!(msg.c, b"hello".to_vec());
    assert_eq!(msg.c.len(), 5 + 16);
    assert_eq!(msg.unwrap(k).unwrap(), b"hello".to_vec());
    assert!(msg.unwrap([4u8; 32]).is_err());
    let mut bad = msg.duplicate();
    bad.c[0] ^= 1;
    assert!(bad.unwrap(k).is_err());
}

/// Hands each honest user its input and the server its output; returns the
/// server's next messages.
fn run_round(
    users: &mut Vec<User>,
    server: &mut Server,
    msgs: &mut BTreeMap<usize, UserInput>,
    extra: Vec<(usize, UserOutput)>,
) -> Result<BTreeMap<usize, UserInput>, ProtocolError> {
    for u in users.iter_mut() {
        let input = msgs.remove(&u.id()).unwrap();
        let output = u.round(input)?;
        server.recv(u.id(), output);
    }
    for (id, out) in extra {
        server.recv(id, out);
    }
    match server.round()? {
        ServerOutput::Messages(m) => Ok(m.into_entries().into_iter().collect()),
        ServerOutput::Gradient(_) => panic!("no aggregate expected yet"),
    }
}

fn registry_of(keys: &[(usize, SignPublicKey)]) -> Arc<IdMap<SignPublicKey>> {
    let mut registry = IdMap::new();
    for (u, pk) in keys {
        registry.insert(*u, *pk);
    }
    Arc::new(registry)
}

#[test]
fn readdressed_share_is_rejected() {
    let honest_ids = [1usize, 2, 3];
    let evil = 4usize;
    let mut keys = Vec::new();
    let mut sks = BTreeMap::new();
    for u in honest_ids.iter().chain([evil].iter()) {
        let (pk, sk) = gen_sign_keypair().unwrap();
        keys.push((*u, pk));
        sks.insert(*u, sk);
    }
    let registry = registry_of(&keys);
    let mut users: Vec<User> = honest_ids
        .iter()
        .map(|u| User::new(*u, 3, keys[*u - 1].1, sks[u], vec![*u as i64; 2], Arc::clone(&registry)))
        .collect();
    let mut server = Server::new(3, 2);
    let mut msgs: BTreeMap<usize, UserInput> =
        honest_ids.iter().map(|u| (*u, UserInput::Round0())).collect();

    // round 0: the evil user advertises keys it knows the secrets of
    let comm_sk = fresh_dh_secret().unwrap();
    let rand_sk = fresh_dh_secret().unwrap();
    let evil_keys = UserOutput::Round0(
        Signed::wrap(dh_public(comm_sk), &sks[&evil]),
        Signed::wrap(dh_public(rand_sk), &sks[&evil]),
    );
    let mut msgs = run_round(&mut users, &mut server, &mut msgs, vec![(evil, evil_keys)]).unwrap();

    // round 1: its envelope to user 1 names user 3 as the recipient
    let advertised = match msgs.get(&1).unwrap() {
        UserInput::Round1(m) => m.copied().into_entries(),
        _ => panic!("round one input expected"),
    };
    let rand_shares = split_secret(&rand_sk, 3, 4).unwrap();
    let seed_shares = split_secret(&[5u8; 32], 3, 4).unwrap();
    let mut envelopes = IdMap::new();
    for (i, (id, (comm, _))) in advertised.iter().enumerate() {
        let to = if *id == 1 { 3 } else { *id };
        let rec = MaskGenShares::new(evil, to, rand_shares[i].clone(), seed_shares[i].clone());
        let key = dh(comm_sk, comm.msg);
        envelopes.insert(*id, CryptoMsg::new(&rec.to_bytes(), key).unwrap());
    }
    msgs.remove(&evil);
    let mut msgs =
        run_round(&mut users, &mut server, &mut msgs, vec![(evil, UserOutput::Round1(envelopes))])
            .unwrap();

    // round 2
    msgs.remove(&evil);
    let mut msgs =
        run_round(&mut users, &mut server, &mut msgs, vec![(evil, UserOutput::Round2(vec![0, 0]))])
            .unwrap();

    // round 3: the evil user signs the same alive set as everyone
    let mut alive_bytes = Vec::new();
    push_id_set(&mut alive_bytes, &vec![1, 2, 3, 4]);
    let sig = BundledSignature::new(sign(&alive_bytes, &sks[&evil]));
    msgs.remove(&evil);
    let mut msgs =
        run_round(&mut users, &mut server, &mut msgs, vec![(evil, UserOutput::Round3(sig))]).unwrap();

    // round 4: user 1 finds the re-addressed share
    let input = msgs.remove(&1).unwrap();
    assert_eq!(users[0].round(input).err(), Some(ProtocolError::ShareTagMismatch));
    // the others were addressed correctly
    let input = msgs.remove(&2).unwrap();
    assert!(users[1].round(input).is_ok());
}

fn three_users(threshold: usize) -> (Vec<User>, Server, Vec<(usize, SignSecretKey)>) {
    let mut keys = Vec::new();
    let mut sks = Vec::new();
    for u in [10usize, 20, 30] {
        let (pk, sk) = gen_sign_keypair().unwrap();
        keys.push((u, pk));
        sks.push((u, sk));
    }
    let registry = registry_of(&keys);
    let users = sks
        .iter()
        .zip(keys.iter())
        .map(|((u, sk), (_, pk))| User::new(*u, threshold, *pk, *sk, vec![1, 2], Arc::clone(&registry)))
        .collect();
    (users, Server::new(threshold, 2), sks)
}

#[test]
fn tampered_advertised_key_is_rejected() {
    let (mut users, mut server, _) = three_users(3);
    let mut msgs: BTreeMap<usize, UserInput> =
        [10usize, 20, 30].iter().map(|u| (*u, UserInput::Round0())).collect();
    let mut msgs = run_round(&mut users, &mut server, &mut msgs, vec![]).unwrap();
    let entries = match msgs.remove(&10).unwrap() {
        UserInput::Round1(m) => m.into_entries(),
        _ => panic!("round one input expected"),
    };
    let mut tampered = IdMap::new();
    for (id, (mut comm, rand)) in entries {
        if id == 20 {
            comm.msg[7] ^= 1;
        }
        tampered.insert(id, (comm, rand));
    }
    assert_eq!(
        users[0].round(UserInput::Round1(tampered)).err(),
        Some(ProtocolError::SignatureInvalid)
    );
    // a failed user accepts nothing more
    assert_eq!(users[0].round(UserInput::Round3(vec![1, 2, 3])).err(), Some(ProtocolError::RoundMismatch));
}

#[test]
fn unknown_sender_is_rejected() {
    let (mut users, mut server, _) = three_users(3);
    let mut msgs: BTreeMap<usize, UserInput> =
        [10usize, 20, 30].iter().map(|u| (*u, UserInput::Round0())).collect();
    let mut msgs = run_round(&mut users, &mut server, &mut msgs, vec![]).unwrap();
    let entries = match msgs.remove(&10).unwrap() {
        UserInput::Round1(m) => m.into_entries(),
        _ => panic!("round one input expected"),
    };
    let mut renamed = IdMap::new();
    for (id, keys) in entries {
        renamed.insert(if id == 30 { 31 } else { id }, keys);
    }
    assert_eq!(users[0].round(UserInput::Round1(renamed)).err(), Some(ProtocolError::UnknownSigner));
}

#[test]
fn too_few_keys_fail_the_user() {
    let (mut users, _, _) = three_users(3);
    users[0].round(UserInput::Round0()).unwrap();
    assert_eq!(
        users[0].round(UserInput::Round1(IdMap::new())).err(),
        Some(ProtocolError::ThresholdNotMet)
    );
}

#[test]
fn tampered_alive_signature_is_rejected() {
    let (mut users, mut server, _) = three_users(3);
    let mut msgs: BTreeMap<usize, UserInput> =
        [10usize, 20, 30].iter().map(|u| (*u, UserInput::Round0())).collect();
    let mut msgs = run_round(&mut users, &mut server, &mut msgs, vec![]).unwrap();
    let mut msgs = run_round(&mut users, &mut server, &mut msgs, vec![]).unwrap();
    let mut msgs = run_round(&mut users, &mut server, &mut msgs, vec![]).unwrap();
    let mut msgs = run_round(&mut users, &mut server, &mut msgs, vec![]).unwrap();
    let entries = match msgs.remove(&10).unwrap() {
        UserInput::Round4(m) => m.into_entries(),
        _ => panic!("round four input expected"),
    };
    let mut tampered = IdMap::new();
    for (id, mut sig) in entries {
        if id == 30 {
            sig.sig[0] ^= 1;
        }
        tampered.insert(id, sig);
    }
    assert_eq!(
        users[0].round(UserInput::Round4(tampered)).err(),
        Some(ProtocolError::SignatureInvalid)
    );
}

#[test]
fn short_alive_list_fails() {
    let (mut users, mut server, _) = three_users(2);
    let mut msgs: BTreeMap<usize, UserInput> =
        [10usize, 20, 30].iter().map(|u| (*u, UserInput::Round0())).collect();
    let mut msgs = run_round(&mut users, &mut server, &mut msgs, vec![]).unwrap();
    let mut msgs = run_round(&mut users, &mut server, &mut msgs, vec![]).unwrap();
    let _ = run_round(&mut users, &mut server, &mut msgs, vec![]).unwrap();
    assert_eq!(
        users[0].round(UserInput::Round3(vec![10, 20])).err(),
        Some(ProtocolError::ThresholdNotMet)
    );
}

#[test]
fn server_refuses_messages_of_another_round() {
    let (mut users, mut server, _) = three_users(3);
    let out = users[0].round(UserInput::Round0()).unwrap();
    assert!(server.accepts(&out));
    server.recv(10, out);
    assert!(!server.accepts(&UserOutput::Round2(vec![1, 2])));
}

#[test]
fn threshold_one_runs_to_the_sum() {
    let (mut users, mut server, _) = three_users(1);
    let mut msgs: BTreeMap<usize, UserInput> =
        [10usize, 20, 30].iter().map(|u| (*u, UserInput::Round0())).collect();
    for _ in 0..4 {
        msgs = run_round(&mut users, &mut server, &mut msgs, vec![]).unwrap();
    }
    for u in users.iter_mut() {
        let out = u.round(msgs.remove(&u.id()).unwrap()).unwrap();
        server.recv(u.id(), out);
    }
    match server.round().unwrap() {
        ServerOutput::Gradient(v) => assert_eq!(v, vec![3, 6]),
        ServerOutput::Messages(_) => panic!("aggregate expected"),
    }
}

#[test]
fn missing_revealed_share_fails_reconstruction() {
    let (mut users, mut server, _) = three_users(2);
    let mut msgs: BTreeMap<usize, UserInput> =
        [10usize, 20, 30].iter().map(|u| (*u, UserInput::Round0())).collect();
    for _ in 0..4 {
        msgs = run_round(&mut users, &mut server, &mut msgs, vec![]).unwrap();
    }
    for u in users.iter_mut() {
        let out = u.round(msgs.remove(&u.id()).unwrap()).unwrap();
        let out = match out {
            UserOutput::Round4(m) if u.id() == 20 => {
                let mut fewer = IdMap::new();
                for (id, share) in m.into_entries() {
                    if id != 10 {
                        fewer.insert(id, share);
                    }
                }
                UserOutput::Round4(fewer)
            },
            other => other,
        };
        server.recv(u.id(), out);
    }
    assert_eq!(server.round().err(), Some(ProtocolError::SecretReconstructionFailed));
}

#[test]
fn server_needs_an_envelope_for_every_recipient() {
    let (mut users, mut server, _) = three_users(2);
    let mut msgs: BTreeMap<usize, UserInput> =
        [10usize, 20, 30].iter().map(|u| (*u, UserInput::Round0())).collect();
    let mut msgs = run_round(&mut users, &mut server, &mut msgs, vec![]).unwrap();
    for u in users.iter_mut() {
        let out = u.round(msgs.remove(&u.id()).unwrap()).unwrap();
        let out = match out {
            UserOutput::Round1(m) if u.id() == 20 => {
                let mut fewer = IdMap::new();
                for (id, c) in m.into_entries() {
                    if id != 30 {
                        fewer.insert(id, c);
                    }
                }
                UserOutput::Round1(fewer)
            },
            other => other,
        };
        server.recv(u.id(), out);
    }
    assert_eq!(server.round().err(), Some(ProtocolError::MalformedMessage));
    assert_eq!(server.round().err(), Some(ProtocolError::RoundMismatch));
}

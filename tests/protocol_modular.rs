use schnorr_zk::modular::ModGroup;
use schnorr_zk::protocol::{
    challenge_from_bytes, commit, commit_with_nonce, derive_key_pair, fiat_shamir_challenge,
    prove, prove_with_nonce, random_challenge, random_scalar, respond, scalar_from_bytes, verify,
    verify_proof, Proof,
};
use sha2::{Digest, Sha256};

fn group_101() -> ModGroup {
    ModGroup::new(101, 5).unwrap()
}

#[test]
fn interactive_scenario() {
    let grp = group_101();
    let key = derive_key_pair(&grp, 9);
    assert_eq!(key.public, 88);
    let cm = commit_with_nonce(&grp, 7);
    assert_eq!(cm.element, 52);
    assert_eq!(cm.randomness, 7);
    let c = 13;
    let z = respond(&grp, &cm, key.secret, c);
    assert_eq!(z, (7 + 13 * 9) % 100);
    let expected = grp.power(5, z) == cm.element * grp.power(88, c) % 101;
    assert!(expected);
    assert!(verify(&grp, cm.element, key.public, z, c));
    assert!(!verify(&grp, cm.element, key.public, (z + 1) % 100, c));
}

#[test]
fn completeness_over_all_challenges() {
    let grp = group_101();
    for x in [0u64, 1, 9, 42, 99] {
        let key = derive_key_pair(&grp, x);
        for r in [0u64, 7, 63, 99] {
            let cm = commit_with_nonce(&grp, r);
            for c in 0..100u64 {
                let z = respond(&grp, &cm, x, c);
                assert!(z < 100);
                assert!(verify(&grp, cm.element, key.public, z, c), "x {} r {} c {}", x, r, c);
            }
        }
    }
}

#[test]
fn completeness_with_fresh_randomness() {
    let grp = group_101();
    let key = derive_key_pair(&grp, 9);
    for _ in 0..20 {
        let cm = commit(&grp).unwrap();
        assert!(cm.randomness < 100);
        let c = random_challenge(&grp).unwrap();
        assert!(1 <= c && c < 100);
        let z = respond(&grp, &cm, key.secret, c);
        assert!(verify(&grp, cm.element, key.public, z, c));
        assert!(random_scalar(&grp).unwrap() < 100);
    }
}

#[test]
fn wrong_secret_fails_almost_every_challenge() {
    // 5 has order 25 modulo 101
    let grp = ModGroup::with_order(101, 5, 25).unwrap();
    let x = 9;
    let key = derive_key_pair(&grp, x);
    for r in 0..25u64 {
        let cm = commit_with_nonce(&grp, r);
        for w in 0..25u64 {
            let mut passed = 0;
            for c in 0..25u64 {
                let z = respond(&grp, &cm, w, c);
                if verify(&grp, cm.element, key.public, z, c) {
                    passed += 1;
                }
            }
            // `w` passes exactly for the challenges `c` with 25 | (w - x) * c
            let d = (w + 25 - x) % 25;
            let expected = (0..25u64).filter(|c| d * c % 25 == 0).count();
            assert_eq!(passed, expected);
            if w == x {
                assert_eq!(passed, 25);
            } else {
                assert!(passed <= 5);
            }
        }
    }
}

#[test]
fn fiat_shamir_challenge_is_the_reduced_digest() {
    let grp = group_101();
    assert_eq!(fiat_shamir_challenge(&grp, 52, 88), 76);
    let mut data = Vec::new();
    data.extend_from_slice(&52u64.to_be_bytes());
    data.extend_from_slice(&88u64.to_be_bytes());
    let digest = Sha256::digest(&data);
    let mut acc: u128 = 0;
    for b in digest.iter() {
        acc = (acc * 256 + *b as u128) % 100;
    }
    assert_eq!(fiat_shamir_challenge(&grp, 52, 88) as u128, acc);
}

#[test]
fn fiat_shamir_is_deterministic() {
    let grp = group_101();
    let a = fiat_shamir_challenge(&grp, 52, 88);
    let b = fiat_shamir_challenge(&grp, 52, 88);
    assert_eq!(a, b);
    let big = ModGroup::new(18446744073709551557, 2).unwrap();
    let c1 = fiat_shamir_challenge(&big, 52, 88);
    assert_eq!(c1, fiat_shamir_challenge(&big, 52, 88));
    assert_ne!(c1, fiat_shamir_challenge(&big, 53, 88));
    assert_ne!(c1, fiat_shamir_challenge(&big, 52, 89));
    assert_ne!(c1, fiat_shamir_challenge(&big, 88, 52));
}

#[test]
fn non_interactive_scenario() {
    let grp = group_101();
    let key = derive_key_pair(&grp, 9);
    let proof = prove_with_nonce(&grp, &key, 7);
    assert_eq!(proof.commitment, 52);
    assert_eq!(proof.response, (7 + 76 * 9) % 100);
    assert_eq!(proof.response, 91);
    assert!(verify_proof(&grp, key.public, &proof));
    let forged = Proof { commitment: proof.commitment, response: (proof.response + 1) % 100 };
    assert!(!verify_proof(&grp, key.public, &forged));
    assert!(!verify_proof(&grp, 45, &proof));
}

#[test]
fn non_interactive_with_fresh_randomness() {
    let grp = group_101();
    for x in [0u64, 9, 99] {
        let key = derive_key_pair(&grp, x);
        for _ in 0..10 {
            let proof = prove(&grp, &key).unwrap();
            assert!(proof.response < 100);
            assert!(verify_proof(&grp, key.public, &proof));
        }
    }
}

#[test]
fn scalars_and_challenges_from_bytes() {
    let grp = group_101();
    assert_eq!(scalar_from_bytes(&grp, &vec![1, 0]), 56);
    assert_eq!(challenge_from_bytes(&grp, &vec![1, 0]), 1 + 256 % 99);
    assert_eq!(challenge_from_bytes(&grp, &vec![0; 64]), 1);
    let tiny = ModGroup::with_order(101, 1, 1).unwrap();
    assert_eq!(challenge_from_bytes(&tiny, &vec![7; 64]), 0);
}

#[test]
fn wrong_secret_sweep_over_order_100() {
    let grp = group_101();
    let x = 9;
    let key = derive_key_pair(&grp, x);
    let cm = commit_with_nonce(&grp, 7);
    for w in 0..100u64 {
        let mut passed = 0;
        for c in 0..100u64 {
            let z = respond(&grp, &cm, w, c);
            let ok = verify(&grp, cm.element, key.public, z, c);
            let d = (w + 100 - x) % 100;
            assert_eq!(ok, c * d % 25 == 0, "w {} c {}", w, c);
            if ok {
                passed += 1;
            }
        }
        if w == x {
            assert_eq!(passed, 100);
        } else if (w + 100 - x) % 25 != 0 {
            assert!(passed <= 20);
        }
    }
}

use curve25519_dalek::scalar::Scalar;
use schnorr_zk::ristretto::{
    fiat_shamir_challenge, generate_random_scalar, verify_proof, CurveScalar, Prover, Verifier,
};
use sha2::{Digest, Sha256};

fn small(n: u8) -> CurveScalar {
    let mut b = [0u8; 32];
    b[0] = n;
    CurveScalar::from_bytes_mod_order(b)
}

const ELL_MINUS_ONE: [u8; 32] = [
    236, 211, 245, 92, 26, 99, 18, 88, 214, 156, 247, 162, 222, 249, 222, 20, 0, 0, 0, 0, 0, 0,
    0, 0, 0, 0, 0, 0, 0, 0, 0, 16,
];

#[test]
fn interactive_round_accepts() {
    let secret = generate_random_scalar().unwrap();
    let prover = Prover::new(secret);
    let (commitment, r) = prover.commit().unwrap();
    let mut verifier = Verifier::new();
    let challenge = verifier.generate_challenge().unwrap();
    let response = prover.respond(&challenge, &r);
    assert!(verifier.verify(&commitment, &prover.pub_key, &response));
}

#[test]
fn wrong_response_or_key_rejects() {
    let prover = Prover::new(small(9));
    let (commitment, r) = prover.commit_with_nonce(small(7));
    let mut verifier = Verifier::new();
    let challenge = verifier.challenge_from_bytes(&vec![13; 64]);
    let response = prover.respond(&challenge, &r);
    assert!(verifier.verify(&commitment, &prover.pub_key, &response));
    let wrong = Prover::new(small(10)).respond(&challenge, &r);
    assert!(!verifier.verify(&commitment, &prover.pub_key, &wrong));
    let other = Prover::new(small(10));
    assert!(!verifier.verify(&commitment, &other.pub_key, &response));
    assert!(!verifier.verify(&[0xff; 32], &prover.pub_key, &response));
    assert!(!verifier.verify(&commitment, &[0xff; 32], &response));
}

#[test]
fn response_is_exact() {
    let prover = Prover::new(small(2));
    let z = prover.respond(&small(3), &small(1));
    assert_eq!(z.bytes, small(7).bytes);
    let prover = Prover::new(CurveScalar::from_bytes_mod_order(ELL_MINUS_ONE));
    let z = prover.respond(&small(1), &small(1));
    assert_eq!(z.bytes, [0u8; 32]);
}

#[test]
fn scalar_reduction() {
    let mut ell = ELL_MINUS_ONE;
    ell[0] += 1;
    assert_eq!(CurveScalar::from_bytes_mod_order(ell).bytes, [0u8; 32]);
    assert_eq!(CurveScalar::from_bytes_mod_order(ELL_MINUS_ONE).bytes, ELL_MINUS_ONE);
    let mut wide = vec![0u8; 64];
    wide[0] = 5;
    assert_eq!(CurveScalar::from_wide_bytes(&wide).bytes, small(5).bytes);
    assert_eq!(CurveScalar::zero().bytes, [0u8; 32]);
    assert_eq!(Verifier::new().challenge.bytes, [0u8; 32]);
}

#[test]
fn commitment_is_base_point_multiple() {
    let prover = Prover::new(small(7));
    let (commitment, r) = prover.commit_with_nonce(small(7));
    assert_eq!(commitment, prover.pub_key);
    assert_eq!(r.bytes, small(7).bytes);
    let (c1, _) = prover.commit().unwrap();
    let (c2, _) = prover.commit().unwrap();
    assert_ne!(c1, c2);
}

#[test]
fn challenge_is_stored() {
    let mut verifier = Verifier::new();
    let c = verifier.challenge_from_bytes(&vec![1; 64]);
    assert_eq!(verifier.challenge.bytes, c.bytes);
    let d = verifier.generate_challenge().unwrap();
    assert_eq!(verifier.challenge.bytes, d.bytes);
    assert_ne!(c.bytes, d.bytes);
}

#[test]
fn non_interactive_proof_verifies() {
    let prover = Prover::new(generate_random_scalar().unwrap());
    for _ in 0..5 {
        let proof = prover.prove().unwrap();
        assert!(verify_proof(&prover.pub_key, &proof));
        let mut forged = proof;
        forged.response = prover.respond(&small(1), &forged.response);
        assert!(!verify_proof(&prover.pub_key, &forged));
        let other = Prover::new(small(3));
        assert!(!verify_proof(&other.pub_key, &proof));
    }
}

#[test]
fn curve_fiat_shamir_reads_digest_big_endian() {
    let prover = Prover::new(small(9));
    let proof = prover.prove_with_nonce(small(7));
    let c = fiat_shamir_challenge(&proof.commitment, &prover.pub_key);
    let mut data = proof.commitment.to_vec();
    data.extend_from_slice(&prover.pub_key);
    let mut digest: [u8; 32] = Sha256::digest(&data).into();
    digest.reverse();
    assert_eq!(c.bytes, Scalar::from_bytes_mod_order(digest).to_bytes());
    assert_eq!(c.bytes, fiat_shamir_challenge(&proof.commitment, &prover.pub_key).bytes);
    assert_ne!(c.bytes, fiat_shamir_challenge(&prover.pub_key, &proof.commitment).bytes);
    let expected = prover.respond(&c, &small(7));
    assert_eq!(proof.response.bytes, expected.bytes);
    assert!(verify_proof(&prover.pub_key, &proof));
}

#[test]
fn challenge_is_never_zero() {
    let mut verifier = Verifier::new();
    let c = verifier.challenge_from_bytes(&vec![0; 64]);
    assert_eq!(c.bytes, small(1).bytes);
    let mut ell = vec![0u8; 64];
    ell[..32].copy_from_slice(&ELL_MINUS_ONE);
    ell[0] += 1;
    let c = verifier.challenge_from_bytes(&ell);
    assert_eq!(c.bytes, small(1).bytes);
    assert_eq!(verifier.challenge.bytes, small(1).bytes);
    let mut five = vec![0u8; 64];
    five[0] = 5;
    assert_eq!(verifier.challenge_from_bytes(&five).bytes, small(5).bytes);
    for _ in 0..20 {
        let c = verifier.generate_challenge().unwrap();
        assert_ne!(c.bytes, [0u8; 32]);
    }
}

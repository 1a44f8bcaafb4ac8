//! The three-message Schnorr protocol over a `ModGroup`, interactive and
//! non-interactive (Fiat-Shamir).

use crate::encoding::{
    be_bytes, be_value, encode_u64, lemma_be_bytes_injective, lemma_be_bytes_len, reduce_be, sha256, sha256_of,
};
use crate::modular::{mul_mod, pow_mod, ModGroup};
use crate::random::{random_wide_bytes, EntropyError};
use vstd::arithmetic::div_mod::*;
use vstd::arithmetic::power::*;
use vstd::prelude::*;

verus! {

/// A prover's secret scalar and its public element `g^secret mod p`.
#[derive(Debug, Clone, Copy, PartialEq, Eq, Structural)]
pub struct KeyPair {
    pub secret: u64,
    pub public: u64,
}

/// A commitment element `g^randomness mod p` and the one-time randomness behind it.
#[derive(Debug, Clone, Copy, PartialEq, Eq, Structural)]
pub struct Commitment {
    pub element: u64,
    pub randomness: u64,
}

/// A non-interactive proof: the commitment element and the response.
#[derive(Debug, Clone, Copy, PartialEq, Eq, Structural)]
pub struct Proof {
    pub commitment: u64,
    pub response: u64,
}

/// The verification equation: `g^z = t * y^c (mod p)`.
pub open spec fn accepts(grp: ModGroup, t: int, y: int, z: nat, c: nat) -> bool {
    grp.gen_pow(z) == (t * pow_mod(y, c, grp.p as int)) % (grp.p as int)
}

/// The response `r + x * c (mod q)`.
pub open spec fn response_of(grp: ModGroup, r: int, x: int, c: int) -> int {
    (r + x * c) % (grp.q as int)
}

/// The bytes hashed for a Fiat-Shamir challenge: both elements, 8 bytes each, big-endian.
pub open spec fn transcript(t: nat, y: nat) -> Seq<u8> {
    be_bytes(t, 8) + be_bytes(y, 8)
}

/// The Fiat-Shamir challenge: the transcript's digest, read big-endian, modulo `q`.
pub open spec fn fiat_shamir(grp: ModGroup, t: nat, y: nat) -> int {
    be_value(sha256_of(transcript(t, y))) as int % (grp.q as int)
}

/// The interactive challenge drawn from the bytes `b`: a value in `[1, q)`,
/// or 0 where `q` is 1 and no such value exists.
pub open spec fn challenge_of_bytes(grp: ModGroup, b: Seq<u8>) -> int {
    if grp.q > 1 {
        1 + be_value(b) as int % (grp.q - 1)
    } else {
        0
    }
}

/// The key pair of the secret scalar `secret`.
pub fn derive_key_pair(grp: &ModGroup, secret: u64) -> (r: KeyPair)
    requires
        grp.wf(),
        secret < grp.q,
    ensures
        r.secret == secret,
        r.public == grp.gen_pow(secret as nat),
{
    KeyPair { secret, public: grp.power(grp.g, secret) }
}

/// The scalar that the bytes `b` stand for: their big-endian value modulo `q`.
pub fn scalar_from_bytes(grp: &ModGroup, b: &Vec<u8>) -> (r: u64)
    requires
        grp.wf(),
    ensures
        r as int == be_value(b@) as int % (grp.q as int),
        r < grp.q,
{
    reduce_be(b, grp.q)
}

/// A fresh scalar in `[0, q)`, from 64 bytes of operating-system entropy.
pub fn random_scalar(grp: &ModGroup) -> (r: Result<u64, EntropyError>)
    requires
        grp.wf(),
    ensures
        r matches Ok(v) ==> v < grp.q,
{
    match random_wide_bytes() {
        Some(b) => Ok(scalar_from_bytes(grp, &b)),
        None => Err(EntropyError::Unavailable),
    }
}

/// The commitment with the one-time randomness `nonce`.
pub fn commit_with_nonce(grp: &ModGroup, nonce: u64) -> (r: Commitment)
    requires
        grp.wf(),
        nonce < grp.q,
    ensures
        r.randomness == nonce,
        r.element == grp.gen_pow(nonce as nat),
{
    Commitment { element: grp.power(grp.g, nonce), randomness: nonce }
}

/// A commitment with fresh randomness.
pub fn commit(grp: &ModGroup) -> (r: Result<Commitment, EntropyError>)
    requires
        grp.wf(),
    ensures
        r matches Ok(cm) ==> cm.randomness < grp.q && cm.element == grp.gen_pow(
            cm.randomness as nat,
        ),
{
    let nonce = random_scalar(grp)?;
    Ok(commit_with_nonce(grp, nonce))
}

/// The interactive challenge drawn from the bytes `b`.
pub fn challenge_from_bytes(grp: &ModGroup, b: &Vec<u8>) -> (r: u64)
    requires
        grp.wf(),
    ensures
        r as int == challenge_of_bytes(*grp, b@),
        r < grp.q,
        grp.q > 1 ==> 1 <= r,
{
    if grp.q > 1 {
        1 + reduce_be(b, grp.q - 1)
    } else {
        0
    }
}

/// A fresh interactive challenge from operating-system entropy.
pub fn random_challenge(grp: &ModGroup) -> (r: Result<u64, EntropyError>)
    requires
        grp.wf(),
    ensures
        r matches Ok(c) ==> c < grp.q && (grp.q > 1 ==> 1 <= c),
{
    match random_wide_bytes() {
        Some(b) => Ok(challenge_from_bytes(grp, &b)),
        None => Err(EntropyError::Unavailable),
    }
}

/// The Fiat-Shamir challenge for the commitment element `t` and public element `y`.
pub fn fiat_shamir_challenge(grp: &ModGroup, t: u64, y: u64) -> (r: u64)
    requires
        grp.wf(),
    ensures
        r as int == fiat_shamir(*grp, t as nat, y as nat),
        r < grp.q,
{
    let mut data = encode_u64(t);
    let mut tail = encode_u64(y);
    data.append(&mut tail);
    let digest = sha256(&data);
    reduce_be(&digest, grp.q)
}

/// The response `randomness + secret * challenge (mod q)`.
pub fn respond(grp: &ModGroup, commitment: &Commitment, secret: u64, challenge: u64) -> (r: u64)
    requires
        grp.wf(),
    ensures
        r as int == response_of(
            *grp,
            commitment.randomness as int,
            secret as int,
            challenge as int,
        ),
        r < grp.q,
{
    assert((secret as int) * (challenge as int) + commitment.randomness as int <= u128::MAX)
        by (nonlinear_arith)
        requires
            secret <= u64::MAX,
            challenge <= u64::MAX,
            commitment.randomness <= u64::MAX,
    ;
    let sum: u128 = (commitment.randomness as u128) + (secret as u128) * (challenge as u128);
    (sum % (grp.q as u128)) as u64
}

/// Whether `z` answers the challenge `c` for the commitment element `t` and the
/// public element `y`: `g^z = t * y^c (mod p)`.
pub fn verify(grp: &ModGroup, t: u64, y: u64, z: u64, c: u64) -> (r: bool)
    requires
        grp.wf(),
    ensures
        r == accepts(*grp, t as int, y as int, z as nat, c as nat),
{
    let lhs = grp.power(grp.g, z);
    let yc = grp.power(y, c);
    let rhs = mul_mod(t, yc, grp.p);
    lhs == rhs
}

/// The non-interactive proof for `key` with the one-time randomness `nonce`.
pub fn prove_with_nonce(grp: &ModGroup, key: &KeyPair, nonce: u64) -> (r: Proof)
    requires
        grp.wf(),
        nonce < grp.q,
    ensures
        r.commitment == grp.gen_pow(nonce as nat),
        r.response as int == response_of(
            *grp,
            nonce as int,
            key.secret as int,
            fiat_shamir(*grp, r.commitment as nat, key.public as nat),
        ),
{
    let commitment = commit_with_nonce(grp, nonce);
    let c = fiat_shamir_challenge(grp, commitment.element, key.public);
    let z = respond(grp, &commitment, key.secret, c);
    Proof { commitment: commitment.element, response: z }
}

/// A non-interactive proof for `key`, with fresh randomness.
pub fn prove(grp: &ModGroup, key: &KeyPair) -> (r: Result<Proof, EntropyError>)
    requires
        grp.wf(),
    ensures
        r matches Ok(pf) ==> exists|nonce: nat|
            nonce < grp.q && pf.commitment == grp.gen_pow(nonce) && pf.response as int
                == response_of(
                *grp,
                nonce as int,
                key.secret as int,
                fiat_shamir(*grp, pf.commitment as nat, key.public as nat),
            ),
{
    let nonce = random_scalar(grp)?;
    let r = prove_with_nonce(grp, key, nonce);
    assert(nonce < grp.q && r.commitment == grp.gen_pow(nonce as nat));
    Ok(r)
}

/// Whether `proof` holds for the public element `y`: the challenge is recomputed
/// from the commitment and `y`, then the verification equation is checked.
pub fn verify_proof(grp: &ModGroup, y: u64, proof: &Proof) -> (r: bool)
    requires
        grp.wf(),
    ensures
        r == accepts(
            *grp,
            proof.commitment as int,
            y as int,
            proof.response as nat,
            fiat_shamir(*grp, proof.commitment as nat, y as nat) as nat,
        ),
{
    let c = fiat_shamir_challenge(grp, proof.commitment, y);
    verify(grp, proof.commitment, y, proof.response, c)
}

proof fn lemma_exponent_mod_order(g: int, n: nat, q: nat, p: int)
    requires
        p > 1,
        q > 0,
        pow(g, q) % p == 1,
    ensures
        pow(g, n) % p == pow(g, n % q) % p,
{
    let k = n / q;
    let s = n % q;
    lemma_fundamental_div_mod(n as int, q as int);
    assert(n == q * k + s);
    lemma_pow_adds(g, q * k, s);
    lemma_pow_multiplies(g, q, k);
    lemma_pow_mod_noop(pow(g, q), k, p);
    lemma1_pow(k);
    lemma_small_mod(1, p as nat);
    assert(pow(g, q * k) % p == 1);
    lemma_mul_mod_noop_left(pow(g, q * k), pow(g, s), p);
}

/// Completeness: for well-formed parameters, a secret `x`, commitment randomness `r`
/// and any challenge `c`, the honest response `r + x * c (mod q)` passes the
/// verification equation against the commitment `g^r` and the public element `g^x`.
pub proof fn lemma_completeness(grp: ModGroup, x: nat, r: nat, c: nat)
    requires
        grp.wf(),
    ensures
        accepts(
            grp,
            grp.gen_pow(r),
            grp.gen_pow(x),
            response_of(grp, r as int, x as int, c as int) as nat,
            c,
        ),
{
    lemma_rhs_exponent(grp, x, r, c);
    lemma_exponent_mod_order(grp.g as int, (r + x * c) as nat, grp.q as nat, grp.p as int);
}

/// Completeness of non-interactive proofs: the proof made for a key pair with any
/// randomness passes `verify_proof` under the key's public element.
pub proof fn lemma_non_interactive_completeness(grp: ModGroup, x: nat, r: nat)
    requires
        grp.wf(),
    ensures
        ({
            let t = grp.gen_pow(r);
            let y = grp.gen_pow(x);
            let c = fiat_shamir(grp, t as nat, y as nat);
            accepts(grp, t, y, response_of(grp, r as int, x as int, c) as nat, c as nat)
        }),
{
    let t = grp.gen_pow(r);
    let y = grp.gen_pow(x);
    lemma_mod_bound(pow(grp.g as int, r), grp.p as int);
    lemma_mod_bound(pow(grp.g as int, x), grp.p as int);
    let c = fiat_shamir(grp, t as nat, y as nat);
    lemma_mod_bound(be_value(sha256_of(transcript(t as nat, y as nat))) as int, grp.q as int);
    lemma_completeness(grp, x, r, c as nat);
}

proof fn lemma_rhs_exponent(grp: ModGroup, x: nat, r: nat, c: nat)
    requires
        grp.wf(),
    ensures
        0 <= x * c,
        (grp.gen_pow(r) * pow_mod(grp.gen_pow(x), c, grp.p as int)) % (grp.p as int) == pow(
            grp.g as int,
            (r + x * c) as nat,
        ) % (grp.p as int),
{
    let g = grp.g as int;
    let p = grp.p as int;
    assert(0 <= x * c) by (nonlinear_arith);
    lemma_pow_adds(g, r, x * c);
    lemma_pow_multiplies(g, x, c);
    lemma_pow_mod_noop(pow(g, x), c, p);
    lemma_mul_mod_noop(pow(g, r), pow(g, x * c), p);
    lemma_mod_twice(pow(g, x * c), p);
}

proof fn lemma_cancel_power(g: int, q: nat, p: int, r: nat, a: nat, b: nat)
    requires
        p > 1,
        q > 0,
        pow(g, q) % p == 1,
    ensures
        pow(g, r + a) % p == pow(g, r + b) % p <==> pow(g, a) % p == pow(g, b) % p,
{
    lemma_pow_adds(g, r, a);
    lemma_pow_adds(g, r, b);
    lemma_mul_mod_noop_right(pow(g, r), pow(g, a), p);
    lemma_mul_mod_noop_right(pow(g, r), pow(g, b), p);
    if pow(g, r + a) % p == pow(g, r + b) % p {
        assert(0 <= r * (q - 1)) by (nonlinear_arith)
            requires
                q > 0,
        ;
        let k: nat = (r * (q - 1)) as nat;
        assert(r + k == q * r) by (nonlinear_arith)
            requires
                k == r * (q - 1),
        ;
        lemma_pow_adds(g, r + a, k);
        lemma_pow_adds(g, r + b, k);
        lemma_mul_mod_noop_left(pow(g, r + a), pow(g, k), p);
        lemma_mul_mod_noop_left(pow(g, r + b), pow(g, k), p);
        lemma_exponent_mod_order(g, a, q, p);
        lemma_exponent_mod_order(g, b, q, p);
        lemma_exponent_mod_order(g, (r + a + k) as nat, q, p);
        lemma_exponent_mod_order(g, (r + b + k) as nat, q, p);
        lemma_mod_multiples_vanish(r as int, a as int, q as int);
        lemma_mod_multiples_vanish(r as int, b as int, q as int);
        assert(r + a + k == q * r + a);
        assert(r + b + k == q * r + b);
    }
}

/// Soundness of the verification equation: against the commitment `g^r` and the
/// public element `g^x`, the response `r + w * c (mod q)` made with a secret `w`
/// passes for the challenge `c` exactly when `g^(w * c) = g^(x * c) (mod p)`.
pub proof fn lemma_soundness(grp: ModGroup, x: nat, w: nat, r: nat, c: nat)
    requires
        grp.wf(),
    ensures
        0 <= w * c,
        0 <= x * c,
        accepts(
            grp,
            grp.gen_pow(r),
            grp.gen_pow(x),
            response_of(grp, r as int, w as int, c as int) as nat,
            c,
        ) <==> grp.gen_pow((w * c) as nat) == grp.gen_pow((x * c) as nat),
{
    let g = grp.g as int;
    let p = grp.p as int;
    lemma_rhs_exponent(grp, x, r, c);
    assert(0 <= w * c) by (nonlinear_arith);
    lemma_exponent_mod_order(g, (r + w * c) as nat, grp.q as nat, p);
    lemma_cancel_power(g, grp.q as nat, p, r, (w * c) as nat, (x * c) as nat);
}

/// `g` has exact order `q` modulo `p`: no smaller positive power of `g` is 1.
pub open spec fn exact_order(grp: ModGroup) -> bool {
    forall|k: nat| 0 < k < grp.q ==> #[trigger] grp.gen_pow(k) != 1
}

proof fn lemma_divides_negation(a: int, q: int)
    requires
        q > 0,
    ensures
        (-a) % q == 0 <==> a % q == 0,
{
    lemma_fundamental_div_mod(a, q);
    lemma_fundamental_div_mod(-a, q);
    if a % q == 0 {
        lemma_mod_multiples_vanish(-(a / q), 0, q);
        assert(-a == q * (-(a / q)) + 0) by (nonlinear_arith)
            requires
                a == q * (a / q) + a % q,
                a % q == 0,
        ;
    }
    if (-a) % q == 0 {
        lemma_mod_multiples_vanish(-((-a) / q), 0, q);
        assert(a == q * (-((-a) / q)) + 0) by (nonlinear_arith)
            requires
                -a == q * ((-a) / q) + (-a) % q,
                (-a) % q == 0,
        ;
    }
}

proof fn lemma_power_is_one(grp: ModGroup, a: nat)
    requires
        grp.wf(),
        exact_order(grp),
    ensures
        grp.gen_pow(a) == 1 <==> a % (grp.q as nat) == 0,
{
    let g = grp.g as int;
    let p = grp.p as int;
    lemma_exponent_mod_order(g, a, grp.q as nat, p);
    lemma_pow0(g);
    lemma_small_mod(1, p as nat);
    let k = a % (grp.q as nat);
    if k != 0 {
        assert(grp.gen_pow(k) != 1);
    }
}

proof fn lemma_shifted_power(grp: ModGroup, lo: nat, a: nat)
    requires
        grp.wf(),
    ensures
        grp.gen_pow(lo + a) == grp.gen_pow(lo) <==> grp.gen_pow(a) == 1,
{
    let g = grp.g as int;
    let p = grp.p as int;
    lemma_cancel_power(g, grp.q as nat, p, lo, a, 0);
    lemma_pow0(g);
    lemma_small_mod(1, p as nat);
    assert(lo + 0 == lo);
}

/// Soundness for a generator of exact order `q`: against the commitment `g^r` and
/// the public element `g^x`, the response made with a secret `w` passes for the
/// challenge `c` exactly when `q` divides `(w - x) * c`. Where `q` is prime and
/// `w != x (mod q)`, that leaves only the challenges `c = 0 (mod q)`.
pub proof fn lemma_soundness_exact_order(grp: ModGroup, x: nat, w: nat, r: nat, c: nat)
    requires
        grp.wf(),
        exact_order(grp),
    ensures
        accepts(
            grp,
            grp.gen_pow(r),
            grp.gen_pow(x),
            response_of(grp, r as int, w as int, c as int) as nat,
            c,
        ) <==> ((w - x) * c) % (grp.q as int) == 0,
{
    lemma_soundness(grp, x, w, r, c);
    let q = grp.q as int;
    if w >= x {
        let a: nat = ((w - x) * c) as nat;
        assert(0 <= (w - x) * c) by (nonlinear_arith)
            requires
                w >= x,
                c >= 0,
        ;
        assert(w * c == x * c + (w - x) * c) by (nonlinear_arith);
        lemma_shifted_power(grp, (x * c) as nat, a);
        lemma_power_is_one(grp, a);
    } else {
        let a: nat = ((x - w) * c) as nat;
        assert(0 <= (x - w) * c) by (nonlinear_arith)
            requires
                x > w,
                c >= 0,
        ;
        assert(x * c == w * c + (x - w) * c) by (nonlinear_arith);
        lemma_shifted_power(grp, (w * c) as nat, a);
        lemma_power_is_one(grp, a);
        assert((w - x) * c == -((x - w) * c)) by (nonlinear_arith);
        lemma_divides_negation(a as int, q);
    }
}

/// Fiat-Shamir determinism: equal commitment and public elements give equal challenges.
pub proof fn lemma_fiat_shamir_deterministic(grp: ModGroup, t1: nat, y1: nat, t2: nat, y2: nat)
    requires
        t1 == t2,
        y1 == y2,
    ensures
        fiat_shamir(grp, t1, y1) == fiat_shamir(grp, t2, y2),
{
}

/// Range: a Fiat-Shamir challenge is a scalar in `[0, q)`, whatever the digest.
pub proof fn lemma_fiat_shamir_in_range(grp: ModGroup, t: nat, y: nat)
    requires
        grp.wf(),
    ensures
        0 <= fiat_shamir(grp, t, y) < grp.q,
{
    lemma_mod_bound(be_value(sha256_of(transcript(t, y))) as int, grp.q as int);
}

/// Changing the commitment element or the public element changes the transcript
/// that the Fiat-Shamir challenge hashes.
pub proof fn lemma_transcript_injective(t1: u64, y1: u64, t2: u64, y2: u64)
    requires
        t1 != t2 || y1 != y2,
    ensures
        transcript(t1 as nat, y1 as nat) != transcript(t2 as nat, y2 as nat),
{
    let a = transcript(t1 as nat, y1 as nat);
    let b = transcript(t2 as nat, y2 as nat);
    lemma_be_bytes_len(t1 as nat, 8);
    lemma_be_bytes_len(t2 as nat, 8);
    lemma_be_bytes_len(y1 as nat, 8);
    lemma_be_bytes_len(y2 as nat, 8);
    assert(a.subrange(0, 8) =~= be_bytes(t1 as nat, 8));
    assert(b.subrange(0, 8) =~= be_bytes(t2 as nat, 8));
    assert(a.subrange(8, 16) =~= be_bytes(y1 as nat, 8));
    assert(b.subrange(8, 16) =~= be_bytes(y2 as nat, 8));
    if t1 != t2 {
        lemma_be_bytes_injective(t1, t2);
    } else {
        lemma_be_bytes_injective(y1, y2);
    }
}

} // verus!

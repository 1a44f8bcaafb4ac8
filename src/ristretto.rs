//! The Schnorr protocol over the prime-order Ristretto group of curve25519-dalek.
//!
//! Scalars are held as their canonical 32-byte little-endian representatives
//! modulo the group order `ell`; group elements as their 32-byte Ristretto
//! encodings, which are canonical, so that two elements are equal exactly when
//! their encodings are.

use crate::encoding::{be_value, sha256, sha256_of};
use crate::random::{random_wide_bytes, EntropyError};
use curve25519_dalek::ristretto::{CompressedRistretto, RistrettoPoint};
use curve25519_dalek::scalar::Scalar;
use vstd::arithmetic::power2::pow2;
use vstd::prelude::*;

verus! {

/// The order of the Ristretto group, `2^252 + 27742317777372353535851937790883648493`.
pub open spec fn ell() -> nat {
    pow2(252) + 27742317777372353535851937790883648493
}

/// The unsigned integer that `s` writes in little-endian order.
pub open spec fn le_value(s: Seq<u8>) -> nat
    decreases s.len(),
{
    if s.len() == 0 {
        0
    } else {
        s[0] as nat + 256 * le_value(s.drop_first())
    }
}

/// The encoding of the base point multiplied by the scalar with bytes `s`.
pub uninterp spec fn ristretto_base_mul(s: Seq<u8>) -> Seq<u8>;

/// The encoding of the point encoded by `p` multiplied by the scalar with bytes `s`.
pub uninterp spec fn ristretto_mul(p: Seq<u8>, s: Seq<u8>) -> Seq<u8>;

/// The encoding of the sum of the points encoded by `a` and `b`.
pub uninterp spec fn ristretto_add(a: Seq<u8>, b: Seq<u8>) -> Seq<u8>;

/// Whether `p` is the canonical encoding of a Ristretto point.
pub uninterp spec fn ristretto_decodes(p: Seq<u8>) -> bool;

/// Relies on `Scalar::from_bytes_mod_order_wide`: the 512-bit little-endian
/// integer reduced modulo `ell`, returned through `Scalar::to_bytes`.
#[verifier::external_body]
fn scalar_reduce_wide(b: &Vec<u8>) -> (r: [u8; 32])
    requires
        b@.len() == 64,
    ensures
        le_value(r@) == le_value(b@) % ell(),
{
    let mut wide = [0u8; 64];
    wide.copy_from_slice(b.as_slice());
    Scalar::from_bytes_mod_order_wide(&wide).to_bytes()
}

/// Relies on `Scalar::from_bytes_mod_order`: the 256-bit little-endian integer
/// reduced modulo `ell`, returned through `Scalar::to_bytes`.
#[verifier::external_body]
fn scalar_reduce(b: [u8; 32]) -> (r: [u8; 32])
    ensures
        le_value(r@) == le_value(b@) % ell(),
{
    Scalar::from_bytes_mod_order(b).to_bytes()
}

/// Relies on `Add` for `&Scalar`: addition modulo `ell` of reduced scalars.
#[verifier::external_body]
fn scalar_add(a: &[u8; 32], b: &[u8; 32]) -> (r: [u8; 32])
    requires
        le_value(a@) < ell(),
        le_value(b@) < ell(),
    ensures
        le_value(r@) == (le_value(a@) + le_value(b@)) % ell(),
{
    (&Scalar::from_bytes_mod_order(*a) + &Scalar::from_bytes_mod_order(*b)).to_bytes()
}

/// Relies on `Mul` for `&Scalar`: multiplication modulo `ell` of reduced scalars.
#[verifier::external_body]
fn scalar_mul(a: &[u8; 32], b: &[u8; 32]) -> (r: [u8; 32])
    requires
        le_value(a@) < ell(),
        le_value(b@) < ell(),
    ensures
        le_value(r@) == (le_value(a@) * le_value(b@)) % ell(),
{
    (&Scalar::from_bytes_mod_order(*a) * &Scalar::from_bytes_mod_order(*b)).to_bytes()
}

/// Relies on `RistrettoPoint::mul_base`: the base point times a scalar, encoded by
/// `compress`, whose canonical encoding `decompress` accepts.
#[verifier::external_body]
fn base_mul(s: &[u8; 32]) -> (r: [u8; 32])
    ensures
        r@ == ristretto_base_mul(s@),
        ristretto_decodes(r@),
{
    RistrettoPoint::mul_base(&Scalar::from_bytes_mod_order(*s)).compress().to_bytes()
}

/// Relies on `CompressedRistretto::decompress`: whether 32 bytes encode a point.
#[verifier::external_body]
fn decodes(p: &[u8; 32]) -> (r: bool)
    ensures
        r == ristretto_decodes(p@),
{
    CompressedRistretto(*p).decompress().is_some()
}

/// Relies on `Mul<&Scalar>` for `&RistrettoPoint`: a decoded point times a scalar,
/// encoded by `compress`, whose canonical encoding `decompress` accepts.
#[verifier::external_body]
fn point_mul(p: &[u8; 32], s: &[u8; 32]) -> (r: [u8; 32])
    requires
        ristretto_decodes(p@),
    ensures
        r@ == ristretto_mul(p@, s@),
        ristretto_decodes(r@),
{
    let point = CompressedRistretto(*p).decompress().unwrap();
    (&point * &Scalar::from_bytes_mod_order(*s)).compress().to_bytes()
}

/// Relies on `Add` for `&RistrettoPoint`: the sum of two decoded points, encoded by
/// `compress`, whose canonical encoding `decompress` accepts.
#[verifier::external_body]
fn point_add(a: &[u8; 32], b: &[u8; 32]) -> (r: [u8; 32])
    requires
        ristretto_decodes(a@),
        ristretto_decodes(b@),
    ensures
        r@ == ristretto_add(a@, b@),
        ristretto_decodes(r@),
{
    let pa = CompressedRistretto(*a).decompress().unwrap();
    let pb = CompressedRistretto(*b).decompress().unwrap();
    (&pa + &pb).compress().to_bytes()
}

/// Whether two 32-byte strings are equal.
fn bytes_eq(a: &[u8; 32], b: &[u8; 32]) -> (r: bool)
    ensures
        r == (a@ == b@),
{
    let mut i: usize = 0;
    while i < 32
        invariant
            a@.len() == 32,
            b@.len() == 32,
            i <= 32,
            forall|j: int| 0 <= j < i ==> a@[j] == b@[j],
        decreases 32 - i,
    {
        if a[i] != b[i] {
            return false;
        }
        i = i + 1;
    }
    assert(a@ =~= b@);
    true
}

/// A scalar modulo `ell`, held as its canonical little-endian bytes.
#[derive(Debug, Clone, Copy)]
pub struct CurveScalar {
    pub bytes: [u8; 32],
}

impl CurveScalar {
    /// The bytes are the canonical representative: their value is below `ell`.
    pub open spec fn wf(&self) -> bool {
        le_value(self.bytes@) < ell()
    }

    /// The integer that the scalar stands for.
    pub open spec fn value(&self) -> nat {
        le_value(self.bytes@)
    }

    /// The scalar `0`.
    pub fn zero() -> (r: CurveScalar)
        ensures
            r.wf(),
            r.value() == 0,
    {
        let r = CurveScalar { bytes: [0u8; 32] };
        proof {
            lemma_le_value_zero(r.bytes@);
        }
        r
    }

    /// The scalar `1`.
    pub fn one() -> (r: CurveScalar)
        ensures
            r.wf(),
            r.value() == 1,
    {
        let mut bytes = [0u8; 32];
        bytes[0] = 1;
        let r = CurveScalar { bytes };
        proof {
            lemma_le_value_zero(r.bytes@.drop_first());
        }
        r
    }

    /// The 256-bit little-endian integer `b` reduced modulo `ell`.
    pub fn from_bytes_mod_order(b: [u8; 32]) -> (r: CurveScalar)
        ensures
            r.wf(),
            r.value() == le_value(b@) % ell(),
    {
        CurveScalar { bytes: scalar_reduce(b) }
    }

    /// The 512-bit little-endian integer `b` reduced modulo `ell`; from 64 uniform
    /// bytes this gives a scalar whose distance from uniform is negligible.
    pub fn from_wide_bytes(b: &Vec<u8>) -> (r: CurveScalar)
        requires
            b@.len() == 64,
        ensures
            r.wf(),
            r.value() == le_value(b@) % ell(),
    {
        CurveScalar { bytes: scalar_reduce_wide(b) }
    }
}

proof fn lemma_le_value_zero_iff(s: Seq<u8>)
    ensures
        le_value(s) == 0 <==> s =~= Seq::new(s.len(), |j: int| 0u8),
    decreases s.len(),
{
    if s.len() > 0 {
        lemma_le_value_zero_iff(s.drop_first());
        if le_value(s) == 0 {
            assert(s[0] == 0 && le_value(s.drop_first()) == 0);
            assert forall|j: int| 0 <= j < s.len() implies s[j] == 0u8 by {
                if j > 0 {
                    assert(s[j] == s.drop_first()[j - 1]);
                }
            }
            assert(s =~= Seq::new(s.len(), |j: int| 0u8));
        }
        if s =~= Seq::new(s.len(), |j: int| 0u8) {
            assert(s.drop_first() =~= Seq::new(s.drop_first().len(), |j: int| 0u8));
        }
    }
}

proof fn lemma_le_value_zero(s: Seq<u8>)
    requires
        forall|j: int| 0 <= j < s.len() ==> s[j] == 0,
    ensures
        le_value(s) == 0,
    decreases s.len(),
{
    if s.len() > 0 {
        lemma_le_value_zero(s.drop_first());
    }
}

/// A scalar drawn from 64 bytes of operating-system entropy.
pub fn generate_random_scalar() -> (r: Result<CurveScalar, EntropyError>)
    ensures
        r matches Ok(s) ==> s.wf(),
{
    match random_wide_bytes() {
        Some(b) => Ok(CurveScalar::from_wide_bytes(&b)),
        None => Err(EntropyError::Unavailable),
    }
}

/// A prover: the secret scalar and its public element, the base point times it.
#[derive(Debug, Clone, Copy)]
pub struct Prover {
    pub priv_key: CurveScalar,
    pub pub_key: [u8; 32],
}

impl Prover {
    /// The prover of the secret `priv_key`.
    pub fn new(priv_key: CurveScalar) -> (r: Prover)
        requires
            priv_key.wf(),
        ensures
            r.priv_key == priv_key,
            r.pub_key@ == ristretto_base_mul(priv_key.bytes@),
    {
        let pub_key = base_mul(&priv_key.bytes);
        Prover { priv_key, pub_key }
    }

    /// The commitment for the one-time randomness `r`: the base point times `r`.
    pub fn commit_with_nonce(&self, r: CurveScalar) -> (out: ([u8; 32], CurveScalar))
        requires
            r.wf(),
        ensures
            out.0@ == ristretto_base_mul(r.bytes@),
            out.1 == r,
    {
        (base_mul(&r.bytes), r)
    }

    /// A commitment with fresh randomness, and that randomness.
    pub fn commit(&self) -> (out: Result<([u8; 32], CurveScalar), EntropyError>)
        ensures
            out matches Ok(cm) ==> cm.1.wf() && cm.0@ == ristretto_base_mul(cm.1.bytes@),
    {
        let r = generate_random_scalar()?;
        Ok(self.commit_with_nonce(r))
    }

    /// The response `r + priv_key * challenge (mod ell)`.
    pub fn respond(&self, challenge: &CurveScalar, r: &CurveScalar) -> (out: CurveScalar)
        requires
            self.priv_key.wf(),
            challenge.wf(),
            r.wf(),
        ensures
            out.wf(),
            out.value() == (r.value() + self.priv_key.value() * challenge.value()) % ell(),
    {
        let xc = scalar_mul(&self.priv_key.bytes, &challenge.bytes);
        let sum = scalar_add(&r.bytes, &xc);
        proof {
            let x = self.priv_key.value() as int;
            let c = challenge.value() as int;
            let rv = r.value() as int;
            vstd::arithmetic::div_mod::lemma_add_mod_noop_right(rv, x * c, ell() as int);
            vstd::arithmetic::div_mod::lemma_mod_twice(x * c, ell() as int);
            assert(0 <= x * c) by (nonlinear_arith)
                requires
                    x >= 0,
                    c >= 0,
            ;
        }
        CurveScalar { bytes: sum }
    }
}

/// The verification equation over encodings: `B * z = t + c * Y`.
pub open spec fn curve_accepts(t: Seq<u8>, y: Seq<u8>, z: Seq<u8>, c: Seq<u8>) -> bool {
    &&& ristretto_decodes(y)
    &&& ristretto_decodes(t)
    &&& ristretto_base_mul(z) == ristretto_add(t, ristretto_mul(y, c))
}

/// The interactive challenge drawn from the 64 bytes `b`: their little-endian value
/// modulo `ell`, or 1 where that is 0.
pub open spec fn challenge_of_wide(b: Seq<u8>) -> nat {
    if le_value(b) % ell() == 0 {
        1
    } else {
        le_value(b) % ell()
    }
}

/// A verifier, holding the challenge it issued.
#[derive(Debug, Clone, Copy)]
pub struct Verifier {
    pub challenge: CurveScalar,
}

impl Verifier {
    /// A verifier that holds no challenge yet (the scalar `0`).
    pub fn new() -> (r: Verifier)
        ensures
            r.challenge.wf(),
            r.challenge.value() == 0,
    {
        Verifier { challenge: CurveScalar::zero() }
    }

    /// Stores and returns the challenge drawn from the 64 bytes `b`: their
    /// little-endian value modulo `ell`, with 0 moved to 1 so that the challenge lies
    /// in `[1, ell)`.
    pub fn challenge_from_bytes(&mut self, b: &Vec<u8>) -> (r: CurveScalar)
        requires
            b@.len() == 64,
        ensures
            r.wf(),
            1 <= r.value(),
            r.value() == challenge_of_wide(b@),
            final(self).challenge == r,
    {
        let v = CurveScalar::from_wide_bytes(b);
        let zero = [0u8; 32];
        proof {
            lemma_le_value_zero_iff(v.bytes@);
            assert(zero@ =~= Seq::new(32, |j: int| 0u8));
        }
        let c = if bytes_eq(&v.bytes, &zero) {
            CurveScalar::one()
        } else {
            v
        };
        self.challenge = c;
        c
    }

    /// Stores and returns a fresh challenge in `[1, ell)` from operating-system
    /// entropy; where no entropy can be had, keeps the stored challenge and reports it.
    pub fn generate_challenge(&mut self) -> (r: Result<CurveScalar, EntropyError>)
        ensures
            r matches Ok(c) ==> c.wf() && 1 <= c.value() && final(self).challenge == c,
            r is Err ==> final(self).challenge == old(self).challenge,
    {
        match random_wide_bytes() {
            Some(b) => Ok(self.challenge_from_bytes(&b)),
            None => Err(EntropyError::Unavailable),
        }
    }

    /// Whether `response` answers the stored challenge for `commitment` and `pub_key`.
    pub fn verify(&self, commitment: &[u8; 32], pub_key: &[u8; 32], response: &CurveScalar) -> (r:
        bool)
        ensures
            r == curve_accepts(commitment@, pub_key@, response.bytes@, self.challenge.bytes@),
    {
        if !decodes(pub_key) || !decodes(commitment) {
            return false;
        }
        let cy = point_mul(pub_key, &self.challenge.bytes);
        let rhs = point_add(commitment, &cy);
        let lhs = base_mul(&response.bytes);
        bytes_eq(&lhs, &rhs)
    }
}

/// `s` in reverse order.
pub open spec fn reversed(s: Seq<u8>) -> Seq<u8> {
    Seq::new(s.len(), |i: int| s[s.len() - 1 - i])
}

/// Reading bytes big-endian is reading them reversed little-endian.
pub proof fn lemma_be_is_reversed_le(s: Seq<u8>)
    ensures
        be_value(s) == le_value(reversed(s)),
    decreases s.len(),
{
    if s.len() > 0 {
        lemma_be_is_reversed_le(s.drop_last());
        assert(reversed(s).drop_first() =~= reversed(s.drop_last()));
    }
}

fn reverse_digest(d: &Vec<u8>) -> (r: [u8; 32])
    requires
        d@.len() == 32,
    ensures
        r@ == reversed(d@),
{
    let mut out = [0u8; 32];
    let mut i: usize = 0;
    while i < 32
        invariant
            d@.len() == 32,
            out@.len() == 32,
            i <= 32,
            forall|j: int| 0 <= j < i ==> out@[j] == d@[31 - j],
        decreases 32 - i,
    {
        out[i] = d[31 - i];
        i = i + 1;
    }
    assert(out@ =~= reversed(d@));
    out
}

/// The Fiat-Shamir challenge for a commitment and a public key: the SHA-256 digest
/// of their encodings, read big-endian, modulo `ell`.
pub open spec fn curve_fiat_shamir(t: Seq<u8>, y: Seq<u8>) -> nat {
    be_value(sha256_of(t + y)) % ell()
}

/// Fiat-Shamir determinism: equal commitments and public keys give equal challenges.
pub proof fn lemma_curve_fiat_shamir_deterministic(t1: Seq<u8>, y1: Seq<u8>, t2: Seq<u8>, y2: Seq<u8>)
    requires
        t1 == t2,
        y1 == y2,
    ensures
        curve_fiat_shamir(t1, y1) == curve_fiat_shamir(t2, y2),
{
}

/// Range: a Fiat-Shamir challenge on the curve lies in `[0, ell)`.
pub proof fn lemma_curve_fiat_shamir_in_range(t: Seq<u8>, y: Seq<u8>)
    ensures
        curve_fiat_shamir(t, y) < ell(),
{
    vstd::arithmetic::power2::lemma_pow2_pos(252);
}

/// The Fiat-Shamir challenge for the commitment `t` and the public key `y`.
pub fn fiat_shamir_challenge(t: &[u8; 32], y: &[u8; 32]) -> (r: CurveScalar)
    ensures
        r.wf(),
        r.value() == curve_fiat_shamir(t@, y@),
{
    let mut data: Vec<u8> = Vec::new();
    let mut i: usize = 0;
    while i < 64
        invariant
            t@.len() == 32,
            y@.len() == 32,
            i <= 64,
            data@ =~= (t@ + y@).subrange(0, i as int),
        decreases 64 - i,
    {
        if i < 32 {
            data.push(t[i]);
        } else {
            data.push(y[i - 32]);
        }
        i = i + 1;
    }
    assert(data@ =~= t@ + y@);
    let digest = sha256(&data);
    let le = reverse_digest(&digest);
    proof {
        lemma_be_is_reversed_le(digest@);
    }
    CurveScalar::from_bytes_mod_order(le)
}

/// A non-interactive proof: the commitment and the response.
#[derive(Debug, Clone, Copy)]
pub struct CurveProof {
    pub commitment: [u8; 32],
    pub response: CurveScalar,
}

impl Prover {
    /// The non-interactive proof with the one-time randomness `r`: the challenge is
    /// derived from the commitment and the public key.
    pub fn prove_with_nonce(&self, r: CurveScalar) -> (out: CurveProof)
        requires
            self.priv_key.wf(),
            r.wf(),
        ensures
            out.commitment@ == ristretto_base_mul(r.bytes@),
            out.response.wf(),
            out.response.value() == (r.value() + self.priv_key.value() * curve_fiat_shamir(
                out.commitment@,
                self.pub_key@,
            )) % ell(),
    {
        let (commitment, r) = self.commit_with_nonce(r);
        let c = fiat_shamir_challenge(&commitment, &self.pub_key);
        let response = self.respond(&c, &r);
        CurveProof { commitment, response }
    }

    /// A non-interactive proof with fresh randomness.
    pub fn prove(&self) -> (out: Result<CurveProof, EntropyError>)
        requires
            self.priv_key.wf(),
        ensures
            out matches Ok(pf) ==> pf.response.wf() && exists|r: CurveScalar|
                r.wf() && pf.commitment@ == ristretto_base_mul(r.bytes@)
                    && pf.response.value() == (r.value() + self.priv_key.value()
                    * curve_fiat_shamir(pf.commitment@, self.pub_key@)) % ell(),
    {
        let r = generate_random_scalar()?;
        Ok(self.prove_with_nonce(r))
    }
}

/// Whether `proof` holds for the public key `pub_key`: the challenge is recomputed
/// from the commitment and the key, then the verification equation is checked.
pub fn verify_proof(pub_key: &[u8; 32], proof: &CurveProof) -> (r: bool)
    ensures
        exists|c: CurveScalar|
            c.wf() && c.value() == curve_fiat_shamir(proof.commitment@, pub_key@) && r
                == curve_accepts(proof.commitment@, pub_key@, proof.response.bytes@, c.bytes@),
{
    let c = fiat_shamir_challenge(&proof.commitment, pub_key);
    let verifier = Verifier { challenge: c };
    verifier.verify(&proof.commitment, pub_key, &proof.response)
}

} // verus!

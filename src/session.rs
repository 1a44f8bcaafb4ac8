//! The protocol's state machine: `Init -> Committed -> Challenged -> Responded ->
//! Verified`, or `Init -> Responded` for a non-interactive proof.

use crate::modular::ModGroup;
use crate::protocol::{
    accepts, commit_with_nonce, fiat_shamir, fiat_shamir_challenge, lemma_completeness,
    random_challenge, random_scalar, respond, response_of, verify, Commitment, KeyPair,
};
use crate::random::EntropyError;
use vstd::prelude::*;

verus! {

/// Where a proof session stands.
#[derive(Debug, Clone, Copy, PartialEq, Eq, Structural)]
pub enum Stage {
    Init,
    Committed { commitment: Commitment },
    Challenged { commitment: Commitment, challenge: u64 },
    /// The commitment's randomness is gone: only the element is kept.
    Responded { element: u64, challenge: u64, response: u64 },
    Verified { accepted: bool },
}

/// One proof attempt between a prover holding `key` and a verifier, over `grp`.
#[derive(Debug, Clone, Copy, PartialEq, Eq, Structural)]
pub struct Session {
    pub grp: ModGroup,
    pub key: KeyPair,
    pub stage: Stage,
}

/// A key pair whose public element is `g` raised to its secret, a scalar below `q`.
pub open spec fn key_valid(grp: ModGroup, key: KeyPair) -> bool {
    key.secret < grp.q && key.public == grp.gen_pow(key.secret as nat)
}

impl Session {
    /// A fresh session, in `Init`.
    pub fn new(grp: ModGroup, key: KeyPair) -> (r: Session)
        ensures
            r.grp == grp,
            r.key == key,
            r.stage == Stage::Init,
    {
        Session { grp, key, stage: Stage::Init }
    }

    /// From `Init`, commits with the randomness `nonce` and moves to `Committed`;
    /// in any other stage, or with `nonce` not below `q`, changes nothing.
    pub fn commit_with_nonce(&mut self, nonce: u64) -> (r: bool)
        requires
            old(self).grp.wf(),
        ensures
            final(self).grp == old(self).grp,
            final(self).key == old(self).key,
            r == (old(self).stage == Stage::Init && nonce < old(self).grp.q),
            r ==> final(self).stage == (Stage::Committed {
                commitment: Commitment {
                    element: old(self).grp.gen_pow(nonce as nat) as u64,
                    randomness: nonce,
                },
            }),
            !r ==> final(self).stage == old(self).stage,
    {
        if self.stage == Stage::Init && nonce < self.grp.q {
            let commitment = commit_with_nonce(&self.grp, nonce);
            self.stage = Stage::Committed { commitment };
            true
        } else {
            false
        }
    }

    /// `commit_with_nonce` with fresh randomness; where no entropy can be had,
    /// changes nothing and reports it.
    pub fn commit(&mut self) -> (r: Result<bool, EntropyError>)
        requires
            old(self).grp.wf(),
        ensures
            final(self).grp == old(self).grp,
            final(self).key == old(self).key,
            r is Err ==> final(self).stage == old(self).stage,
            r matches Ok(b) ==> b == (old(self).stage == Stage::Init),
            r == Ok::<bool, EntropyError>(true) ==> exists|nonce: u64|
                nonce < old(self).grp.q && final(self).stage == (Stage::Committed {
                    commitment: Commitment {
                        element: old(self).grp.gen_pow(nonce as nat) as u64,
                        randomness: nonce,
                    },
                }),
            r == Ok::<bool, EntropyError>(false) ==> final(self).stage == old(self).stage,
    {
        let nonce = random_scalar(&self.grp)?;
        Ok(self.commit_with_nonce(nonce))
    }

    /// From `Committed`, takes the verifier's challenge `c` and moves to
    /// `Challenged`; in any other stage, or with `c` not below `q`, changes nothing.
    pub fn receive_challenge(&mut self, c: u64) -> (r: bool)
        ensures
            final(self).grp == old(self).grp,
            final(self).key == old(self).key,
            r == (old(self).stage is Committed && c < old(self).grp.q),
            r ==> final(self).stage == (Stage::Challenged {
                commitment: old(self).stage->Committed_commitment,
                challenge: c,
            }),
            !r ==> final(self).stage == old(self).stage,
    {
        match self.stage {
            Stage::Committed { commitment } => {
                if c < self.grp.q {
                    self.stage = Stage::Challenged { commitment, challenge: c };
                    true
                } else {
                    false
                }
            },
            _ => false,
        }
    }

    /// `receive_challenge` with a challenge drawn by the verifier from
    /// operating-system entropy; where no entropy can be had, changes nothing and
    /// reports it.
    pub fn issue_random_challenge(&mut self) -> (r: Result<bool, EntropyError>)
        requires
            old(self).grp.wf(),
        ensures
            final(self).grp == old(self).grp,
            final(self).key == old(self).key,
            r is Err ==> final(self).stage == old(self).stage,
            r matches Ok(b) ==> b == (old(self).stage is Committed),
            r == Ok::<bool, EntropyError>(true) ==> exists|c: u64|
                c < old(self).grp.q && (old(self).grp.q > 1 ==> 1 <= c)
                    && final(self).stage == (Stage::Challenged {
                    commitment: old(self).stage->Committed_commitment,
                    challenge: c,
                }),
            r == Ok::<bool, EntropyError>(false) ==> final(self).stage == old(self).stage,
    {
        let c = random_challenge(&self.grp)?;
        Ok(self.receive_challenge(c))
    }

    /// From `Challenged`, computes the response and moves to `Responded`, dropping
    /// the commitment's randomness; in any other stage, changes nothing.
    pub fn respond(&mut self) -> (r: bool)
        requires
            old(self).grp.wf(),
        ensures
            final(self).grp == old(self).grp,
            final(self).key == old(self).key,
            r == (old(self).stage is Challenged),
            r ==> ({
                let cm = old(self).stage->Challenged_commitment;
                let c = old(self).stage->Challenged_challenge;
                final(self).stage == (Stage::Responded {
                    element: cm.element,
                    challenge: c,
                    response: response_of(
                        old(self).grp,
                        cm.randomness as int,
                        old(self).key.secret as int,
                        c as int,
                    ) as u64,
                })
            }),
            !r ==> final(self).stage == old(self).stage,
    {
        match self.stage {
            Stage::Challenged { commitment, challenge } => {
                let z = respond(&self.grp, &commitment, self.key.secret, challenge);
                self.stage = Stage::Responded {
                    element: commitment.element,
                    challenge,
                    response: z,
                };
                true
            },
            _ => false,
        }
    }

    /// From `Init`, builds a non-interactive proof with the randomness `nonce`, its
    /// challenge derived by Fiat-Shamir, and moves straight to `Responded`; in any
    /// other stage, or with `nonce` not below `q`, changes nothing.
    pub fn prove_with_nonce(&mut self, nonce: u64) -> (r: bool)
        requires
            old(self).grp.wf(),
        ensures
            final(self).grp == old(self).grp,
            final(self).key == old(self).key,
            r == (old(self).stage == Stage::Init && nonce < old(self).grp.q),
            r ==> ({
                let grp = old(self).grp;
                let t = grp.gen_pow(nonce as nat);
                let c = fiat_shamir(grp, t as nat, old(self).key.public as nat);
                final(self).stage == (Stage::Responded {
                    element: t as u64,
                    challenge: c as u64,
                    response: response_of(grp, nonce as int, old(self).key.secret as int, c)
                        as u64,
                })
            }),
            !r ==> final(self).stage == old(self).stage,
    {
        if self.stage == Stage::Init && nonce < self.grp.q {
            let commitment = commit_with_nonce(&self.grp, nonce);
            let c = fiat_shamir_challenge(&self.grp, commitment.element, self.key.public);
            let z = respond(&self.grp, &commitment, self.key.secret, c);
            self.stage = Stage::Responded { element: commitment.element, challenge: c, response: z };
            true
        } else {
            false
        }
    }

    /// From `Responded`, checks the verification equation against the key's public
    /// element and moves to `Verified`; in any other stage, changes nothing.
    pub fn verify(&mut self) -> (r: bool)
        requires
            old(self).grp.wf(),
        ensures
            final(self).grp == old(self).grp,
            final(self).key == old(self).key,
            r == (old(self).stage is Responded),
            r ==> final(self).stage == (Stage::Verified {
                accepted: accepts(
                    old(self).grp,
                    old(self).stage->Responded_element as int,
                    old(self).key.public as int,
                    old(self).stage->Responded_response as nat,
                    old(self).stage->Responded_challenge as nat,
                ),
            }),
            !r ==> final(self).stage == old(self).stage,
    {
        match self.stage {
            Stage::Responded { element, challenge, response } => {
                let ok = verify(&self.grp, element, self.key.public, response, challenge);
                self.stage = Stage::Verified { accepted: ok };
                true
            },
            _ => false,
        }
    }
}

/// Runs the interactive exchange with the randomness `nonce` and the challenge `c`,
/// and returns whether the verifier accepted: for a valid key it always accepts.
pub fn run_interactive(grp: ModGroup, key: KeyPair, nonce: u64, c: u64) -> (r: bool)
    requires
        grp.wf(),
        key_valid(grp, key),
        nonce < grp.q,
        c < grp.q,
    ensures
        r,
{
    let mut s = Session::new(grp, key);
    s.commit_with_nonce(nonce);
    s.receive_challenge(c);
    s.respond();
    s.verify();
    proof {
        lemma_completeness(grp, key.secret as nat, nonce as nat, c as nat);
        vstd::arithmetic::div_mod::lemma_mod_bound(
            vstd::arithmetic::power::pow(grp.g as int, nonce as nat),
            grp.p as int,
        );
        vstd::arithmetic::div_mod::lemma_mod_bound(
            (nonce + key.secret * c) as int,
            grp.q as int,
        );
    }
    match s.stage {
        Stage::Verified { accepted } => accepted,
        _ => false,
    }
}

/// Builds a non-interactive proof with the randomness `nonce` and verifies it
/// against the key's public element: for a valid key it always accepts.
pub fn run_non_interactive(grp: ModGroup, key: KeyPair, nonce: u64) -> (r: bool)
    requires
        grp.wf(),
        key_valid(grp, key),
        nonce < grp.q,
    ensures
        r,
{
    let mut s = Session::new(grp, key);
    s.prove_with_nonce(nonce);
    s.verify();
    proof {
        let t = grp.gen_pow(nonce as nat);
        vstd::arithmetic::div_mod::lemma_mod_bound(
            vstd::arithmetic::power::pow(grp.g as int, nonce as nat),
            grp.p as int,
        );
        let c = fiat_shamir(grp, t as nat, key.public as nat);
        assert(0 <= c < grp.q);
        lemma_completeness(grp, key.secret as nat, nonce as nat, c as nat);
        assert(0 <= key.secret * c) by (nonlinear_arith)
            requires
                c >= 0,
        ;
        vstd::arithmetic::div_mod::lemma_mod_bound(
            (nonce + key.secret * c) as int,
            grp.q as int,
        );
    }
    match s.stage {
        Stage::Verified { accepted } => accepted,
        _ => false,
    }
}

} // verus!

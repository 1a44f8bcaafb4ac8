//! Schnorr-style zero-knowledge proofs of knowledge of a discrete logarithm,
//! over integers modulo a prime and over the Ristretto group.

pub mod encoding;
pub mod modular;
pub mod protocol;
pub mod session;
pub mod random;
pub mod ristretto;

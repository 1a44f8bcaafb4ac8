//! Entropy from the operating system.

use rand::rngs::OsRng;
use rand::RngCore;
use vstd::prelude::*;

verus! {

/// Why a fresh random value could not be drawn.
#[derive(Debug, Clone, Copy, PartialEq, Eq, Structural)]
pub enum EntropyError {
    /// The operating system's secure generator failed.
    Unavailable,
}

/// Relies on rand's `OsRng` (`RngCore::try_fill_bytes`): fills a 64-byte buffer from
/// the operating system's secure generator, or reports that it failed. Nothing is
/// promised of the bytes.
#[verifier::external_body]
pub(crate) fn random_wide_bytes() -> (r: Option<Vec<u8>>)
    ensures
        r matches Some(v) ==> v@.len() == 64,
{
    let mut buf = vec![0u8; 64];
    match OsRng.try_fill_bytes(&mut buf) {
        Ok(()) => Some(buf),
        Err(_) => None,
    }
}

} // verus!

//! Fixed-width byte encodings, their reduction to scalars, and the transcript hash.

use sha2::{Digest, Sha256};
use vstd::arithmetic::div_mod::*;
use vstd::arithmetic::power::*;
use vstd::prelude::*;

verus! {

/// The unsigned integer that `s` writes in big-endian order.
pub open spec fn be_value(s: Seq<u8>) -> nat
    decreases s.len(),
{
    if s.len() == 0 {
        0
    } else {
        be_value(s.drop_last()) * 256 + s.last() as nat
    }
}

/// The `n` low-order bytes of `x`, most significant first.
pub open spec fn be_bytes(x: nat, n: nat) -> Seq<u8>
    decreases n,
{
    if n == 0 {
        Seq::empty()
    } else {
        be_bytes(x / 256, (n - 1) as nat).push((x % 256) as u8)
    }
}

/// The SHA-256 digest of a byte string.
pub uninterp spec fn sha256_of(data: Seq<u8>) -> Seq<u8>;

/// Relies on sha2's `Sha256::digest`: the 32-byte SHA-256 digest of `data`.
#[verifier::external_body]
pub(crate) fn sha256(data: &Vec<u8>) -> (r: Vec<u8>)
    ensures
        r@ == sha256_of(data@),
        r@.len() == 32,
{
    Sha256::digest(data.as_slice()).to_vec()
}

/// The `n`-byte encoding has `n` bytes.
pub proof fn lemma_be_bytes_len(x: nat, n: nat)
    ensures
        be_bytes(x, n).len() == n,
    decreases n,
{
    if n > 0 {
        lemma_be_bytes_len(x / 256, (n - 1) as nat);
    }
}

/// Reading back the `n`-byte encoding of `x` gives `x` modulo `256^n`.
pub proof fn lemma_be_value_of_bytes(x: nat, n: nat)
    ensures
        be_value(be_bytes(x, n)) == x % pow(256, n) as nat,
    decreases n,
{
    if n == 0 {
        assert(pow(256, 0) == 1) by {
            lemma_pow0(256);
        }
    } else {
        let rest = be_bytes(x / 256, (n - 1) as nat);
        lemma_be_value_of_bytes(x / 256, (n - 1) as nat);
        assert(be_bytes(x, n).drop_last() =~= rest);
        lemma_pow_positive(256, (n - 1) as nat);
        lemma_mod_breakdown(x as int, 256, pow(256, (n - 1) as nat));
        assert(pow(256, n) == 256 * pow(256, (n - 1) as nat)) by {
            reveal(pow);
        }
    }
}

/// Distinct 64-bit values have distinct 8-byte encodings.
pub proof fn lemma_be_bytes_injective(x: u64, y: u64)
    requires
        x != y,
    ensures
        be_bytes(x as nat, 8) != be_bytes(y as nat, 8),
{
    lemma_be_value_of_bytes(x as nat, 8);
    lemma_be_value_of_bytes(y as nat, 8);
    reveal_with_fuel(pow, 9);
    assert(pow(256, 8) == 0x1_0000_0000_0000_0000);
    lemma_small_mod(x as nat, 0x1_0000_0000_0000_0000);
    lemma_small_mod(y as nat, 0x1_0000_0000_0000_0000);
}

/// The canonical 8-byte big-endian encoding of `x`.
pub fn encode_u64(x: u64) -> (r: Vec<u8>)
    ensures
        r@ == be_bytes(x as nat, 8),
{
    let mut v: Vec<u8> = vec![0u8; 8];
    let mut rest: u64 = x;
    let mut i: usize = 8;
    proof {
        lemma_be_bytes_len(x as nat, 8);
    }
    while i > 0
        invariant
            v@.len() == 8,
            i <= 8,
            be_bytes(x as nat, 8).len() == 8,
            be_bytes(x as nat, 8).subrange(0, i as int) == be_bytes(rest as nat, i as nat),
            forall|j: int| i <= j < 8 ==> v@[j] == be_bytes(x as nat, 8)[j],
        decreases i,
    {
        let ghost full = be_bytes(x as nat, 8);
        let ghost pre = be_bytes(rest as nat, i as nat);
        proof {
            assert(pre == be_bytes(rest as nat / 256, (i - 1) as nat).push((rest % 256) as u8));
            assert(full[i - 1] == full.subrange(0, i as int)[i - 1]);
            assert(full.subrange(0, i - 1) =~= full.subrange(0, i as int).subrange(0, i - 1));
            assert(pre.subrange(0, i - 1) =~= be_bytes(rest as nat / 256, (i - 1) as nat));
        }
        v.set(i - 1, (rest % 256) as u8);
        rest = rest / 256;
        i = i - 1;
    }
    assert(v@ =~= be_bytes(x as nat, 8));
    v
}

/// `be_value(digest) mod m`, computed one byte at a time so that a digest of any
/// width reduces exactly.
pub fn reduce_be(digest: &Vec<u8>, m: u64) -> (r: u64)
    requires
        m > 0,
    ensures
        r as int == be_value(digest@) as int % (m as int),
        r < m,
{
    let mut acc: u64 = 0;
    let mut i: usize = 0;
    assert(be_value(digest@.subrange(0, 0)) == 0);
    while i < digest.len()
        invariant
            m > 0,
            i <= digest@.len(),
            acc < m,
            acc as int == be_value(digest@.subrange(0, i as int)) as int % (m as int),
        decreases digest@.len() - i,
    {
        let ghost prefix = digest@.subrange(0, i as int);
        let ghost next = digest@.subrange(0, i + 1);
        let d = digest[i];
        proof {
            assert(next.drop_last() =~= prefix);
            assert(be_value(next) == be_value(prefix) * 256 + d);
            lemma_mul_mod_noop_left(be_value(prefix) as int, 256, m as int);
            lemma_add_mod_noop(be_value(prefix) as int * 256, d as int, m as int);
            lemma_add_mod_noop(acc as int * 256, d as int, m as int);
            lemma_mod_twice(acc as int * 256, m as int);
            lemma_mod_twice(d as int, m as int);
        }
        let wide: u128 = (acc as u128) * 256 + (d as u128);
        acc = (wide % (m as u128)) as u64;
        i = i + 1;
    }
    assert(digest@.subrange(0, digest@.len() as int) =~= digest@);
    acc
}

} // verus!

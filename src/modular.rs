//! The multiplicative group of integers modulo a prime `p`, generated by `g`.

use vstd::arithmetic::div_mod::*;
use vstd::arithmetic::power::*;
use vstd::prelude::*;

verus! {

/// Why a set of group parameters was refused.
#[derive(Debug, Clone, Copy, PartialEq, Eq, Structural)]
pub enum GroupError {
    /// The modulus is not an odd value above 2, or fails the Fermat test to base `g`.
    InvalidModulus,
    /// The generator lies outside `[1, p)`.
    InvalidGenerator,
    /// The declared order is zero, or `g` raised to it is not 1.
    InvalidOrder,
}

/// Parameters of a multiplicative group modulo `p`: the modulus `p`, the generator `g`,
/// and the order `q` by which exponents (scalars) are reduced.
#[derive(Debug, Clone, Copy, PartialEq, Eq, Structural)]
pub struct ModGroup {
    pub p: u64,
    pub g: u64,
    pub q: u64,
}

/// `b` raised to `e`, reduced modulo `m`.
pub open spec fn pow_mod(b: int, e: nat, m: int) -> int {
    pow(b, e) % m
}

impl ModGroup {
    /// Well-formed parameters: an odd modulus above 2, a generator in `[1, p)`,
    /// and a positive order `q` with `g^q = 1 (mod p)`.
    pub open spec fn wf(&self) -> bool {
        &&& self.p > 2
        &&& self.p % 2 == 1
        &&& 1 <= self.g < self.p
        &&& self.q > 0
        &&& pow_mod(self.g as int, self.q as nat, self.p as int) == 1
    }

    /// The group element `g^e mod p`.
    pub open spec fn gen_pow(&self, e: nat) -> int {
        pow_mod(self.g as int, e, self.p as int)
    }
}

/// `(a * b) mod m`, computed without overflow.
pub fn mul_mod(a: u64, b: u64, m: u64) -> (r: u64)
    requires
        m > 0,
    ensures
        r as int == (a as int * b as int) % (m as int),
        r < m,
{
    assert((a as int) * (b as int) <= u128::MAX) by (nonlinear_arith)
        requires
            a <= u64::MAX,
            b <= u64::MAX,
    ;
    let prod: u128 = (a as u128) * (b as u128);
    (prod % (m as u128)) as u64
}

proof fn lemma_square_step(acc: int, b: int, e: nat, m: int)
    requires
        m > 0,
    ensures
        e % 2 == 1 ==> ((acc * b) % m * pow((b * b) % m, e / 2)) % m == (acc * pow(b, e)) % m,
        e % 2 == 0 ==> (acc * pow((b * b) % m, e / 2)) % m == (acc * pow(b, e)) % m,
{
    let h = e / 2;
    lemma_square_is_pow2(b);
    lemma_pow_multiplies(b, 2, h);
    lemma_pow_mod_noop(b * b, h, m);
    let ph = pow(b * b, h);
    let pm = pow((b * b) % m, h);
    assert(pm % m == ph % m);
    if e % 2 == 1 {
        assert(e == 2 * h + 1);
        lemma_pow_adds(b, 2 * h, 1);
        lemma_pow1(b);
        assert(pow(b, e) == ph * b) by (nonlinear_arith)
            requires
                pow(b, e) == pow(b, 2 * h) * pow(b, 1),
                pow(b, 1) == b,
                pow(b, 2 * h) == ph,
                e == 2 * h + 1,
        ;
        let x = acc * b;
        lemma_mul_mod_noop(x, pm, m);
        lemma_mul_mod_noop(x, ph, m);
        lemma_mul_mod_noop_left(x, pm, m);
        assert((x % m * pm) % m == (x * ph) % m);
        assert(x * ph == acc * pow(b, e)) by (nonlinear_arith)
            requires
                x == acc * b,
                pow(b, e) == ph * b,
        ;
    } else {
        assert(e == 2 * h);
        lemma_mul_mod_noop(acc, pm, m);
        lemma_mul_mod_noop(acc, ph, m);
    }
}

impl ModGroup {
    /// Modular exponentiation by repeated squaring: `base^exp mod p`, every
    /// intermediate product reduced modulo `p`.
    pub fn power(&self, base: u64, exp: u64) -> (r: u64)
        requires
            self.p > 1,
        ensures
            r as int == pow_mod(base as int, exp as nat, self.p as int),
            r < self.p,
    {
        let m = self.p;
        let mut acc: u64 = 1;
        let mut b: u64 = base % m;
        let mut e: u64 = exp;
        proof {
            lemma_pow_mod_noop(base as int, exp as nat, m as int);
            lemma_small_mod(1, m as nat);
        }
        while e > 0
            invariant
                m == self.p,
                m > 1,
                acc < m,
                b < m,
                (acc as int * pow(b as int, e as nat)) % (m as int) == pow(base as int, exp as nat)
                    % (m as int),
            decreases e,
        {
            proof {
                lemma_square_step(acc as int, b as int, e as nat, m as int);
            }
            if e % 2 == 1 {
                acc = mul_mod(acc, b, m);
            }
            b = mul_mod(b, b, m);
            e = e / 2;
        }
        proof {
            lemma_pow0(b as int);
            lemma_small_mod(acc as nat, m as nat);
        }
        acc
    }
}

/// An odd modulus above 2.
pub open spec fn modulus_shape_ok(p: int) -> bool {
    p > 2 && p % 2 == 1
}

impl ModGroup {
    /// Parameters whose scalars are reduced modulo `p - 1`. The modulus must pass the
    /// Fermat test to base `g` (`g^(p-1) = 1 mod p`), as every prime does.
    pub fn new(p: u64, g: u64) -> (r: Result<ModGroup, GroupError>)
        ensures
            !modulus_shape_ok(p as int) ==> r == Err::<ModGroup, GroupError>(
                GroupError::InvalidModulus,
            ),
            modulus_shape_ok(p as int) && !(1 <= g < p) ==> r == Err::<ModGroup, GroupError>(
                GroupError::InvalidGenerator,
            ),
            modulus_shape_ok(p as int) && 1 <= g < p ==> r == if pow_mod(
                g as int,
                (p - 1) as nat,
                p as int,
            ) == 1 {
                Ok::<ModGroup, GroupError>(ModGroup { p, g, q: (p - 1) as u64 })
            } else {
                Err::<ModGroup, GroupError>(GroupError::InvalidModulus)
            },
            r matches Ok(grp) ==> grp.wf(),
    {
        if p <= 2 || p % 2 == 0 {
            return Err(GroupError::InvalidModulus);
        }
        if g == 0 || g >= p {
            return Err(GroupError::InvalidGenerator);
        }
        let grp = ModGroup { p, g, q: p - 1 };
        if grp.power(g, p - 1) != 1 {
            return Err(GroupError::InvalidModulus);
        }
        Ok(grp)
    }

    /// Parameters whose scalars are reduced modulo a declared order `q` of `g`,
    /// checked by `g^q = 1 (mod p)`.
    pub fn with_order(p: u64, g: u64, q: u64) -> (r: Result<ModGroup, GroupError>)
        ensures
            !modulus_shape_ok(p as int) ==> r == Err::<ModGroup, GroupError>(
                GroupError::InvalidModulus,
            ),
            modulus_shape_ok(p as int) && !(1 <= g < p) ==> r == Err::<ModGroup, GroupError>(
                GroupError::InvalidGenerator,
            ),
            modulus_shape_ok(p as int) && 1 <= g < p ==> r == if q > 0 && pow_mod(
                g as int,
                q as nat,
                p as int,
            ) == 1 {
                Ok::<ModGroup, GroupError>(ModGroup { p, g, q })
            } else {
                Err::<ModGroup, GroupError>(GroupError::InvalidOrder)
            },
            r matches Ok(grp) ==> grp.wf(),
    {
        if p <= 2 || p % 2 == 0 {
            return Err(GroupError::InvalidModulus);
        }
        if g == 0 || g >= p {
            return Err(GroupError::InvalidGenerator);
        }
        if q == 0 {
            return Err(GroupError::InvalidOrder);
        }
        let grp = ModGroup { p, g, q };
        if grp.power(g, q) != 1 {
            return Err(GroupError::InvalidOrder);
        }
        Ok(grp)
    }

    /// The group operation: `(a * b) mod p`.
    pub fn combine(&self, a: u64, b: u64) -> (r: u64)
        requires
            self.p > 1,
        ensures
            r as int == (a as int * b as int) % (self.p as int),
    {
        mul_mod(a, b, self.p)
    }

    /// The identity element, `1`.
    pub fn identity(&self) -> (r: u64)
        ensures
            r == 1,
    {
        1
    }
}

} // verus!

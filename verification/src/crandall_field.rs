//! A 64-bit prime field tuned for Crandall-style reduction.
//!
//! An element is stored as one `u64` representative; the semantic value is the
//! representative modulo `P`. Representatives need not be canonical: every
//! operation promises only a congruence, and `to_canonical_u64` reduces before
//! equality or export.

use vstd::prelude::*;
use vstd::arithmetic::div_mod::{
    lemma_add_mod_noop, lemma_mod_bound, lemma_mod_multiples_vanish, lemma_small_mod,
};
use vstd::arithmetic::power::{
    lemma_pow0, lemma_pow1, lemma_pow_adds, lemma_pow_mod_noop, lemma_pow_multiplies,
    lemma_square_is_pow2, pow,
};
use vstd::arithmetic::power2::{lemma2_to64, pow2};
use vstd::calc_macro::*;

verus! {

/// The field order: 2^64 - 9 * 2^28 + 1.
pub const P: u64 = 18446744071293632513;

/// 2^64 - P = 9 * 2^28 - 1; the weight of a carry out of 64 bits.
pub const EPSILON: u64 = 2415919103;

/// The semantic value of a stored representative.
pub open spec fn residue(x: u64) -> int {
    x as int % P as int
}

/// A field element designed for the Crandall reduction algorithm.
#[derive(Clone, Copy, Debug)]
pub struct CrandallField(pub u64);

impl CrandallField {
    /// The additive identity.
    pub fn zero() -> (r: Self)
        ensures
            r.0 == 0,
    {
        Self(0)
    }

    /// The multiplicative identity.
    pub fn one() -> (r: Self)
        ensures
            r.0 == 1,
    {
        Self(1)
    }

    /// The canonical representative of -1.
    pub fn neg_one() -> (r: Self)
        ensures
            r.0 == P - 1,
    {
        Self(P - 1)
    }

    /// Reads an element back out as its canonical representative in [0, P).
    pub fn to_canonical_u64(&self) -> (r: u64)
        ensures
            r as int == residue(self.0),
    {
        reduce64(self.0)
    }

    /// Wraps a raw integer as an element; the stored word is kept as given.
    pub fn from_canonical_u64(n: u64) -> (r: Self)
        ensures
            r.0 == n,
    {
        Self(n)
    }
}

impl CrandallField {
    /// Field negation: P - x, with a wrap-around correction for
    /// representatives above P.
    pub fn neg(self) -> (r: Self)
        ensures
            residue(r.0) == (P as int - residue(self.0)) % (P as int),
    {
        proof {
            lemma_residue_formula(self.0);
        }
        if self.0 <= P {
            proof {
                if self.0 == P {
                    lemma_mod_multiples_vanish(1int, 0int, P as int);
                    lemma_small_mod(0nat, P as nat);
                }
            }
            Self(P - self.0)
        } else {
            // x in (P, 2^64): P - x wraps; adding P back lands on 2P - x < P.
            let diff = P.wrapping_sub(self.0);
            proof {
                lemma_residue_formula((2 * P as int - self.0 as int) as u64);
            }
            Self(diff.wrapping_add(P))
        }
    }

    /// Field addition on raw representatives: wrapping add, then one carry
    /// fold per wrap-around (a carry out of 64 bits weighs EPSILON mod P).
    pub fn add(self, rhs: Self) -> (r: Self)
        ensures
            residue(r.0) == (residue(self.0) + residue(rhs.0)) % (P as int),
    {
        let x = self.0;
        let y = rhs.0;
        proof {
            lemma_mod_add_noop_pair(x, y);
        }
        let sum = x.wrapping_add(y);
        if sum < x {
            // carried out of 64 bits: x + y == sum + 2^64 == sum + P + EPSILON
            let sum2 = sum.wrapping_add(EPSILON);
            if sum2 < sum {
                proof {
                    lemma_mod_multiples_vanish(2int, x as int + y as int - 2 * P as int, P as int);
                }
                Self(sum2 + EPSILON)
            } else {
                proof {
                    lemma_mod_multiples_vanish(1int, x as int + y as int - P as int, P as int);
                }
                Self(sum2)
            }
        } else {
            Self(sum)
        }
    }

    /// Field subtraction on raw representatives: mirror of `add` via borrow
    /// folds.
    pub fn sub(self, rhs: Self) -> (r: Self)
        ensures
            residue(r.0) == (residue(self.0) - residue(rhs.0)) % (P as int),
    {
        let x = self.0;
        let y = rhs.0;
        proof {
            lemma_mod_sub_noop_pair(x, y);
        }
        let diff = x.wrapping_sub(y);
        if x < y {
            // borrowed: x - y == diff - 2^64 == diff - P - EPSILON
            let diff2 = diff.wrapping_sub(EPSILON);
            if diff < EPSILON {
                proof {
                    lemma_mod_multiples_vanish(2int, x as int - y as int, P as int);
                }
                Self(diff2 - EPSILON)
            } else {
                proof {
                    lemma_mod_multiples_vanish(1int, x as int - y as int, P as int);
                }
                Self(diff2)
            }
        } else {
            Self(diff)
        }
    }
}

/// A raw representative reduces by at most one subtraction of P.
proof fn lemma_residue_formula(x: u64)
    ensures
        residue(x) == if x < P {
            x as int
        } else {
            x as int - P as int
        },
{
    if x < P {
        lemma_small_mod(x as nat, P as nat);
    } else {
        lemma_mod_multiples_vanish(1int, x as int - P as int, P as int);
        lemma_small_mod((x - P) as nat, P as nat);
    }
}

/// (x + y) % P == (x % P + y % P) % P, for raw representatives.
proof fn lemma_mod_add_noop_pair(x: u64, y: u64)
    ensures
        (x as int + y as int) % (P as int) == (residue(x) + residue(y)) % (P as int),
{
    lemma_add_mod_noop(x as int, y as int, P as int);
}

/// (x - y) % P == (x % P - y % P) % P, for raw representatives.
proof fn lemma_mod_sub_noop_pair(x: u64, y: u64)
    ensures
        (x as int - y as int) % (P as int) == (residue(x) - residue(y)) % (P as int),
{
    vstd::arithmetic::div_mod::lemma_sub_mod_noop(x as int, y as int, P as int);
}

impl CrandallField {
    /// Field multiplication: widen to a 128-bit product, then fold twice.
    pub fn mul(self, rhs: Self) -> (r: Self)
        ensures
            residue(r.0) == (residue(self.0) * residue(rhs.0)) % (P as int),
    {
        proof {
            vstd::arithmetic::mul::lemma_mul_upper_bound(
                self.0 as int,
                u64::MAX as int,
                rhs.0 as int,
                u64::MAX as int,
            );
            vstd::arithmetic::div_mod::lemma_mul_mod_noop(self.0 as int, rhs.0 as int, P as int);
        }
        reduce128((self.0 as u128) * (rhs.0 as u128))
    }

    /// Squaring, as one multiplication.
    pub fn sq(&self) -> (r: Self)
        ensures
            residue(r.0) == (residue(self.0) * residue(self.0)) % (P as int),
    {
        (*self).mul(*self)
    }

    /// Cubing, as two multiplications.
    pub fn cube(&self) -> (r: Self)
        ensures
            residue(r.0) == (residue(self.0) * residue(self.0) * residue(self.0)) % (P as int),
    {
        let s = (*self).mul(*self);
        proof {
            vstd::arithmetic::div_mod::lemma_mul_mod_noop_left(
                residue(self.0) * residue(self.0),
                residue(self.0),
                P as int,
            );
        }
        s.mul(*self)
    }
}

impl CrandallField {
    /// Exponentiation by an integer exponent, via binary square-and-multiply.
    pub fn exp(self, power: u64) -> (r: Self)
        ensures
            residue(r.0) == pow(residue(self.0), power as nat) % (P as int),
    {
        let mut current = self;
        let mut product = Self(1);
        let mut e: u64 = power;
        proof {
            lemma_small_mod(1nat, P as nat);
            assert(residue(product.0) == 1);
            vstd::arithmetic::mul::lemma_mul_basics(pow(residue(self.0), power as nat));
        }
        while e != 0
            invariant
                (residue(product.0) * pow(residue(current.0), e as nat)) % (P as int) == pow(
                    residue(self.0),
                    power as nat,
                ) % (P as int),
            decreases e,
        {
            proof {
                lemma_mod_bound(product.0 as int, P as int);
                lemma_mod_bound(current.0 as int, P as int);
                lemma_exp_step(residue(product.0), residue(current.0), e as nat);
            }
            if e % 2 == 1 {
                product = product.mul(current);
            }
            current = current.sq();
            e = e / 2;
        }
        proof {
            lemma_pow0(residue(current.0));
            lemma_mod_bound(product.0 as int, P as int);
            lemma_small_mod((product.0 as int % P as int) as nat, P as nat);
        }
        product
    }

    /// The multiplicative inverse, as the Fermat power x^(P-2); `None` exactly
    /// for the zero element.
    pub fn try_inverse(&self) -> (r: Option<Self>)
        ensures
            (r is None) <==> residue(self.0) == 0,
            r matches Some(y) ==> residue(y.0) == pow(residue(self.0), (P - 2) as nat) % (P as int),
    {
        if self.to_canonical_u64() == 0 {
            None
        } else {
            Some(self.exp(P - 2))
        }
    }

    /// Field division as multiplication by the divisor's Fermat inverse.
    pub fn div(self, rhs: Self) -> (r: Self)
        requires
            residue(rhs.0) != 0,
        ensures
            residue(r.0) == (residue(self.0) * pow(residue(rhs.0), (P - 2) as nat)) % (P as int),
    {
        let inv = rhs.exp(P - 2);
        proof {
            vstd::arithmetic::div_mod::lemma_mul_mod_noop_right(
                residue(self.0),
                pow(residue(rhs.0), (P - 2) as nat),
                P as int,
            );
        }
        self.mul(inv)
    }

    pub fn add_assign(&mut self, rhs: Self)
        ensures
            residue(final (self).0) == (residue(old(self).0) + residue(rhs.0)) % (P as int),
    {
        *self = (*self).add(rhs);
    }

    pub fn sub_assign(&mut self, rhs: Self)
        ensures
            residue(final (self).0) == (residue(old(self).0) - residue(rhs.0)) % (P as int),
    {
        *self = (*self).sub(rhs);
    }

    pub fn mul_assign(&mut self, rhs: Self)
        ensures
            residue(final (self).0) == (residue(old(self).0) * residue(rhs.0)) % (P as int),
    {
        *self = (*self).mul(rhs);
    }

    pub fn div_assign(&mut self, rhs: Self)
        requires
            residue(rhs.0) != 0,
        ensures
            residue(final (self).0) == (residue(old(self).0) * pow(
                residue(rhs.0),
                (P - 2) as nat,
            )) % (P as int),
    {
        *self = (*self).div(rhs);
    }
}

/// The two-adicity of the multiplicative group: P - 1 = 2^28 * (2^36 - 9).
pub const TWO_ADICITY: usize = 28;

/// A generator of the order-2^28 subgroup of the multiplicative group.
pub const POWER_OF_TWO_GENERATOR: u64 = 10281950781551402419;

impl CrandallField {
    /// A generator of the unique order-2^n_power subgroup, n_power at most the
    /// two-adicity: the fixed order-2^28 generator raised to 2^(28 - n_power).
    pub fn primitive_root_of_unity(n_power: usize) -> (r: Self)
        requires
            n_power <= TWO_ADICITY,
        ensures
            residue(r.0) == pow(
                residue(POWER_OF_TWO_GENERATOR),
                pow2((TWO_ADICITY - n_power) as nat),
            ) % (P as int),
    {
        let base = Self(POWER_OF_TWO_GENERATOR);
        let s = (TWO_ADICITY - n_power) as u64;
        proof {
            lemma2_to64();
            vstd::bits::lemma_u64_shl_is_mul(1u64, s);
        }
        base.exp(1u64 << s)
    }

    /// The powers [1, g, g^2, ..., g^(order-1)]. The caller warrants that g
    /// has multiplicative order exactly `order`; that is not checked here,
    /// but it makes the listed elements pairwise distinct
    /// (`lemma_cyclic_subgroup_distinct`).
    pub fn cyclic_subgroup_known_order(generator: Self, order: usize) -> (r: Vec<Self>)
        ensures
            r@.len() == order,
            forall|i: int|
                0 <= i < order ==> residue(r@[i].0) == pow(residue(generator.0), i as nat) % (
                P as int),
    {
        let mut subgroup: Vec<Self> = Vec::new();
        let mut current = Self::one();
        proof {
            lemma_small_mod(1nat, P as nat);
            lemma_pow0(residue(generator.0));
        }
        for i in 0..order
            invariant
                subgroup@.len() == i,
                residue(current.0) == pow(residue(generator.0), i as nat) % (P as int),
                forall|j: int|
                    0 <= j < i ==> residue(subgroup@[j].0) == pow(residue(generator.0), j as nat)
                        % (P as int),
        {
            subgroup.push(current);
            proof {
                lemma_pow_step_up(residue(generator.0), i as nat);
            }
            current = current.mul(generator);
        }
        subgroup
    }
}

/// (g^i mod P) * g, reduced mod P, is g^(i+1) mod P.
proof fn lemma_pow_step_up(g: int, i: nat)
    requires
        0 <= g,
    ensures
        ((pow(g, i) % (P as int)) * g) % (P as int) == pow(g, i + 1) % (P as int),
{
    lemma_pow1(g);
    lemma_pow_adds(g, i, 1);
    vstd::arithmetic::div_mod::lemma_mul_mod_noop_left(pow(g, i), g, P as int);
}

impl PartialEq for CrandallField {
    /// Equality compares canonical representatives, so 0 and P are one element.
    fn eq(&self, other: &Self) -> bool {
        self.to_canonical_u64() == other.to_canonical_u64()
    }
}

impl Eq for CrandallField {

}

impl vstd::std_specs::cmp::PartialEqSpecImpl for CrandallField {
    open spec fn obeys_eq_spec() -> bool {
        true
    }

    open spec fn eq_spec(&self, other: &Self) -> bool {
        residue(self.0) == residue(other.0)
    }
}

/// One square-and-multiply round keeps the running congruence:
/// rp * rc^e == (rp * rc or rp) * (rc^2)^(e/2), all mod P.
proof fn lemma_exp_step(rp: int, rc: int, e: nat)
    requires
        e > 0,
        0 <= rp,
        0 <= rc,
    ensures
        e % 2 == 1 ==> (((rp * rc) % (P as int)) * pow((rc * rc) % (P as int), (e / 2) as nat)) % (
        P as int) == (rp * pow(rc, e)) % (P as int),
        e % 2 == 0 ==> (rp * pow((rc * rc) % (P as int), (e / 2) as nat)) % (P as int) == (rp * pow(
            rc,
            e,
        )) % (P as int),
{
    let pi = P as int;
    let h = (e / 2) as nat;
    lemma_pow_mod_noop(rc * rc, h, pi);
    lemma_square_is_pow2(rc);
    lemma_pow_multiplies(rc, 2, h);
    assert(pow(rc * rc, h) == pow(rc, 2 * h));
    if e % 2 == 1 {
        lemma_pow_adds(rc, 2 * h, 1);
        lemma_pow1(rc);
        assert(pow(rc, e) == pow(rc, 2 * h) * rc);
        calc! {
            (==)
            (((rp * rc) % pi) * pow((rc * rc) % pi, h)) % pi; {
                vstd::arithmetic::div_mod::lemma_mul_mod_noop_general(
                    rp * rc,
                    pow((rc * rc) % pi, h),
                    pi,
                );
            }
            ((rp * rc) * (pow((rc * rc) % pi, h) % pi)) % pi; {}
            ((rp * rc) * (pow(rc * rc, h) % pi)) % pi; {
                vstd::arithmetic::div_mod::lemma_mul_mod_noop_right(rp * rc, pow(rc * rc, h), pi);
            }
            ((rp * rc) * pow(rc, 2 * h)) % pi; {
                vstd::arithmetic::mul::lemma_mul_is_associative(rp, rc, pow(rc, 2 * h));
                vstd::arithmetic::mul::lemma_mul_is_commutative(rc, pow(rc, 2 * h));
                vstd::arithmetic::mul::lemma_mul_is_associative(rp, pow(rc, 2 * h), rc);
            }
            (rp * (pow(rc, 2 * h) * rc)) % pi; {}
            (rp * pow(rc, e)) % pi;
        }
    } else {
        assert(2 * h == e);
        calc! {
            (==)
            (rp * pow((rc * rc) % pi, h)) % pi; {
                vstd::arithmetic::div_mod::lemma_mul_mod_noop_right(rp, pow((rc * rc) % pi, h), pi);
            }
            (rp * (pow((rc * rc) % pi, h) % pi)) % pi; {}
            (rp * (pow(rc * rc, h) % pi)) % pi; {
                vstd::arithmetic::div_mod::lemma_mul_mod_noop_right(rp, pow(rc * rc, h), pi);
            }
            (rp * pow(rc, e)) % pi;
        }
    }
}

/// Crandall's reduction of a 128-bit value. A weight-2^64 word is worth
/// EPSILON mod P, so folding the high word in twice leaves at most 64 bits;
/// the result is congruent to the input, not necessarily canonical.
pub fn reduce128(x: u128) -> (r: CrandallField)
    ensures
        residue(r.0) == x as int % (P as int),
{
    let (lo_1, hi_1) = split(x);
    proof {
        vstd::arithmetic::mul::lemma_mul_upper_bound(
            EPSILON as int,
            EPSILON as int,
            hi_1 as int,
            u64::MAX as int,
        );
    }
    let t = (EPSILON as u128) * (hi_1 as u128) + (lo_1 as u128);
    proof {
        lemma_fold_congruence(hi_1 as int, lo_1 as int);
        assert(x as int % (P as int) == t as int % (P as int));
    }
    let (lo_2, hi_2) = split(t);
    proof {
        // t < (EPSILON + 1) * 2^64, so the second high word is at most EPSILON
        // and the final fold cannot overflow 64 bits.
        assert(t as int <= EPSILON as int * 0x10000000000000000 + 0xffffffffffffffff);
        vstd::arithmetic::div_mod::lemma_div_is_ordered(
            t as int,
            EPSILON as int * 0x10000000000000000 + 0xffffffffffffffff,
            0x10000000000000000,
        );
        assert((EPSILON as int * 0x10000000000000000 + 0xffffffffffffffff) / 0x10000000000000000
            == EPSILON as int);
        vstd::arithmetic::mul::lemma_mul_upper_bound(
            hi_2 as int,
            EPSILON as int,
            EPSILON as int,
            EPSILON as int,
        );
        lemma_fold_congruence(hi_2 as int, lo_2 as int);
    }
    let lo_3 = hi_2 * EPSILON;
    proof {
        lemma_mod_add_noop_pair(lo_2, lo_3);
    }
    CrandallField(lo_2).add(CrandallField(lo_3))
}

/// hi * 2^64 + lo is congruent to hi * EPSILON + lo mod P,
/// because 2^64 == P + EPSILON.
proof fn lemma_fold_congruence(hi: int, lo: int)
    requires
        0 <= hi,
        0 <= lo,
    ensures
        (hi * 0x10000000000000000 + lo) % (P as int) == (hi * EPSILON as int + lo) % (P as int),
{
    vstd::arithmetic::mul::lemma_mul_is_distributive_add(hi, P as int, EPSILON as int);
    assert(hi * 0x10000000000000000 + lo == (P as int) * hi + (hi * EPSILON as int + lo)) by {
        vstd::arithmetic::mul::lemma_mul_is_commutative(hi, P as int);
    }
    lemma_mod_multiples_vanish(hi, hi * EPSILON as int + lo, P as int);
}

/// Splits a 128-bit value at the 64-bit boundary: (low word, high word).
pub fn split(x: u128) -> (r: (u64, u64))
    ensures
        x as int == r.1 as int * 0x10000000000000000 + r.0 as int,
        r.1 as int == x as int / 0x10000000000000000,
        r.0 as int == x as int % 0x10000000000000000,
{
    let lo = (x % 0x10000000000000000) as u64;
    let hi = (x >> 64) as u64;
    proof {
        assert(x >> 64 == x / 0x10000000000000000) by (bit_vector);
        assert(x as int / 0x10000000000000000 <= u64::MAX as int) by {
            vstd::arithmetic::div_mod::lemma_div_is_ordered(
                x as int,
                u128::MAX as int,
                0x10000000000000000,
            );
            assert(u128::MAX as int / 0x10000000000000000 == u64::MAX as int);
        }
        vstd::arithmetic::div_mod::lemma_fundamental_div_mod(x as int, 0x10000000000000000);
    }
    (lo, hi)
}

/// One conditional subtraction canonicalizes, since every `u64` is below 2P.
pub fn reduce64(x: u64) -> (r: u64)
    ensures
        r as int == x as int % P as int,
        r < P,
{
    if x >= P {
        proof {
            lemma_small_mod((x - P) as nat, P as nat);
            lemma_mod_multiples_vanish(1int, x as int - P as int, P as int);
        }
        x - P
    } else {
        proof {
            lemma_small_mod(x as nat, P as nat);
        }
        x
    }
}

} // verus!


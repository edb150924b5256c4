//! The laws of the field layer: ring axioms of the modular arithmetic, the
//! canonical round trip, the order of the two-adic generator, and the
//! distinctness of the elements of a cyclic subgroup.

use vstd::prelude::*;
use vstd::arithmetic::div_mod::{
    lemma_add_mod_noop, lemma_add_mod_noop_right, lemma_mod_bound, lemma_mod_multiples_vanish,
    lemma_mul_mod_noop_left, lemma_mul_mod_noop_right, lemma_small_mod,
};
use vstd::arithmetic::mul::{lemma_mul_is_associative, lemma_mul_is_distributive_add};
use vstd::arithmetic::power::{
    lemma1_pow, lemma_pow1, lemma_pow_adds, lemma_pow_mod_noop, lemma_pow_multiplies, pow,
};
use vstd::arithmetic::power2::{lemma_pow2_adds, lemma_pow2_unfold, pow2};
use vstd::assert_by_contradiction;
use crate::crandall_field::{residue, P, POWER_OF_TWO_GENERATOR};

verus! {

/// Addition is associative: adding reduced sums either way agrees, so chained
/// `add` calls may be grouped freely.
pub proof fn lemma_add_associative(a: u64, b: u64, c: u64)
    ensures
        ((residue(a) + residue(b)) % (P as int) + residue(c)) % (P as int) == (residue(a) + (
        residue(b) + residue(c)) % (P as int)) % (P as int),
{
    let pi = P as int;
    lemma_add_mod_noop_right(residue(c), residue(a) + residue(b), pi);
    lemma_add_mod_noop_right(residue(a), residue(b) + residue(c), pi);
}

/// Zero is the additive identity.
pub proof fn lemma_add_identity(a: u64)
    ensures
        (residue(a) + residue(0)) % (P as int) == residue(a),
{
    lemma_small_mod(0nat, P as nat);
    lemma_mod_bound(a as int, P as int);
    lemma_small_mod(residue(a) as nat, P as nat);
}

/// Every element and its negation sum to zero.
pub proof fn lemma_add_inverse(a: u64)
    ensures
        (residue(a) + (P as int - residue(a)) % (P as int)) % (P as int) == 0,
{
    let pi = P as int;
    let ra = residue(a);
    lemma_mod_bound(a as int, pi);
    if ra == 0 {
        lemma_mod_multiples_vanish(1int, 0int, pi);
        lemma_small_mod(0nat, P as nat);
    } else {
        lemma_small_mod((pi - ra) as nat, P as nat);
        lemma_mod_multiples_vanish(1int, 0int, pi);
        lemma_small_mod(0nat, P as nat);
    }
}

/// Multiplication is associative over reduced products.
pub proof fn lemma_mul_associative(a: u64, b: u64, c: u64)
    ensures
        ((residue(a) * residue(b)) % (P as int) * residue(c)) % (P as int) == (residue(a) * ((
        residue(b) * residue(c)) % (P as int))) % (P as int),
{
    let pi = P as int;
    lemma_mul_mod_noop_left(residue(a) * residue(b), residue(c), pi);
    lemma_mul_mod_noop_right(residue(a), residue(b) * residue(c), pi);
    lemma_mul_is_associative(residue(a), residue(b), residue(c));
}

/// One is the multiplicative identity.
pub proof fn lemma_mul_identity(a: u64)
    ensures
        (residue(a) * residue(1)) % (P as int) == residue(a),
{
    lemma_small_mod(1nat, P as nat);
    lemma_mod_bound(a as int, P as int);
    vstd::arithmetic::mul::lemma_mul_basics(residue(a));
    lemma_small_mod(residue(a) as nat, P as nat);
}

/// Multiplication distributes over a reduced sum.
pub proof fn lemma_mul_distributive(a: u64, b: u64, c: u64)
    ensures
        (residue(a) * ((residue(b) + residue(c)) % (P as int))) % (P as int) == ((residue(a)
            * residue(b)) % (P as int) + (residue(a) * residue(c)) % (P as int)) % (P as int),
{
    let pi = P as int;
    lemma_mul_mod_noop_right(residue(a), residue(b) + residue(c), pi);
    lemma_mul_is_distributive_add(residue(a), residue(b), residue(c));
    lemma_add_mod_noop(residue(a) * residue(b), residue(a) * residue(c), pi);
}

/// An element whose (P-1)-th power is one multiplies with its Fermat power
/// x^(P-2) — the value `try_inverse` and `div` use — to one. By Fermat's
/// little theorem every nonzero element satisfies the hypothesis; the theorem
/// itself (the primality of P) is not proved here.
pub proof fn lemma_fermat_power_inverts(x: u64)
    requires
        pow(residue(x), (P - 1) as nat) % (P as int) == 1,
    ensures
        (residue(x) * (pow(residue(x), (P - 2) as nat) % (P as int))) % (P as int) == 1,
{
    let pi = P as int;
    let r = residue(x);
    lemma_pow_adds(r, 1, (P - 2) as nat);
    lemma_pow1(r);
    lemma_mul_mod_noop_right(r, pow(r, (P - 2) as nat), pi);
}

/// Reading an element out canonically and wrapping the result back up yields
/// the same field element.
pub proof fn lemma_canonical_round_trip(x: u64, c: u64)
    requires
        c as int == residue(x),
    ensures
        residue(c) == residue(x),
{
    lemma_mod_bound(x as int, P as int);
    lemma_small_mod(c as nat, P as nat);
}

/// One squaring ascends the tower of iterated squares of g mod P.
proof fn lemma_square_chain_step(g: int, i: nat, c: int, c2: int)
    requires
        pow(g, pow2(i)) % (P as int) == c,
        (c * c) % (P as int) == c2,
    ensures
        pow(g, pow2(i + 1)) % (P as int) == c2,
{
    lemma_pow2_unfold(i + 1);
    assert(pow2(i + 1) == pow2(i) + pow2(i));
    lemma_pow_adds(g, pow2(i), pow2(i));
    vstd::arithmetic::div_mod::lemma_mul_mod_noop(pow(g, pow2(i)), pow(g, pow2(i)), P as int);
}

/// The fixed two-adic generator has multiplicative order exactly 2^28: its
/// 2^27-th power is P - 1 (that is, -1) and its 2^28-th power is 1, shown by
/// computing the tower of 28 iterated squares.
pub proof fn lemma_generator_order()
    ensures
        pow(residue(POWER_OF_TWO_GENERATOR), pow2(27)) % (P as int) == P as int - 1,
        pow(residue(POWER_OF_TWO_GENERATOR), pow2(28)) % (P as int) == 1,
{
    let g = residue(POWER_OF_TWO_GENERATOR);
    lemma_small_mod(POWER_OF_TWO_GENERATOR as nat, P as nat);
    vstd::arithmetic::power2::lemma2_to64();
    lemma_pow1(g);
    assert(pow(g, pow2(0)) % (P as int) == 10281950781551402419int) by {
        lemma_small_mod(10281950781551402419nat, P as nat);
    }
    assert((10281950781551402419 * 10281950781551402419) % 18446744071293632513 == 11187958449936188211int);
    lemma_square_chain_step(g, 0, 10281950781551402419int, 11187958449936188211int);
    assert((11187958449936188211 * 11187958449936188211) % 18446744071293632513 == 16193717518417335590int);
    lemma_square_chain_step(g, 1, 11187958449936188211int, 16193717518417335590int);
    assert((16193717518417335590 * 16193717518417335590) % 18446744071293632513 == 1657111247548381807int);
    lemma_square_chain_step(g, 2, 16193717518417335590int, 1657111247548381807int);
    assert((1657111247548381807 * 1657111247548381807) % 18446744071293632513 == 9377247539103469776int);
    lemma_square_chain_step(g, 3, 1657111247548381807int, 9377247539103469776int);
    assert((9377247539103469776 * 9377247539103469776) % 18446744071293632513 == 2335374310987008519int);
    lemma_square_chain_step(g, 4, 9377247539103469776int, 2335374310987008519int);
    assert((2335374310987008519 * 2335374310987008519) % 18446744071293632513 == 16462018284699855186int);
    lemma_square_chain_step(g, 5, 2335374310987008519int, 16462018284699855186int);
    assert((16462018284699855186 * 16462018284699855186) % 18446744071293632513 == 17300044567649732801int);
    lemma_square_chain_step(g, 6, 16462018284699855186int, 17300044567649732801int);
    assert((17300044567649732801 * 17300044567649732801) % 18446744071293632513 == 12884355134542070612int);
    lemma_square_chain_step(g, 7, 17300044567649732801int, 12884355134542070612int);
    assert((12884355134542070612 * 12884355134542070612) % 18446744071293632513 == 16788373803099597280int);
    lemma_square_chain_step(g, 8, 12884355134542070612int, 16788373803099597280int);
    assert((16788373803099597280 * 16788373803099597280) % 18446744071293632513 == 4395094116360645224int);
    lemma_square_chain_step(g, 9, 16788373803099597280int, 4395094116360645224int);
    assert((4395094116360645224 * 4395094116360645224) % 18446744071293632513 == 9642492873195871693int);
    lemma_square_chain_step(g, 10, 4395094116360645224int, 9642492873195871693int);
    assert((9642492873195871693 * 9642492873195871693) % 18446744071293632513 == 1640085378437944310int);
    lemma_square_chain_step(g, 11, 9642492873195871693int, 1640085378437944310int);
    assert((1640085378437944310 * 1640085378437944310) % 18446744071293632513 == 3014625499523848392int);
    lemma_square_chain_step(g, 12, 1640085378437944310int, 3014625499523848392int);
    assert((3014625499523848392 * 3014625499523848392) % 18446744071293632513 == 6970168990418713622int);
    lemma_square_chain_step(g, 13, 3014625499523848392int, 6970168990418713622int);
    assert((6970168990418713622 * 6970168990418713622) % 18446744071293632513 == 6094903385552077338int);
    lemma_square_chain_step(g, 14, 6970168990418713622int, 6094903385552077338int);
    assert((6094903385552077338 * 6094903385552077338) % 18446744071293632513 == 9932980923219991257int);
    lemma_square_chain_step(g, 15, 6094903385552077338int, 9932980923219991257int);
    assert((9932980923219991257 * 9932980923219991257) % 18446744071293632513 == 7654180610279953506int);
    lemma_square_chain_step(g, 16, 9932980923219991257int, 7654180610279953506int);
    assert((7654180610279953506 * 7654180610279953506) % 18446744071293632513 == 12082156762075825393int);
    lemma_square_chain_step(g, 17, 7654180610279953506int, 12082156762075825393int);
    assert((12082156762075825393 * 12082156762075825393) % 18446744071293632513 == 7186627594470131912int);
    lemma_square_chain_step(g, 18, 12082156762075825393int, 7186627594470131912int);
    assert((7186627594470131912 * 7186627594470131912) % 18446744071293632513 == 10810114685875700126int);
    lemma_square_chain_step(g, 19, 7186627594470131912int, 10810114685875700126int);
    assert((10810114685875700126 * 10810114685875700126) % 18446744071293632513 == 9199914497196208594int);
    lemma_square_chain_step(g, 20, 10810114685875700126int, 9199914497196208594int);
    assert((9199914497196208594 * 9199914497196208594) % 18446744071293632513 == 6303199666887002993int);
    lemma_square_chain_step(g, 21, 9199914497196208594int, 6303199666887002993int);
    assert((6303199666887002993 * 6303199666887002993) % 18446744071293632513 == 10181794742231434236int);
    lemma_square_chain_step(g, 22, 6303199666887002993int, 10181794742231434236int);
    assert((10181794742231434236 * 10181794742231434236) % 18446744071293632513 == 8037087449009998716int);
    lemma_square_chain_step(g, 23, 10181794742231434236int, 8037087449009998716int);
    assert((8037087449009998716 * 8037087449009998716) % 18446744071293632513 == 6030890043410403347int);
    lemma_square_chain_step(g, 24, 8037087449009998716int, 6030890043410403347int);
    assert((6030890043410403347 * 6030890043410403347) % 18446744071293632513 == 6183774639018825925int);
    lemma_square_chain_step(g, 25, 6030890043410403347int, 6183774639018825925int);
    assert((6183774639018825925 * 6183774639018825925) % 18446744071293632513 == 18446744071293632512int);
    lemma_square_chain_step(g, 26, 6183774639018825925int, 18446744071293632512int);
    assert((18446744071293632512 * 18446744071293632512) % 18446744071293632513 == 1int);
    lemma_square_chain_step(g, 27, 18446744071293632512int, 1int);
}

/// The residue that `primitive_root_of_unity(k)` returns.
pub open spec fn root_of_unity_residue(k: nat) -> int {
    pow(residue(POWER_OF_TWO_GENERATOR), pow2((28 - k) as nat)) % (P as int)
}

/// The k-th primitive root of unity, raised to 2^k, is one; raised to
/// 2^(k-1) it is not, so its order is exactly 2^k.
pub proof fn lemma_primitive_root_order(k: nat)
    requires
        k <= 28,
    ensures
        pow(root_of_unity_residue(k), pow2(k)) % (P as int) == 1,
        k >= 1 ==> pow(root_of_unity_residue(k), pow2((k - 1) as nat)) % (P as int) != 1,
{
    let pi = P as int;
    let g = residue(POWER_OF_TWO_GENERATOR);
    let e = pow2((28 - k) as nat);
    lemma_generator_order();
    lemma_pow_mod_noop(pow(g, e), pow2(k), pi);
    lemma_pow_multiplies(g, e, pow2(k));
    lemma_pow2_adds((28 - k) as nat, k);
    assert(pow(root_of_unity_residue(k), pow2(k)) % pi == pow(g, pow2(28)) % pi);
    if k >= 1 {
        lemma_pow_mod_noop(pow(g, e), pow2((k - 1) as nat), pi);
        lemma_pow_multiplies(g, e, pow2((k - 1) as nat));
        lemma_pow2_adds((28 - k) as nat, (k - 1) as nat);
        assert(pow(root_of_unity_residue(k), pow2((k - 1) as nat)) % pi == pow(g, pow2(27)) % pi);
    }
}

/// In the list [1, g, ..., g^(n-1)] of a generator of order exactly n, the
/// entries are pairwise distinct as field elements.
pub proof fn lemma_cyclic_subgroup_distinct(g: u64, n: nat, i: nat, j: nat)
    requires
        pow(residue(g), n) % (P as int) == 1,
        forall|m: nat| 0 < m < n ==> pow(residue(g), m) % (P as int) != 1,
        i < j,
        j < n,
    ensures
        pow(residue(g), i) % (P as int) != pow(residue(g), j) % (P as int),
{
    let pi = P as int;
    let b = residue(g);
    assert_by_contradiction!(pow(b, i) % pi != pow(b, j) % pi, {
        let c = pow(b, (n - j) as nat);
        lemma_pow_adds(b, i, (n - j) as nat);
        lemma_pow_adds(b, j, (n - j) as nat);
        lemma_mul_mod_noop_left(pow(b, i), c, pi);
        lemma_mul_mod_noop_left(pow(b, j), c, pi);
        assert(pow(b, (i + n - j) as nat) % pi == pow(b, n) % pi);
        let m = (i + n - j) as nat;
        assert(0 < m < n);
        assert(pow(b, m) % pi != 1);
    });
}

/// Applied to the list that `cyclic_subgroup_known_order` returns: when the
/// generator truly has order n, entries at distinct positions are distinct
/// field elements.
pub proof fn lemma_cyclic_subgroup_entries_distinct(g: u64, n: nat, xs: Seq<u64>, i: int, j: int)
    requires
        xs.len() == n,
        forall|t: int| 0 <= t < n ==> residue(#[trigger] xs[t]) == pow(residue(g), t as nat) % (
        P as int),
        pow(residue(g), n) % (P as int) == 1,
        forall|m: nat| 0 < m < n ==> pow(residue(g), m) % (P as int) != 1,
        0 <= i < j < n,
    ensures
        residue(xs[i]) != residue(xs[j]),
{
    lemma_cyclic_subgroup_distinct(g, n, i as nat, j as nat);
}

/// Every listed element of an order-n subgroup, raised to n, is one.
pub proof fn lemma_cyclic_subgroup_closed(g: u64, n: nat, i: nat)
    requires
        pow(residue(g), n) % (P as int) == 1,
    ensures
        pow(pow(residue(g), i) % (P as int), n) % (P as int) == 1,
{
    let pi = P as int;
    let b = residue(g);
    lemma_pow_mod_noop(pow(b, i), n, pi);
    lemma_pow_multiplies(b, i, n);
    lemma_pow_multiplies(b, n, i);
    assert(pow(pow(b, i), n) == pow(pow(b, n), i)) by {
        vstd::arithmetic::mul::lemma_mul_is_commutative(i as int, n as int);
    }
    lemma_pow_mod_noop(pow(b, n), i, pi);
    lemma1_pow(i);
    lemma_small_mod(1nat, P as nat);
}

} // verus!

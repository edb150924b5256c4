//! The description of a FRI low-degree test: which committed oracles exist,
//! and which of their polynomials are opened together at which points.

use vstd::prelude::*;

verus! {

/// One committed batch of polynomials, identified by its position in the
/// oracle list: how many polynomials it holds and whether it is blinded.
#[derive(Clone, Copy, Debug, PartialEq, Eq, Structural)]
pub struct FriOracleInfo {
    pub num_polys: usize,
    pub blinding: bool,
}

/// One polynomial inside one oracle, both by position.
#[derive(Clone, Copy, Debug, PartialEq, Eq, Structural)]
pub struct FriPolynomialInfo {
    pub oracle_index: usize,
    pub polynomial_index: usize,
}

/// The references (oracle_index, 0) .. (oracle_index, count): one contiguous
/// slice covering the front of an oracle.
pub open spec fn range_polys(oracle_index: int, count: int) -> Seq<FriPolynomialInfo> {
    Seq::new(
        count as nat,
        |j: int|
            FriPolynomialInfo {
                oracle_index: oracle_index as usize,
                polynomial_index: j as usize,
            },
    )
}

impl FriPolynomialInfo {
    /// References to the first `count` polynomials of the oracle at
    /// `oracle_index`.
    pub fn from_range(oracle_index: usize, count: usize) -> (r: Vec<FriPolynomialInfo>)
        ensures
            r@ == range_polys(oracle_index as int, count as int),
    {
        let mut polys: Vec<FriPolynomialInfo> = Vec::new();
        for j in 0..count
            invariant
                polys@.len() == j,
                forall|t: int|
                    0 <= t < j ==> polys@[t] == range_polys(oracle_index as int, count as int)[t],
        {
            polys.push(FriPolynomialInfo { oracle_index, polynomial_index: j });
        }
        proof {
            assert(polys@ =~= range_polys(oracle_index as int, count as int));
        }
        polys
    }
}

/// Openings made together: one evaluation point and the polynomials opened
/// there, in order.
#[derive(Clone, Debug, PartialEq, Eq)]
pub struct FriBatchInfo<PT> {
    pub point: PT,
    pub polynomials: Vec<FriPolynomialInfo>,
}

/// Everything FRI needs to know about one proof: the committed oracles in
/// commitment order, and the evaluation batches in opening order.
#[derive(Clone, Debug, PartialEq, Eq)]
pub struct FriInstanceInfo<PT> {
    pub oracles: Vec<FriOracleInfo>,
    pub batches: Vec<FriBatchInfo<PT>>,
}

} // verus!

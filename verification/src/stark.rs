//! The descriptor of one STARK instance: its capability record (constraint
//! degree, permutation pairs, fixed column values) and the derived layout of
//! the FRI opening plan, built identically for the direct and the in-circuit
//! prover.

use vstd::prelude::*;
use crate::crandall_field::{residue, CrandallField, P};
use crate::fri::{range_polys, FriBatchInfo, FriInstanceInfo, FriOracleInfo, FriPolynomialInfo};

verus! {

/// Global parameters of one proof: column counts, the number of challenge
/// points, and the commitment rate/cap sizes handed on to the committer.
#[derive(Clone, Copy, Debug, PartialEq, Eq, Structural)]
pub struct StarkConfig {
    pub num_columns: usize,
    pub num_fixed_columns: usize,
    pub num_challenges: usize,
    pub rate_bits: usize,
    pub cap_height: usize,
}

/// Pairs of trace columns whose row values must be permutations of one
/// another; each entry pairs a left column index with a right column index.
#[derive(Clone, Debug, PartialEq, Eq)]
pub struct PermutationPair {
    pub column_pairs: Vec<(usize, usize)>,
}

/// The capability record of one concrete STARK: the maximum total degree of
/// any constraint, the optional permutation arguments, and the optional
/// preprocessed column values. Every derived quantity is a pure function of
/// this record and a configuration.
#[derive(Clone, Debug)]
pub struct Stark {
    pub constraint_degree: usize,
    pub permutation_pairs: Vec<PermutationPair>,
    pub fixed_values: Vec<Vec<CrandallField>>,
}

impl Stark {
    /// Every permutation pair references existing trace columns, and the fixed
    /// values match the declared fixed-column count.
    pub open spec fn spec_is_consistent(&self, config: StarkConfig) -> bool {
        &&& forall|p: int, q: int|
            0 <= p < self.permutation_pairs@.len() && 0 <= q
                < self.permutation_pairs@[p].column_pairs@.len() ==> (
            #[trigger] self.permutation_pairs@[p].column_pairs@[q]).0 < config.num_columns
                && self.permutation_pairs@[p].column_pairs@[q].1 < config.num_columns
        &&& self.fixed_values@.len() == config.num_fixed_columns
    }

    /// Assembles a descriptor, rejecting configurations that are internally
    /// inconsistent (out-of-range permutation columns, wrong number of fixed
    /// columns) before any proof work can depend on them.
    pub fn new(
        constraint_degree: usize,
        permutation_pairs: Vec<PermutationPair>,
        fixed_values: Vec<Vec<CrandallField>>,
        config: &StarkConfig,
    ) -> (r: Option<Stark>)
        ensures
            r matches Some(s) ==> s.constraint_degree == constraint_degree
                && s.permutation_pairs == permutation_pairs && s.fixed_values == fixed_values
                && s.spec_is_consistent(*config),
            r is None ==> !(Stark {
                constraint_degree,
                permutation_pairs,
                fixed_values,
            }).spec_is_consistent(*config),
    {
        if fixed_values.len() != config.num_fixed_columns {
            return None;
        }
        let mut p: usize = 0;
        while p < permutation_pairs.len()
            invariant
                p <= permutation_pairs@.len(),
                forall|a: int, q: int|
                    0 <= a < p && 0 <= q < permutation_pairs@[a].column_pairs@.len() ==> (
                    #[trigger] permutation_pairs@[a].column_pairs@[q]).0 < config.num_columns
                        && permutation_pairs@[a].column_pairs@[q].1 < config.num_columns,
            decreases permutation_pairs@.len() - p,
        {
            let pair = &permutation_pairs[p];
            let mut q: usize = 0;
            while q < pair.column_pairs.len()
                invariant
                    q <= pair.column_pairs@.len(),
                    pair == &permutation_pairs@[p as int],
                    p < permutation_pairs@.len(),
                    forall|t: int|
                        0 <= t < q ==> (#[trigger] pair.column_pairs@[t]).0 < config.num_columns
                            && pair.column_pairs@[t].1 < config.num_columns,
                decreases pair.column_pairs@.len() - q,
            {
                let (l, rr) = pair.column_pairs[q];
                if l >= config.num_columns || rr >= config.num_columns {
                    proof {
                        let s = Stark { constraint_degree, permutation_pairs, fixed_values };
                        assert(s.permutation_pairs@[p as int].column_pairs@[q as int]
                            == pair.column_pairs@[q as int]);
                    }
                    return None;
                }
                q += 1;
            }
            p += 1;
        }
        Some(Stark { constraint_degree, permutation_pairs, fixed_values })
    }

    /// The degree blow-up of the quotient: max(1, constraint_degree - 1).
    pub open spec fn spec_quotient_degree_factor(&self) -> int {
        if self.constraint_degree <= 1 {
            1
        } else {
            self.constraint_degree - 1
        }
    }

    pub fn constraint_degree(&self) -> (r: usize)
        ensures
            r == self.constraint_degree,
    {
        self.constraint_degree
    }

    pub fn quotient_degree_factor(&self) -> (r: usize)
        ensures
            r as int == self.spec_quotient_degree_factor(),
    {
        if self.constraint_degree <= 1 {
            1
        } else {
            self.constraint_degree - 1
        }
    }

    pub open spec fn spec_num_quotient_polys(&self, config: StarkConfig) -> int {
        self.spec_quotient_degree_factor() * config.num_challenges
    }

    pub fn num_quotient_polys(&self, config: &StarkConfig) -> (r: usize)
        requires
            self.spec_num_quotient_polys(*config) <= usize::MAX,
        ensures
            r as int == self.spec_num_quotient_polys(*config),
    {
        self.quotient_degree_factor() * config.num_challenges
    }

    pub fn permutation_pairs(&self) -> (r: &Vec<PermutationPair>)
        ensures
            r == &self.permutation_pairs,
    {
        &self.permutation_pairs
    }

    pub fn uses_permutation_args(&self) -> (r: bool)
        ensures
            r == (self.permutation_pairs@.len() > 0),
    {
        self.permutation_pairs.len() > 0
    }

    /// How many permutation instances one auxiliary Z polynomial can carry:
    /// the constraint Z(x) * prod(..) = Z(g x) * prod(..) fills each product
    /// up to the quotient degree.
    pub fn permutation_batch_size(&self) -> (r: usize)
        ensures
            r as int == self.spec_quotient_degree_factor(),
    {
        self.quotient_degree_factor()
    }

    pub open spec fn spec_num_permutation_instances(&self, config: StarkConfig) -> int {
        self.permutation_pairs@.len() * config.num_challenges
    }

    pub fn num_permutation_instances(&self, config: &StarkConfig) -> (r: usize)
        requires
            self.spec_num_permutation_instances(*config) <= usize::MAX,
        ensures
            r as int == self.spec_num_permutation_instances(*config),
    {
        self.permutation_pairs.len() * config.num_challenges
    }

    /// Instances are packed into batches of `permutation_batch_size`, the last
    /// one possibly short: ceil(instances / batch size).
    pub open spec fn spec_num_permutation_batches(&self, config: StarkConfig) -> int {
        let inst = self.spec_num_permutation_instances(config);
        let bs = self.spec_quotient_degree_factor();
        inst / bs + if inst % bs == 0 {
            0int
        } else {
            1int
        }
    }

    pub fn num_permutation_batches(&self, config: &StarkConfig) -> (r: usize)
        requires
            self.spec_num_permutation_instances(*config) <= usize::MAX,
        ensures
            r as int == self.spec_num_permutation_batches(*config),
    {
        let inst = self.num_permutation_instances(config);
        let bs = self.permutation_batch_size();
        proof {
            if bs > 1 {
                vstd::arithmetic::div_mod::lemma_div_is_ordered_by_denominator(
                    inst as int,
                    2,
                    bs as int,
                );
                vstd::arithmetic::div_mod::lemma_div_is_ordered(
                    inst as int,
                    usize::MAX as int,
                    2,
                );
            }
        }
        inst / bs + (if inst % bs == 0 {
            0
        } else {
            1
        })
    }

    pub fn fixed_values(&self) -> (r: &Vec<Vec<CrandallField>>)
        ensures
            r == &self.fixed_values,
    {
        &self.fixed_values
    }

    /// Whether the optional fixed oracle exists.
    pub open spec fn spec_has_fixed_oracle(&self, config: StarkConfig) -> bool {
        config.num_fixed_columns > 0
    }

    /// Whether the optional permutation oracle exists.
    pub open spec fn spec_has_permutation_oracle(&self) -> bool {
        self.permutation_pairs@.len() > 0
    }

    /// Position of the permutation oracle, when it exists: after the trace
    /// oracle and the optional fixed oracle.
    pub open spec fn spec_permutation_oracle_index(&self, config: StarkConfig) -> int {
        1 + if self.spec_has_fixed_oracle(config) {
            1int
        } else {
            0int
        }
    }

    /// Position of the quotient oracle: always last.
    pub open spec fn spec_quotient_oracle_index(&self, config: StarkConfig) -> int {
        self.spec_permutation_oracle_index(config) + if self.spec_has_permutation_oracle() {
            1int
        } else {
            0int
        }
    }

    /// The committed oracles, in commitment order: trace, then fixed and
    /// permutation when present, then quotient; none blinded.
    pub open spec fn spec_fri_oracles(&self, config: StarkConfig) -> Seq<FriOracleInfo> {
        let trace = seq![FriOracleInfo { num_polys: config.num_columns, blinding: false }];
        let fixed = if self.spec_has_fixed_oracle(config) {
            seq![FriOracleInfo { num_polys: config.num_fixed_columns, blinding: false }]
        } else {
            Seq::<FriOracleInfo>::empty()
        };
        let perm = if self.spec_has_permutation_oracle() {
            seq![
                FriOracleInfo {
                    num_polys: self.spec_num_permutation_batches(config) as usize,
                    blinding: false,
                },
            ]
        } else {
            Seq::<FriOracleInfo>::empty()
        };
        let quotient = seq![
            FriOracleInfo { num_polys: self.spec_num_quotient_polys(config) as usize, blinding: false },
        ];
        trace + fixed + perm + quotient
    }

    /// The references opened at the out-of-domain point zeta: every committed
    /// polynomial, oracle by oracle.
    pub open spec fn spec_zeta_polynomials(&self, config: StarkConfig) -> Seq<FriPolynomialInfo> {
        range_polys(0, config.num_columns as int) + (if self.spec_has_fixed_oracle(config) {
            range_polys(1, config.num_fixed_columns as int)
        } else {
            Seq::<FriPolynomialInfo>::empty()
        }) + (if self.spec_has_permutation_oracle() {
            range_polys(
                self.spec_permutation_oracle_index(config),
                self.spec_num_permutation_batches(config),
            )
        } else {
            Seq::<FriPolynomialInfo>::empty()
        }) + range_polys(
            self.spec_quotient_oracle_index(config),
            self.spec_num_quotient_polys(config),
        )
    }

    /// The references opened at the shifted point zeta * g: only trace and
    /// permutation polynomials, since constraints relate a row only to its
    /// successor and never need next-row fixed or quotient values.
    pub open spec fn spec_zeta_next_polynomials(&self, config: StarkConfig) -> Seq<
        FriPolynomialInfo,
    > {
        range_polys(0, config.num_columns as int) + (if self.spec_has_permutation_oracle() {
            range_polys(
                self.spec_permutation_oracle_index(config),
                self.spec_num_permutation_batches(config),
            )
        } else {
            Seq::<FriPolynomialInfo>::empty()
        })
    }

    /// The shared oracle/range bookkeeping of the two instance builders; the
    /// two evaluation points are supplied by the caller.
    fn build_fri_instance<PT>(&self, point0: PT, point1: PT, config: &StarkConfig) -> (r:
        FriInstanceInfo<PT>)
        requires
            self.spec_num_quotient_polys(*config) <= usize::MAX,
            self.spec_num_permutation_instances(*config) <= usize::MAX,
        ensures
            r.oracles@ == self.spec_fri_oracles(*config),
            r.batches@.len() == 2,
            r.batches@[0].point == point0,
            r.batches@[0].polynomials@ == self.spec_zeta_polynomials(*config),
            r.batches@[1].point == point1,
            r.batches@[1].polynomials@ == self.spec_zeta_next_polynomials(*config),
    {
        let mut oracles: Vec<FriOracleInfo> = Vec::new();
        let trace_info = FriPolynomialInfo::from_range(0, config.num_columns);
        oracles.push(FriOracleInfo { num_polys: config.num_columns, blinding: false });

        let fixed_values_info: Vec<FriPolynomialInfo> = if config.num_fixed_columns > 0 {
            oracles.push(FriOracleInfo { num_polys: config.num_fixed_columns, blinding: false });
            FriPolynomialInfo::from_range(1, config.num_fixed_columns)
        } else {
            Vec::new()
        };

        let permutation_zs_info: Vec<FriPolynomialInfo> = if self.uses_permutation_args() {
            let num_z_polys = self.num_permutation_batches(config);
            let polys = FriPolynomialInfo::from_range(oracles.len(), num_z_polys);
            oracles.push(FriOracleInfo { num_polys: num_z_polys, blinding: false });
            polys
        } else {
            Vec::new()
        };

        let num_quotient = self.num_quotient_polys(config);
        let quotient_info = FriPolynomialInfo::from_range(oracles.len(), num_quotient);
        oracles.push(FriOracleInfo { num_polys: num_quotient, blinding: false });
        proof {
            assert(oracles@ =~= self.spec_fri_oracles(*config));
        }

        let mut zeta_polys: Vec<FriPolynomialInfo> = Vec::new();
        extend_refs(&mut zeta_polys, &trace_info);
        extend_refs(&mut zeta_polys, &fixed_values_info);
        extend_refs(&mut zeta_polys, &permutation_zs_info);
        extend_refs(&mut zeta_polys, &quotient_info);
        proof {
            assert(zeta_polys@ =~= self.spec_zeta_polynomials(*config));
        }

        let mut zeta_next_polys: Vec<FriPolynomialInfo> = Vec::new();
        extend_refs(&mut zeta_next_polys, &trace_info);
        extend_refs(&mut zeta_next_polys, &permutation_zs_info);
        proof {
            assert(zeta_next_polys@ =~= self.spec_zeta_next_polynomials(*config));
        }

        let zeta_batch = FriBatchInfo { point: point0, polynomials: zeta_polys };
        let zeta_next_batch = FriBatchInfo { point: point1, polynomials: zeta_next_polys };
        let mut batches: Vec<FriBatchInfo<PT>> = Vec::new();
        batches.push(zeta_batch);
        batches.push(zeta_next_batch);

        FriInstanceInfo { oracles, batches }
    }

    /// The FRI instance proving this STARK: the oracle list and the two
    /// evaluation batches, at zeta and at zeta * g (g is the trace-domain
    /// generator; the product is formed in the field).
    pub fn fri_instance(&self, zeta: CrandallField, g: CrandallField, config: &StarkConfig) -> (r:
        FriInstanceInfo<CrandallField>)
        requires
            self.spec_num_quotient_polys(*config) <= usize::MAX,
            self.spec_num_permutation_instances(*config) <= usize::MAX,
        ensures
            r.oracles@ == self.spec_fri_oracles(*config),
            r.batches@.len() == 2,
            r.batches@[0].point == zeta,
            r.batches@[0].polynomials@ == self.spec_zeta_polynomials(*config),
            residue(r.batches@[1].point.0) == (residue(zeta.0) * residue(g.0)) % (P as int),
            r.batches@[1].polynomials@ == self.spec_zeta_next_polynomials(*config),
    {
        let zeta_next = zeta.mul(g);
        self.build_fri_instance(zeta, zeta_next, config)
    }

    /// The in-circuit form of `fri_instance`: the layout is built by the same
    /// bookkeeping, so it is structurally identical; the evaluation points are
    /// circuit values, and the caller forms zeta * g with a circuit
    /// constant-multiplication gate before calling in.
    pub fn fri_instance_target<PT>(&self, zeta: PT, zeta_times_g: PT, config: &StarkConfig) -> (r:
        FriInstanceInfo<PT>)
        requires
            self.spec_num_quotient_polys(*config) <= usize::MAX,
            self.spec_num_permutation_instances(*config) <= usize::MAX,
        ensures
            r.oracles@ == self.spec_fri_oracles(*config),
            r.batches@.len() == 2,
            r.batches@[0].point == zeta,
            r.batches@[0].polynomials@ == self.spec_zeta_polynomials(*config),
            r.batches@[1].point == zeta_times_g,
            r.batches@[1].polynomials@ == self.spec_zeta_next_polynomials(*config),
    {
        self.build_fri_instance(zeta, zeta_times_g, config)
    }
}

/// Appends a copy of every reference in `src` to `dst`.
fn extend_refs(dst: &mut Vec<FriPolynomialInfo>, src: &Vec<FriPolynomialInfo>)
    ensures
        final (dst)@ == old(dst)@ + src@,
{
    for j in 0..src.len()
        invariant
            dst@ == old(dst)@ + src@.subrange(0, j as int),
    {
        dst.push(src[j]);
        proof {
            assert(old(dst)@ + src@.subrange(0, j as int) + seq![src@[j as int]] =~= old(dst)@
                + src@.subrange(0, j + 1));
        }
    }
    proof {
        assert(src@.subrange(0, src@.len() as int) =~= src@);
    }
}

/// Identically configured direct and in-circuit instances have identical
/// oracle layouts and open identical reference lists in both batches; only
/// how the second evaluation point was computed differs.
pub proof fn lemma_direct_in_circuit_equivalence<P1, P2>(
    s: Stark,
    config: StarkConfig,
    direct: FriInstanceInfo<P1>,
    in_circuit: FriInstanceInfo<P2>,
)
    requires
        direct.oracles@ == s.spec_fri_oracles(config),
        direct.batches@.len() == 2,
        direct.batches@[0].polynomials@ == s.spec_zeta_polynomials(config),
        direct.batches@[1].polynomials@ == s.spec_zeta_next_polynomials(config),
        in_circuit.oracles@ == s.spec_fri_oracles(config),
        in_circuit.batches@.len() == 2,
        in_circuit.batches@[0].polynomials@ == s.spec_zeta_polynomials(config),
        in_circuit.batches@[1].polynomials@ == s.spec_zeta_next_polynomials(config),
    ensures
        direct.oracles@ == in_circuit.oracles@,
        direct.batches@.len() == in_circuit.batches@.len(),
        forall|b: int|
            0 <= b < 2 ==> direct.batches@[b].polynomials@ == in_circuit.batches@[b].polynomials@,
{
}

} // verus!

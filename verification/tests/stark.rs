use stark_core::crandall_field::CrandallField;
use stark_core::fri::{FriInstanceInfo, FriPolynomialInfo};
use stark_core::stark::{PermutationPair, Stark, StarkConfig};

fn config(num_columns: usize, num_fixed_columns: usize, num_challenges: usize) -> StarkConfig {
    StarkConfig { num_columns, num_fixed_columns, num_challenges, rate_bits: 3, cap_height: 4 }
}

fn stark(degree: usize, num_pairs: usize, num_fixed: usize) -> Stark {
    let pairs = (0..num_pairs)
        .map(|i| PermutationPair { column_pairs: vec![(i, i + 1)] })
        .collect();
    Stark {
        constraint_degree: degree,
        permutation_pairs: pairs,
        fixed_values: vec![Vec::new(); num_fixed],
    }
}

fn oracle_sizes<PT>(inst: &FriInstanceInfo<PT>) -> Vec<usize> {
    inst.oracles.iter().map(|o| o.num_polys).collect()
}

fn refs(ranges: &[(usize, usize)]) -> Vec<FriPolynomialInfo> {
    // Flattens (oracle_index, count) range descriptions into per-polynomial
    // references, the form the instance carries.
    let mut out = Vec::new();
    for &(oracle_index, count) in ranges {
        for polynomial_index in 0..count {
            out.push(FriPolynomialInfo { oracle_index, polynomial_index });
        }
    }
    out
}

#[test]
fn test_derived_quantities() {
    let s = stark(3, 1, 0);
    let c = config(4, 0, 2);
    assert_eq!(s.quotient_degree_factor(), 2);
    assert_eq!(s.num_quotient_polys(&c), 4);
    assert_eq!(s.permutation_batch_size(), 2);
    assert_eq!(s.num_permutation_instances(&c), 2);
    assert_eq!(s.num_permutation_batches(&c), 1);
    assert!(s.uses_permutation_args());
    assert_eq!(s.permutation_pairs().len(), 1);
    assert_eq!(s.constraint_degree(), 3);
}

#[test]
fn test_quotient_degree_factor_floor() {
    // max(1, degree - 1): degrees 0 and 1 still get one quotient polynomial.
    assert_eq!(stark(0, 0, 0).quotient_degree_factor(), 1);
    assert_eq!(stark(1, 0, 0).quotient_degree_factor(), 1);
    assert_eq!(stark(2, 0, 0).quotient_degree_factor(), 1);
    assert_eq!(stark(5, 0, 0).quotient_degree_factor(), 4);
}

#[test]
fn test_num_permutation_batches_rounds_up() {
    // 3 pairs * 2 challenges = 6 instances in batches of 4 -> 2 batches.
    let s = stark(5, 3, 0);
    let c = config(8, 0, 2);
    assert_eq!(s.num_permutation_instances(&c), 6);
    assert_eq!(s.num_permutation_batches(&c), 2);
}

#[test]
fn test_end_to_end_example() {
    // columns=4, fixed=0, 1 permutation pair, challenges=2, degree=3.
    let s = stark(3, 1, 0);
    let c = config(4, 0, 2);
    assert_eq!(s.quotient_degree_factor(), 2);
    assert_eq!(s.num_quotient_polys(&c), 4);
    assert_eq!(s.permutation_batch_size(), 2);
    assert_eq!(s.num_permutation_batches(&c), 1);

    let zeta = CrandallField(12345);
    let g = CrandallField(678910);
    let inst = s.fri_instance(zeta, g, &c);
    assert_eq!(oracle_sizes(&inst), vec![4, 1, 4]);
    assert!(inst.oracles.iter().all(|o| !o.blinding));
    assert_eq!(inst.batches.len(), 2);
    assert_eq!(inst.batches[0].point, zeta);
    assert_eq!(inst.batches[0].polynomials, refs(&[(0, 4), (1, 1), (2, 4)]));
    assert_eq!(inst.batches[1].point, zeta.mul(g));
    assert_eq!(inst.batches[1].polynomials, refs(&[(0, 4), (1, 1)]));
}

#[test]
fn test_instance_shape_no_fixed_no_permutation() {
    let s = stark(3, 0, 0);
    let c = config(7, 0, 3);
    let inst = s.fri_instance(CrandallField(1), CrandallField(2), &c);
    assert_eq!(oracle_sizes(&inst), vec![7, 6]);
    assert_eq!(inst.batches[0].polynomials, refs(&[(0, 7), (1, 6)]));
    assert_eq!(inst.batches[1].polynomials, refs(&[(0, 7)]));
}

#[test]
fn test_instance_shape_fixed_no_permutation() {
    let s = stark(4, 0, 5);
    let c = config(7, 5, 3);
    let inst = s.fri_instance(CrandallField(1), CrandallField(2), &c);
    assert_eq!(oracle_sizes(&inst), vec![7, 5, 9]);
    assert_eq!(inst.batches[0].polynomials, refs(&[(0, 7), (1, 5), (2, 9)]));
    assert_eq!(inst.batches[1].polynomials, refs(&[(0, 7)]));
}

#[test]
fn test_instance_shape_fixed_and_permutation() {
    // 2 pairs * 3 challenges = 6 instances in batches of 3 -> 2 batches.
    let s = stark(4, 2, 5);
    let c = config(7, 5, 3);
    let inst = s.fri_instance(CrandallField(1), CrandallField(2), &c);
    assert_eq!(oracle_sizes(&inst), vec![7, 5, 2, 9]);
    assert_eq!(
        inst.batches[0].polynomials,
        refs(&[(0, 7), (1, 5), (2, 2), (3, 9)])
    );
    assert_eq!(inst.batches[1].polynomials, refs(&[(0, 7), (2, 2)]));
}

#[test]
fn test_direct_and_in_circuit_agree() {
    for &(pairs, fixed) in &[(0usize, 0usize), (0, 5), (2, 0), (2, 5)] {
        let s = stark(4, pairs, fixed);
        let c = config(7, fixed, 3);
        let direct = s.fri_instance(CrandallField(99), CrandallField(7), &c);
        // The in-circuit builder carries opaque circuit values as points; the
        // layout must be identical whatever the points are.
        let in_circuit = s.fri_instance_target(1000u64, 1001u64, &c);
        assert_eq!(oracle_sizes(&direct), oracle_sizes(&in_circuit));
        assert_eq!(direct.oracles, in_circuit.oracles);
        assert_eq!(direct.batches.len(), in_circuit.batches.len());
        for (b1, b2) in direct.batches.iter().zip(in_circuit.batches.iter()) {
            assert_eq!(b1.polynomials, b2.polynomials);
        }
        assert_eq!(in_circuit.batches[0].point, 1000u64);
        assert_eq!(in_circuit.batches[1].point, 1001u64);
    }
}

#[test]
fn test_new_rejects_inconsistent_configurations() {
    let c = config(4, 0, 2);
    // In range: accepted.
    let ok = Stark::new(
        3,
        vec![PermutationPair { column_pairs: vec![(0, 3)] }],
        Vec::new(),
        &c,
    );
    assert!(ok.is_some());
    // A permutation pair referencing column 4 of 4: rejected.
    let bad_pair = Stark::new(
        3,
        vec![PermutationPair { column_pairs: vec![(0, 4)] }],
        Vec::new(),
        &c,
    );
    assert!(bad_pair.is_none());
    // Fixed values not matching the declared fixed-column count: rejected.
    let bad_fixed = Stark::new(3, Vec::new(), vec![Vec::new()], &c);
    assert!(bad_fixed.is_none());
    let ok_fixed = Stark::new(
        3,
        Vec::new(),
        vec![vec![CrandallField(1)], vec![CrandallField(2)]],
        &config(4, 2, 2),
    );
    assert!(ok_fixed.is_some());
}

#[test]
fn test_fixed_values_accessor() {
    let s = stark(3, 0, 2);
    assert_eq!(s.fixed_values().len(), 2);
    assert!(!s.uses_permutation_args());
}

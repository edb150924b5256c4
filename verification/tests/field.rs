use stark_core::crandall_field::{CrandallField, EPSILON, P, POWER_OF_TWO_GENERATOR, TWO_ADICITY};

/// A fixed-seed pseudorandom stream for sampling representatives.
struct Lcg(u64);

impl Lcg {
    fn next(&mut self) -> u64 {
        self.0 = self
            .0
            .wrapping_mul(6364136223846793005)
            .wrapping_add(1442695040888963407);
        self.0
    }
}

fn samples() -> Vec<u64> {
    let mut v = vec![0, 1, 2, P - 1, P, P + 1, EPSILON, u64::MAX, u64::MAX - 1];
    let mut lcg = Lcg(0x8badf00d);
    for _ in 0..24 {
        v.push(lcg.next());
    }
    v
}

#[test]
fn test_constants() {
    assert_eq!(P, 18446744071293632513);
    assert_eq!(EPSILON, 9 * (1u64 << 28) - 1);
    assert_eq!(P.wrapping_add(EPSILON), 0);
    assert_eq!(TWO_ADICITY, 28);
}

#[test]
fn test_add_associative_and_identity() {
    let xs = samples();
    for &a in &xs {
        let fa = CrandallField(a);
        assert_eq!(fa.add(CrandallField::zero()), fa);
        for &b in &xs {
            for &c in &[0u64, 1, P - 1, P, u64::MAX] {
                let (fb, fc) = (CrandallField(b), CrandallField(c));
                assert_eq!(fa.add(fb).add(fc), fa.add(fb.add(fc)));
            }
        }
    }
}

#[test]
fn test_add_inverse() {
    for &a in &samples() {
        let fa = CrandallField(a);
        let sum = fa.add(fa.neg());
        assert_eq!(sum.to_canonical_u64(), 0);
    }
}

#[test]
fn test_mul_associative_identity_distributive() {
    let xs = samples();
    for &a in &xs {
        let fa = CrandallField(a);
        assert_eq!(fa.mul(CrandallField::one()), fa);
        for &b in &[1u64, 5, P - 1, P, u64::MAX] {
            for &c in &[0u64, 7, P - 2, u64::MAX - 3] {
                let (fb, fc) = (CrandallField(b), CrandallField(c));
                assert_eq!(fa.mul(fb).mul(fc), fa.mul(fb.mul(fc)));
                assert_eq!(fa.mul(fb.add(fc)), fa.mul(fb).add(fa.mul(fc)));
            }
        }
    }
}

#[test]
fn test_zero_equals_p_regression() {
    // 0 and P denote the same element; equality must reduce first.
    assert_eq!(CrandallField(0), CrandallField(P));
    assert_eq!(CrandallField(P).to_canonical_u64(), 0);
    assert_eq!(CrandallField(1), CrandallField(P.wrapping_add(1)));
}

#[test]
fn test_canonical_round_trip() {
    for &x in &samples() {
        let c = CrandallField(x).to_canonical_u64();
        assert!(c < P);
        assert_eq!(CrandallField::from_canonical_u64(c), CrandallField(x));
        assert_eq!(c, (x as u128 % P as u128) as u64);
    }
}

#[test]
fn test_mul_random_pairs() {
    let mut lcg = Lcg(0xfeedbeef);
    for _ in 0..1000 {
        let a = lcg.next();
        let b = lcg.next();
        let expected = ((a as u128 % P as u128) * (b as u128 % P as u128) % P as u128) as u64;
        let got = CrandallField(a).mul(CrandallField(b)).to_canonical_u64();
        assert_eq!(got, expected, "{} * {}", a, b);
    }
}

#[test]
fn test_sub_matches_add_neg() {
    let xs = samples();
    for &a in &xs {
        for &b in &xs {
            let (fa, fb) = (CrandallField(a), CrandallField(b));
            assert_eq!(fa.sub(fb), fa.add(fb.neg()));
        }
    }
}

#[test]
fn test_sq_cube_exp() {
    for &a in &samples() {
        let fa = CrandallField(a);
        assert_eq!(fa.sq(), fa.mul(fa));
        assert_eq!(fa.cube(), fa.mul(fa).mul(fa));
        assert_eq!(fa.exp(0), CrandallField::one());
        assert_eq!(fa.exp(1), fa);
        assert_eq!(fa.exp(5), fa.sq().sq().mul(fa));
    }
}

#[test]
fn test_try_inverse() {
    // The zero element has no inverse, under any representative.
    assert!(CrandallField(0).try_inverse().is_none());
    assert!(CrandallField(P).try_inverse().is_none());
    for &a in &samples() {
        let fa = CrandallField(a);
        match fa.try_inverse() {
            None => assert_eq!(fa.to_canonical_u64(), 0),
            Some(inv) => assert_eq!(fa.mul(inv), CrandallField::one()),
        }
    }
}

#[test]
fn test_div() {
    let a = CrandallField(123456789123456789);
    let b = CrandallField(987654321987654321);
    let q = a.div(b);
    assert_eq!(q.mul(b), a);
    let mut c = a;
    c.div_assign(b);
    assert_eq!(c, q);
}

#[test]
fn test_assign_ops() {
    let mut x = CrandallField(41);
    x.add_assign(CrandallField::one());
    assert_eq!(x, CrandallField(42));
    x.sub_assign(CrandallField(2));
    assert_eq!(x, CrandallField(40));
    x.mul_assign(CrandallField(3));
    assert_eq!(x, CrandallField(120));
}

#[test]
fn test_neg_one() {
    assert_eq!(CrandallField::neg_one(), CrandallField::one().neg());
    assert_eq!(CrandallField::neg_one().add(CrandallField::one()), CrandallField::zero());
}

#[test]
fn test_primitive_root_orders() {
    let one = CrandallField::one();
    for k in 0..=TWO_ADICITY {
        let root = CrandallField::primitive_root_of_unity(k);
        assert_eq!(root.exp(1u64 << k), one, "k = {}", k);
        if k >= 1 {
            assert_ne!(root.exp(1u64 << (k - 1)), one, "k = {}", k);
        }
    }
    assert_eq!(
        CrandallField::primitive_root_of_unity(TWO_ADICITY),
        CrandallField(POWER_OF_TWO_GENERATOR)
    );
    assert_eq!(CrandallField::primitive_root_of_unity(0), one);
}

#[test]
fn test_cyclic_subgroup_known_order() {
    let g = CrandallField::primitive_root_of_unity(3);
    let order = 8usize;
    let subgroup = CrandallField::cyclic_subgroup_known_order(g, order);
    assert_eq!(subgroup.len(), order);
    // Entries are the successive powers of g ...
    for (i, x) in subgroup.iter().enumerate() {
        assert_eq!(*x, g.exp(i as u64));
        assert_eq!(x.exp(order as u64), CrandallField::one());
    }
    // ... and pairwise distinct, since g has order exactly 8.
    for i in 0..order {
        for j in (i + 1)..order {
            assert_ne!(subgroup[i], subgroup[j]);
        }
    }
    assert_eq!(subgroup[0], CrandallField::one());
}

use barycentric::interpolation::{BaryPolyInterpolator1dRef, InterpError};
use barycentric::rational::Rational;

fn rat(n: i64, d: i64) -> Rational {
    Rational::new(n, d).unwrap()
}

fn rats(pairs: &[(i64, i64)]) -> Vec<Rational> {
    pairs.iter().map(|&(n, d)| rat(n, d)).collect()
}

#[test]
fn exact_reproduction_at_nodes() {
    let nodes = rats(&[(-1, 1), (0, 1), (1, 1)]);
    let ip = BaryPolyInterpolator1dRef::new_generic(nodes.clone()).unwrap();
    let values = rats(&[(2, 1), (5, 1), (7, 1)]);
    let out = ip.evaluate(&values, &nodes).unwrap();
    assert_eq!(out.len(), 3);
    for k in 0..3 {
        assert!(out[k].equals(&values[k]));
    }
}

#[test]
fn reproduction_holds_for_unreduced_node_representations() {
    // The same node coordinate written with a different denominator still
    // short-circuits to the sampled value.
    let nodes = rats(&[(1, 2), (3, 2)]);
    let ip = BaryPolyInterpolator1dRef::new_generic(nodes).unwrap();
    let values = rats(&[(10, 1), (20, 1)]);
    let query = rats(&[(2, 4)]);
    let out = ip.evaluate(&values, &query).unwrap();
    assert!(out[0].equals(&rat(10, 1)));
}

#[test]
fn empty_point_set_gives_empty_result() {
    let ip = BaryPolyInterpolator1dRef::new_generic(rats(&[(0, 1), (1, 1)])).unwrap();
    let values = rats(&[(4, 1), (9, 1)]);
    let out = ip.evaluate(&values, &Vec::new()).unwrap();
    assert_eq!(out.len(), 0);
}

#[test]
fn result_count_and_order_match_the_points() {
    let ip = BaryPolyInterpolator1dRef::new_generic(rats(&[(0, 1), (1, 1), (2, 1)])).unwrap();
    // Sampling f(x) = x^2 at the nodes.
    let values = rats(&[(0, 1), (1, 1), (4, 1)]);
    let points = rats(&[(2, 1), (0, 1), (3, 1), (1, 1)]);
    let out = ip.evaluate(&values, &points).unwrap();
    assert_eq!(out.len(), 4);
    assert!(out[0].equals(&rat(4, 1)));
    assert!(out[1].equals(&rat(0, 1)));
    assert!(out[2].equals(&rat(9, 1)));
    assert!(out[3].equals(&rat(1, 1)));
}

#[test]
fn quadratic_interpolant_is_exact_off_the_nodes() {
    // Three nodes determine a quadratic exactly, so sampling x^2 must give
    // back x^2 everywhere, in exact arithmetic.
    let ip = BaryPolyInterpolator1dRef::new_generic(rats(&[(0, 1), (1, 1), (2, 1)])).unwrap();
    let values = rats(&[(0, 1), (1, 1), (4, 1)]);
    let points = rats(&[(3, 1), (11, 10), (1, 2), (-5, 1)]);
    let out = ip.evaluate(&values, &points).unwrap();
    assert!(out[0].equals(&rat(9, 1)));
    assert!(out[1].equals(&rat(121, 100)));
    assert!(out[2].equals(&rat(1, 4)));
    assert!(out[3].equals(&rat(25, 1)));
}

#[test]
fn constant_values_are_reproduced_everywhere() {
    let ip = BaryPolyInterpolator1dRef::new_generic(rats(&[(0, 1), (1, 1), (2, 1)])).unwrap();
    let values = rats(&[(5, 1), (5, 1), (5, 1)]);
    let points = rats(&[(7, 3), (-4, 1), (1, 1)]);
    let out = ip.evaluate(&values, &points).unwrap();
    for k in 0..out.len() {
        assert!(out[k].equals(&rat(5, 1)));
    }
}

#[test]
fn duplicate_nodes_are_rejected() {
    let r = BaryPolyInterpolator1dRef::new_generic(rats(&[(1, 1), (1, 1)]));
    assert_eq!(r.err().unwrap(), InterpError::DuplicateNodes);
    // Unreduced representations of the same value are duplicates too.
    let r = BaryPolyInterpolator1dRef::new_generic(rats(&[(1, 2), (3, 1), (2, 4)]));
    assert_eq!(r.err().unwrap(), InterpError::DuplicateNodes);
}

#[test]
fn construction_overflow_is_reported() {
    // The difference of these two nodes no longer fits the bounded
    // representation, so the pairwise weight product must report overflow.
    let big: i64 = 3 << 60;
    let nodes = vec![rat(big, 1), rat(-big, 1)];
    let r = BaryPolyInterpolator1dRef::new_generic(nodes);
    assert_eq!(r.err().unwrap(), InterpError::Overflow);
}

#[test]
fn weight_scale_invariance_on_concrete_inputs() {
    let ip = BaryPolyInterpolator1dRef::new_generic(rats(&[(0, 1), (1, 1), (2, 1)])).unwrap();
    let scaled = ip.with_scaled_weights(&rat(7, 3)).unwrap();
    let values = rats(&[(0, 1), (1, 1), (4, 1)]);
    let points = rats(&[(5, 2), (-1, 3)]);
    let a = ip.evaluate(&values, &points).unwrap();
    let b = scaled.evaluate(&values, &points).unwrap();
    assert_eq!(a.len(), b.len());
    for k in 0..a.len() {
        assert!(a[k].equals(&b[k]));
    }
    assert!(a[0].equals(&rat(25, 4)));
}

#[test]
fn generic_weights_match_the_pairwise_difference_formula() {
    let ip = BaryPolyInterpolator1dRef::new_generic(rats(&[(0, 1), (1, 1), (2, 1)])).unwrap();
    assert_eq!(ip.node_count(), 3);
    // w0 = 1/((0-1)(0-2)) = 1/2, w1 = 1/((1-0)(1-2)) = -1, w2 = 1/((2-0)(2-1)) = 1/2
    assert!(ip.weight_at(0).equals(&rat(1, 2)));
    assert!(ip.weight_at(1).equals(&rat(-1, 1)));
    assert!(ip.weight_at(2).equals(&rat(1, 2)));
    assert!(ip.node_at(1).equals(&rat(1, 1)));
}

#[test]
fn rational_constructors_enforce_the_representation() {
    assert!(Rational::new(1, 0).is_none());
    assert!(Rational::new(1, -2).is_none());
    assert!(Rational::new(i64::MAX, 1).is_none());
    assert!(Rational::new(1, i64::MAX).is_none());
    let half = Rational::new(1, 2).unwrap();
    assert_eq!(half.numerator(), 1);
    assert_eq!(half.denominator(), 2);
    assert!(half.equals(&rat(2, 4)));
    assert!(!half.equals(&rat(1, 3)));
    assert!(Rational::from_int(-7).unwrap().equals(&rat(-7, 1)));
}

#[test]
fn rational_arithmetic_is_exact() {
    let a = rat(1, 2);
    let b = rat(1, 3);
    assert!(a.try_add(&b).unwrap().equals(&rat(5, 6)));
    assert!(a.try_sub(&b).unwrap().equals(&rat(1, 6)));
    assert!(a.try_mul(&b).unwrap().equals(&rat(1, 6)));
    assert!(a.try_div(&b).unwrap().equals(&rat(3, 2)));
    assert!(rat(-2, 3).recip().equals(&rat(-3, 2)));
    assert!(Rational::zero().recip().equals(&Rational::zero()));
    // Exact results that leave the bounded range are refused, not wrapped.
    let big = rat((1 << 62) - 1, 1);
    assert!(big.try_mul(&big).is_none());
    assert!(big.try_add(&big).is_none());
}

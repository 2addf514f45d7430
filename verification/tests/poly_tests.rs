use ark_bls12_381::{Fq, Fr, G1Affine, G1Projective};
use ark_ec::{AffineRepr, CurveGroup};
use ark_ff::{BigInt, Field, PrimeField, UniformRand, Zero};
use ark_poly::univariate::{DenseOrSparsePolynomial, DensePolynomial};
use ark_poly::{DenseUVPolynomial, Polynomial};
use ark_std::rand::rngs::StdRng;
use ark_std::rand::SeedableRng;
use kzg_commitments::curve::{Coordinate, G1};
use kzg_commitments::poly_commit::{all_distinct, check_batch, power_of_two, Error};
use kzg_commitments::polynomial::Poly;
use kzg_commitments::scalar::Scalar;
use kzg_commitments::utils::poly::{
    all_separated, eval_poly_over_g1, lagrange_interpolate, vanishing_tree,
};

fn scalar(x: Fr) -> Scalar {
    Scalar::from_limbs(x.into_bigint().0).unwrap()
}

fn fr(x: &Scalar) -> Fr {
    Fr::from_bigint(BigInt::new(x.to_limbs())).unwrap()
}

fn poly(p: &DensePolynomial<Fr>) -> Poly {
    Poly::from_coefficients_vec(p.coeffs.iter().map(|c| scalar(*c)).collect())
}

fn dense(p: &Poly) -> DensePolynomial<Fr> {
    DensePolynomial { coeffs: p.coeffs().iter().map(fr).collect() }
}

fn small(c: &[u64]) -> Poly {
    Poly::from_coefficients_vec(c.iter().map(|x| scalar(Fr::from(*x))).collect())
}

fn coordinate(c: Fq) -> Coordinate {
    Coordinate::from_limbs(c.into_bigint().0).unwrap()
}

fn g1(p: G1Projective) -> G1 {
    let a = p.into_affine();
    if a.infinity {
        G1::identity()
    } else {
        G1::new(coordinate(a.x), coordinate(a.y)).unwrap()
    }
}

fn ark_g1(p: &G1) -> G1Projective {
    if p.is_identity() {
        G1Projective::zero()
    } else {
        G1Affine::new(
            Fq::from_bigint(BigInt::new(p.x().to_limbs())).unwrap(),
            Fq::from_bigint(BigInt::new(p.y().to_limbs())).unwrap(),
        )
        .into_group()
    }
}

#[test]
fn coefficients_are_trimmed() {
    let p = small(&[3, 0, 5, 0, 0]);
    assert_eq!(p.len(), 3);
    assert_eq!(p.degree(), 2);
    assert!(!p.is_zero());
    assert_eq!(p, small(&[3, 0, 5]));
    let z = small(&[0, 0]);
    assert!(z.is_zero());
    assert_eq!(z.len(), 0);
    assert_eq!(z.degree(), 0);
    assert_eq!(z, Poly::zero());
    let c = [Scalar::one(), Scalar::zero()];
    assert_eq!(Poly::from_coefficients_slice(&c), small(&[1]));
}

#[test]
fn evaluation_is_the_value_of_the_polynomial() {
    // 2 + 3 X + 4 X^2 at 5 is 2 + 15 + 100.
    let p = small(&[2, 3, 4]);
    assert_eq!(p.evaluate(&scalar(Fr::from(5u64))), scalar(Fr::from(117u64)));
    assert_eq!(p.evaluate(&Scalar::zero()), scalar(Fr::from(2u64)));
    assert_eq!(Poly::zero().evaluate(&scalar(Fr::from(5u64))), Scalar::zero());

    let mut rng = StdRng::seed_from_u64(1);
    let f = DensePolynomial::<Fr>::rand(16, &mut rng);
    let x = Fr::rand(&mut rng);
    assert_eq!(fr(&poly(&f).evaluate(&scalar(x))), f.evaluate(&x));
}

#[test]
fn sums_differences_and_multiples() {
    let a = small(&[1, 2, 3]);
    let b = small(&[4, 5]);
    assert_eq!(a.add(&b), small(&[5, 7, 3]));
    assert_eq!(a.sub(&b).add(&b), a);
    assert_eq!(a.sub(&a), Poly::zero());
    assert_eq!(a.scale(&scalar(Fr::from(2u64))), small(&[2, 4, 6]));
    assert_eq!(a.scale(&Scalar::zero()), Poly::zero());
    // 1 - 4 wraps around the modulus.
    let minus_three = scalar(-Fr::from(3u64));
    assert_eq!(a.sub(&b).coeffs()[0], minus_three);
    assert_eq!(a.sub(&b).coeffs()[1], minus_three);

    let mut rng = StdRng::seed_from_u64(2);
    let f = DensePolynomial::<Fr>::rand(9, &mut rng);
    let g = DensePolynomial::<Fr>::rand(13, &mut rng);
    let k = Fr::rand(&mut rng);
    assert_eq!(dense(&poly(&f).add(&poly(&g))), &f + &g);
    assert_eq!(dense(&poly(&f).sub(&poly(&g))), &f - &g);
    assert_eq!(dense(&poly(&g).sub(&poly(&f))), &g - &f);
    assert_eq!(dense(&poly(&f).scale(&scalar(k))), &f * k);
}

#[test]
fn products() {
    // (1 + X)(1 - X) = 1 - X^2
    let a = small(&[1, 1]);
    let b = Poly::from_coefficients_vec(vec![Scalar::one(), scalar(-Fr::from(1u64))]);
    let expected = Poly::from_coefficients_vec(vec![
        Scalar::one(),
        Scalar::zero(),
        scalar(-Fr::from(1u64)),
    ]);
    assert_eq!(a.mul(&b), Some(expected));
    assert_eq!(a.mul(&Poly::zero()), Some(Poly::zero()));
    assert_eq!(Poly::zero().mul(&a), Some(Poly::zero()));
    assert_eq!(small(&[2, 3]).mul(&small(&[5, 7, 11])), Some(small(&[10, 29, 43, 33])));

    let mut rng = StdRng::seed_from_u64(3);
    let f = DensePolynomial::<Fr>::rand(9, &mut rng);
    let g = DensePolynomial::<Fr>::rand(13, &mut rng);
    assert_eq!(dense(&poly(&f).mul(&poly(&g)).unwrap()), f.naive_mul(&g));
}

#[test]
fn division_by_a_linear_factor() {
    // X^2 - 1 = (X - 1)(X + 1)
    let f = Poly::from_coefficients_vec(vec![
        scalar(-Fr::from(1u64)),
        Scalar::zero(),
        Scalar::one(),
    ]);
    assert_eq!(f.divide_by_linear(&Scalar::one()), small(&[1, 1]));
    // 2 + 3 X + 4 X^2 = (X - 5)(4 X + 23) + 117
    assert_eq!(small(&[2, 3, 4]).divide_by_linear(&scalar(Fr::from(5u64))), small(&[23, 4]));
    assert_eq!(small(&[7]).divide_by_linear(&scalar(Fr::from(5u64))), Poly::zero());
    assert_eq!(Poly::zero().divide_by_linear(&scalar(Fr::from(5u64))), Poly::zero());

    let mut rng = StdRng::seed_from_u64(4);
    let f = DensePolynomial::<Fr>::rand(16, &mut rng);
    let z = Fr::rand(&mut rng);
    let divisor = DensePolynomial::from_coefficients_slice(&[-z, Fr::ONE]);
    let shifted = &f - &DensePolynomial::from_coefficients_slice(&[f.evaluate(&z)]);
    let (q, r) = DenseOrSparsePolynomial::from(shifted)
        .divide_with_q_and_r(&DenseOrSparsePolynomial::from(divisor.clone()))
        .unwrap();
    assert!(r.is_zero());
    let quotient = poly(&f).divide_by_linear(&scalar(z));
    assert_eq!(dense(&quotient), q);
    // f = q (X - z) + f(z)
    let back = quotient
        .mul(&poly(&divisor))
        .unwrap()
        .add(&Poly::from_coefficients_vec(vec![poly(&f).evaluate(&scalar(z))]));
    assert_eq!(back, poly(&f));
}

#[test]
fn vanishing_polynomial_of_a_batch() {
    let z: Vec<Scalar> = [2u64, 3, 5, 7].iter().map(|x| scalar(Fr::from(*x))).collect();
    let v = vanishing_tree(&z).unwrap();
    // (X - 2)(X - 3)(X - 5)(X - 7) = X^4 - 17 X^3 + 101 X^2 - 247 X + 210
    let expected = Poly::from_coefficients_vec(vec![
        scalar(Fr::from(210u64)),
        scalar(-Fr::from(247u64)),
        scalar(Fr::from(101u64)),
        scalar(-Fr::from(17u64)),
        Scalar::one(),
    ]);
    assert_eq!(v, expected);
    assert_eq!(v.degree(), 4);
    for x in &z {
        assert!(v.evaluate(x).is_zero());
    }
    assert!(!v.evaluate(&scalar(Fr::from(4u64))).is_zero());

    let one = vanishing_tree(&z[..1]).unwrap();
    assert_eq!(one, Poly::from_coefficients_vec(vec![scalar(-Fr::from(2u64)), Scalar::one()]));

    assert_eq!(vanishing_tree(&z[..3]), Err(Error::NonPowerOfTwo));
    assert_eq!(vanishing_tree(&[]), Err(Error::NonPowerOfTwo));

    let mut rng = StdRng::seed_from_u64(5);
    let points: Vec<Fr> = (0..16).map(|_| Fr::rand(&mut rng)).collect();
    let mut product = DensePolynomial::from_coefficients_slice(&[Fr::ONE]);
    for p in &points {
        product = product.naive_mul(&DensePolynomial::from_coefficients_slice(&[-*p, Fr::ONE]));
    }
    let batch: Vec<Scalar> = points.iter().map(|p| scalar(*p)).collect();
    assert_eq!(dense(&vanishing_tree(&batch).unwrap()), product);
}

#[test]
fn interpolation_goes_through_the_points() {
    // 1 + X^2 through (0, 1) and (1, 2) is 1 + X.
    let pairs = [
        (Scalar::zero(), Scalar::one()),
        (Scalar::one(), scalar(Fr::from(2u64))),
    ];
    assert_eq!(lagrange_interpolate(&pairs), Ok(small(&[1, 1])));

    let mut rng = StdRng::seed_from_u64(6);
    let pairs: Vec<(Scalar, Scalar)> =
        (0..8).map(|_| (scalar(Fr::rand(&mut rng)), scalar(Fr::rand(&mut rng)))).collect();
    let p = lagrange_interpolate(&pairs).unwrap();
    assert!(p.len() <= 8);
    for (x, y) in &pairs {
        assert_eq!(p.evaluate(x), *y);
    }

    // A polynomial of degree below the number of points is its own interpolant.
    let f = DensePolynomial::<Fr>::rand(7, &mut rng);
    let graph: Vec<(Scalar, Scalar)> =
        pairs.iter().map(|(x, _)| (*x, poly(&f).evaluate(x))).collect();
    assert_eq!(lagrange_interpolate(&graph), Ok(poly(&f)));

    let single = [(scalar(Fr::from(9u64)), scalar(Fr::from(4u64)))];
    assert_eq!(lagrange_interpolate(&single), Ok(small(&[4])));
}

#[test]
fn interpolation_takes_any_number_of_distinct_points() {
    // Through (0, 0), (1, 1) and (2, 4) goes X^2.
    let pairs = [
        (Scalar::zero(), Scalar::zero()),
        (Scalar::one(), Scalar::one()),
        (scalar(Fr::from(2u64)), scalar(Fr::from(4u64))),
    ];
    assert_eq!(lagrange_interpolate(&pairs), Ok(small(&[0, 0, 1])));

    // No point: the zero polynomial.
    assert_eq!(lagrange_interpolate(&[]), Ok(Poly::zero()));

    let mut rng = StdRng::seed_from_u64(9);
    for n in [3usize, 5, 6, 7, 12] {
        let pairs: Vec<(Scalar, Scalar)> =
            (0..n).map(|_| (scalar(Fr::rand(&mut rng)), scalar(Fr::rand(&mut rng)))).collect();
        let p = lagrange_interpolate(&pairs).unwrap();
        assert!(p.len() <= n);
        for (x, y) in &pairs {
            assert_eq!(p.evaluate(x), *y);
        }
        // A polynomial of degree below the number of points is its own interpolant.
        let f = poly(&DensePolynomial::<Fr>::rand(n - 1, &mut rng));
        let graph: Vec<(Scalar, Scalar)> = pairs.iter().map(|(x, _)| (*x, f.evaluate(x))).collect();
        assert_eq!(lagrange_interpolate(&graph), Ok(f));
    }
}

#[test]
fn interpolation_refuses_repeated_points() {
    let mut rng = StdRng::seed_from_u64(7);
    let mut pairs: Vec<(Scalar, Scalar)> =
        (0..4).map(|_| (scalar(Fr::rand(&mut rng)), scalar(Fr::rand(&mut rng)))).collect();
    pairs[2].0 = pairs[0].0;
    assert_eq!(lagrange_interpolate(&pairs), Err(Error::DuplicatePoint));
    assert_eq!(lagrange_interpolate(&pairs[..3]), Err(Error::DuplicatePoint));
    assert!(lagrange_interpolate(&pairs[..2]).is_ok());
    // The same point twice is refused whatever the values are.
    let twice = [(Scalar::one(), Scalar::one()), (Scalar::one(), Scalar::one())];
    assert_eq!(lagrange_interpolate(&twice), Err(Error::DuplicatePoint));
}

#[test]
fn separation_is_distinctness() {
    let z: Vec<Scalar> = [2u64, 3, 5, 7, 11].iter().map(|x| scalar(Fr::from(*x))).collect();
    assert!(all_separated(&z));
    assert!(all_separated(&z[..1]));
    assert!(all_separated(&[]));
    let twice = [z[0], z[1], z[2], z[1]];
    assert!(!all_separated(&twice));
    assert!(!all_separated(&[z[4], z[4]]));
    let mut rng = StdRng::seed_from_u64(10);
    let many: Vec<Scalar> = (0..16).map(|_| scalar(Fr::rand(&mut rng))).collect();
    assert_eq!(all_separated(&many), all_distinct(&many));
}

#[test]
fn batches_are_checked() {
    for n in [1usize, 2, 4, 8, 1024, 1 << 30] {
        assert!(power_of_two(n));
    }
    for n in [0usize, 3, 5, 6, 7, 12, 1023, (1 << 30) + 1] {
        assert!(!power_of_two(n));
    }
    let z: Vec<Scalar> = [2u64, 3, 5, 7].iter().map(|x| scalar(Fr::from(*x))).collect();
    assert!(all_distinct(&z));
    assert_eq!(check_batch(&z), Ok(()));
    assert_eq!(check_batch(&z[..3]), Err(Error::NonPowerOfTwo));
    let twice = [z[0], z[1], z[2], z[1]];
    assert!(!all_distinct(&twice));
    assert_eq!(check_batch(&twice), Err(Error::DuplicatePoint));
    // The size is looked at before the points.
    assert_eq!(check_batch(&[z[0], z[1], z[1]]), Err(Error::NonPowerOfTwo));
}

#[test]
fn value_in_the_exponent() {
    let mut rng = StdRng::seed_from_u64(8);
    let points: Vec<G1Projective> = (0..9).map(|_| G1Projective::rand(&mut rng)).collect();
    let srs: Vec<G1> = points.iter().map(|p| g1(*p)).collect();
    let f = DensePolynomial::<Fr>::rand(8, &mut rng);
    let expected =
        f.coeffs.iter().zip(points.iter()).fold(G1Projective::zero(), |acc, (c, g)| acc + *g * c);
    assert_eq!(eval_poly_over_g1(&poly(&f), &srs), g1(expected));
    assert_eq!(ark_g1(&eval_poly_over_g1(&poly(&f), &srs)), expected);

    // A shorter polynomial reads the first points only.
    let short = DensePolynomial::<Fr>::rand(3, &mut rng);
    let expected = short
        .coeffs
        .iter()
        .zip(points.iter())
        .fold(G1Projective::zero(), |acc, (c, g)| acc + *g * c);
    assert_eq!(eval_poly_over_g1(&poly(&short), &srs), g1(expected));

    assert_eq!(eval_poly_over_g1(&Poly::zero(), &srs), G1::identity());
    assert!(eval_poly_over_g1(&Poly::zero(), &Vec::new()).is_identity());
    assert_eq!(eval_poly_over_g1(&small(&[1]), &srs), srs[0]);
}

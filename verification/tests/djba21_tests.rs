use ark_bls12_381::{Fq, Fr, G1Affine, G1Projective, G2Projective};
use ark_ec::{AffineRepr, CurveGroup};
use ark_ff::{PrimeField, UniformRand};
use ark_poly::{univariate::DensePolynomial, DenseUVPolynomial, Polynomial};
use ark_std::rand::rngs::StdRng;
use ark_std::rand::{Rng, SeedableRng};
use ark_std::test_rng;
use kzg_commitments::curve::{Coordinate, G1, G2};
use kzg_commitments::djba21::{DJBA21, DJBA21_PK};
use kzg_commitments::poly_commit::{Error, PolyCommit};
use kzg_commitments::polynomial::Poly;
use kzg_commitments::scalar::Scalar;

fn scalar(x: Fr) -> Scalar {
    Scalar::from_limbs(x.into_bigint().0).unwrap()
}

fn fr(x: &Scalar) -> Fr {
    Fr::from_bigint(ark_ff::BigInt::new(x.to_limbs())).unwrap()
}

fn coordinate(c: Fq) -> Coordinate {
    Coordinate::from_limbs(c.into_bigint().0).unwrap()
}

fn g1(p: G1Projective) -> G1 {
    let a = p.into_affine();
    if a.infinity {
        G1::identity()
    } else {
        G1::new(coordinate(a.x), coordinate(a.y)).unwrap()
    }
}

fn g2(p: G2Projective) -> G2 {
    let a = p.into_affine();
    if a.infinity {
        G2::identity()
    } else {
        G2::new((coordinate(a.x.c0), coordinate(a.x.c1)), (coordinate(a.y.c0), coordinate(a.y.c1)))
            .unwrap()
    }
}

fn dense(p: &Poly) -> DensePolynomial<Fr> {
    DensePolynomial::from_coefficients_vec(p.coeffs().iter().map(fr).collect())
}

fn poly_generator(poly_count: usize, poly_deg: usize, rng: &mut impl Rng) -> Vec<Poly> {
    let mut poly = vec![];
    for _ in 0..poly_count {
        let p = DensePolynomial::<Fr>::rand(poly_deg, rng);
        poly.push(Poly::from_coefficients_vec(p.coeffs.iter().map(|c| scalar(*c)).collect()));
    }
    poly
}

fn point_generator(point_count: usize, rng: &mut impl Rng) -> Vec<Scalar> {
    let mut z: Vec<Scalar> = vec![];
    for _ in 0..point_count {
        z.push(scalar(Fr::rand(rng)));
    }
    z
}

fn djba21_helper(poly_count: usize, poly_deg: usize, point_count: usize) -> bool {
    let mut rng = test_rng();

    let poly = poly_generator(poly_count, poly_deg, &mut rng);

    let z = point_generator(point_count, &mut rng);

    let ver_params = (scalar(Fr::rand(&mut rng)), scalar(Fr::rand(&mut rng)));

    let mut djba = DJBA21::new();

    let (pk, _) = djba.setup(poly_deg);

    let c = djba.commit(&pk, &poly).unwrap();

    let v = djba.evaluate(&poly, &z).unwrap();

    let p = djba.open(&pk, &poly, &z, &v, &ver_params).unwrap();

    DJBA21::verify(&c, &pk, &p, &z, &v, &ver_params).unwrap()
}

#[test]
fn djba21_test() {
    let poly_deg_vals = [8, 16];
    let poly_count_vals = [1, 2, 4, 8, 16, 32];

    for &poly_count in &poly_count_vals {
        for &poly_deg in &poly_deg_vals {
            if !djba21_helper(poly_count, poly_deg, poly_count) {
                panic!("params: polys: {}, deg: {}, points: {}", poly_count, poly_deg, poly_count);
            }
        }
    }
}

#[test]
fn djba21_tests_test() {
    let mut rng = test_rng();

    let t = 8;
    let d = 16;
    let max_deg = 128;

    let poly = poly_generator(t, d, &mut rng);
    let poly_ = poly_generator(t, d, &mut rng);

    let z = point_generator(t, &mut rng);
    let z_ = point_generator(t, &mut rng);

    let mut djba = DJBA21::new();

    let (pk, _) = djba.setup(max_deg);
    let pk_ = DJBA21_PK {
        g1: vec![g1(G1Projective::rand(&mut rng)); t],
        g2_one: g2(G2Projective::rand(&mut rng)),
        g2_x: g2(G2Projective::rand(&mut rng)),
    };

    let c = djba.commit(&pk, &poly).unwrap();
    let c_ = djba.commit(&pk, &poly_).unwrap();

    let v = djba.evaluate(&poly, &z).unwrap();
    let v_ = djba.evaluate(&poly_, &z).unwrap();

    let ver_params = (scalar(Fr::rand(&mut rng)), scalar(Fr::rand(&mut rng)));
    let ver_params_ = (scalar(Fr::rand(&mut rng)), scalar(Fr::rand(&mut rng)));

    let p = djba.open(&pk, &poly, &z, &v, &ver_params).unwrap();
    let p_ = djba.open(&pk, &poly, &z_, &v, &ver_params).unwrap();

    let b = DJBA21::verify(&c, &pk, &p, &z, &v, &ver_params);
    assert_eq!(b, Ok(true));

    let b_ = DJBA21::verify(&c_, &pk, &p, &z, &v, &ver_params);
    assert_eq!(b_, Ok(false));

    let b_ = DJBA21::verify(&c, &pk_, &p, &z, &v, &ver_params);
    assert_eq!(b_, Ok(false));

    let b_ = DJBA21::verify(&c, &pk, &p_, &z, &v, &ver_params);
    assert_eq!(b_, Ok(false));

    let b_ = DJBA21::verify(&c, &pk, &p, &z_, &v, &ver_params);
    assert_eq!(b_, Ok(false));

    let b_ = DJBA21::verify(&c, &pk, &p, &z, &v_, &ver_params);
    assert_eq!(b_, Ok(false));

    let b_ = DJBA21::verify(&c, &pk, &p, &z, &v, &ver_params_);
    assert_eq!(b_, Ok(false));
}

#[test]
fn djba21_evaluations_agree_with_the_polynomials_on_the_points() {
    let mut rng = StdRng::seed_from_u64(0);
    let t = 4;
    let poly = poly_generator(t, 16, &mut rng);
    let z = point_generator(t, &mut rng);
    let mut djba = DJBA21::new();
    djba.setup(16);
    let v = djba.evaluate(&poly, &z).unwrap();
    assert_eq!(v.len(), t);
    for i in 0..t {
        assert!(v[i].len() <= t);
        for j in 0..t {
            assert_eq!(v[i].evaluate(&z[j]), poly[i].evaluate(&z[j]));
            assert_eq!(fr(&v[i].evaluate(&z[j])), dense(&poly[i]).evaluate(&fr(&z[j])));
        }
    }
}

#[test]
fn djba21_perturbed_proof_and_challenge_are_rejected() {
    let mut rng = StdRng::seed_from_u64(0);
    let t = 8;
    let poly = poly_generator(t, 16, &mut rng);
    let z = point_generator(t, &mut rng);
    let ver_params = (scalar(Fr::rand(&mut rng)), scalar(Fr::rand(&mut rng)));
    let mut djba = DJBA21::new();
    let (pk, _) = djba.setup(16);
    let c = djba.commit(&pk, &poly).unwrap();
    let v = djba.evaluate(&poly, &z).unwrap();
    let (w, w2) = djba.open(&pk, &poly, &z, &v, &ver_params).unwrap();
    assert_eq!(DJBA21::verify(&c, &pk, &(w, w2), &z, &v, &ver_params), Ok(true));

    let w_ark = G1Affine::new(
        Fq::from_bigint(ark_ff::BigInt::new(w.x().to_limbs())).unwrap(),
        Fq::from_bigint(ark_ff::BigInt::new(w.y().to_limbs())).unwrap(),
    );
    let moved = g1(w_ark + G1Affine::generator());
    assert_eq!(DJBA21::verify(&c, &pk, &(moved, w2), &z, &v, &ver_params), Ok(false));

    let other = (ver_params.0, scalar(fr(&ver_params.1) + Fr::from(1u64)));
    assert_eq!(DJBA21::verify(&c, &pk, &(w, w2), &z, &v, &other), Ok(false));
}

#[test]
fn djba21_refuses_malformed_batches() {
    let mut rng = StdRng::seed_from_u64(0);
    let mut djba = DJBA21::new();
    let (pk, _) = djba.setup(8);
    let ver_params = (scalar(Fr::rand(&mut rng)), scalar(Fr::rand(&mut rng)));

    let poly = poly_generator(3, 8, &mut rng);
    let z = point_generator(3, &mut rng);
    assert_eq!(djba.evaluate(&poly, &z), Err(Error::NonPowerOfTwo));
    assert_eq!(djba.open(&pk, &poly, &z, &poly, &ver_params), Err(Error::NonPowerOfTwo));
    let c = djba.commit(&pk, &poly).unwrap();
    let p = (G1::identity(), G1::identity());
    assert_eq!(DJBA21::verify(&c, &pk, &p, &z, &poly, &ver_params), Err(Error::NonPowerOfTwo));

    let poly = poly_generator(4, 8, &mut rng);
    let mut z = point_generator(4, &mut rng);
    let v = djba.evaluate(&poly, &z).unwrap();
    assert_eq!(djba.open(&pk, &poly[..2], &z, &v, &ver_params), Err(Error::LengthMismatch));
    assert_eq!(djba.open(&pk, &poly, &z, &v[..2], &ver_params), Err(Error::LengthMismatch));
    let c = djba.commit(&pk, &poly).unwrap();
    assert_eq!(
        DJBA21::verify(&c[..2].to_vec(), &pk, &p, &z, &v, &ver_params),
        Err(Error::LengthMismatch)
    );
    z[2] = z[0];
    assert_eq!(djba.evaluate(&poly, &z), Err(Error::DuplicatePoint));
    assert_eq!(djba.open(&pk, &poly, &z, &v, &ver_params), Err(Error::DuplicatePoint));
    assert_eq!(DJBA21::verify(&c, &pk, &p, &z, &v, &ver_params), Err(Error::DuplicatePoint));

    let z = point_generator(4, &mut rng);
    let long = poly_generator(4, 9, &mut rng);
    assert_eq!(djba.commit(&pk, &long), Err(Error::OverDegree));
    assert_eq!(djba.evaluate(&long, &z), Err(Error::OverDegree));
    assert_eq!(djba.open(&pk, &long, &z, &v, &ver_params), Err(Error::OverDegree));
    assert_eq!(djba.open(&pk, &poly, &z, &long, &ver_params), Err(Error::OverDegree));
}

#[test]
fn djba21_proof_of_a_large_batch_is_two_elements() {
    let mut rng = StdRng::seed_from_u64(0);
    let t = 64;
    let poly = poly_generator(t, 64, &mut rng);
    let z = point_generator(t, &mut rng);
    let ver_params = (scalar(Fr::rand(&mut rng)), scalar(Fr::rand(&mut rng)));
    let mut djba = DJBA21::new();
    let (pk, _) = djba.setup(64);
    let c = djba.commit(&pk, &poly).unwrap();
    let v = djba.evaluate(&poly, &z).unwrap();
    let p: (G1, G1) = djba.open(&pk, &poly, &z, &v, &ver_params).unwrap();
    assert_eq!(DJBA21::verify(&c, &pk, &p, &z, &v, &ver_params), Ok(true));
}

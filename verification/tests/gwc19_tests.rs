use ark_bls12_381::{Fq, Fr, G1Projective, G2Projective};
use ark_ec::CurveGroup;
use ark_ff::{PrimeField, UniformRand};
use ark_poly::{univariate::DensePolynomial, DenseUVPolynomial};
use ark_std::rand::Rng;
use ark_std::test_rng;
use kzg_commitments::curve::{Coordinate, G1, G2};
use kzg_commitments::gwc19::{GWC19, GWC_PK};
use kzg_commitments::poly_commit::{Error, PolyCommit};
use kzg_commitments::polynomial::Poly;
use kzg_commitments::scalar::Scalar;

fn scalar(x: Fr) -> Scalar {
    Scalar::from_limbs(x.into_bigint().0).unwrap()
}

fn coordinate(c: Fq) -> Coordinate {
    Coordinate::from_limbs(c.into_bigint().0).unwrap()
}

fn g1(p: G1Projective) -> G1 {
    let a = p.into_affine();
    if a.infinity {
        G1::identity()
    } else {
        G1::new(coordinate(a.x), coordinate(a.y)).unwrap()
    }
}

fn g2(p: G2Projective) -> G2 {
    let a = p.into_affine();
    if a.infinity {
        G2::identity()
    } else {
        G2::new((coordinate(a.x.c0), coordinate(a.x.c1)), (coordinate(a.y.c0), coordinate(a.y.c1)))
            .unwrap()
    }
}

fn poly_generator(poly_count: usize, poly_deg: usize, rng: &mut impl Rng) -> Vec<Poly> {
    let mut poly = vec![];
    for _ in 0..poly_count {
        let p = DensePolynomial::<Fr>::rand(poly_deg, rng);
        poly.push(Poly::from_coefficients_vec(p.coeffs.iter().map(|c| scalar(*c)).collect()));
    }
    poly
}

fn point_generator(point_count: usize, rng: &mut impl Rng) -> Vec<Scalar> {
    let mut z: Vec<Scalar> = vec![];
    for _ in 0..point_count {
        z.push(scalar(Fr::rand(rng)));
    }
    z
}

fn gwc19_helper(poly_count: usize, poly_deg: usize, point_count: usize) -> bool {
    let mut rng = test_rng();

    let poly = poly_generator(poly_count, poly_deg, &mut rng);

    let z = point_generator(point_count, &mut rng);

    let ver_params = point_generator(poly_count, &mut rng);

    let mut kzg = GWC19::new();

    let (pk, _) = kzg.setup(poly_deg);

    let c = kzg.commit(&pk, &poly).unwrap();

    let v = kzg.evaluate(&poly, &z).unwrap();

    let p = kzg.open(&pk, &poly, &z, &v, &ver_params).unwrap();

    GWC19::verify(&c, &pk, &p, &z, &v, &ver_params).unwrap()
}

#[test]
fn gwc19_test() {
    let poly_deg_vals = [8, 16];
    let poly_count_vals = [1, 2, 4, 8, 16, 32];

    for &poly_count in &poly_count_vals {
        for &poly_deg in &poly_deg_vals {
            if !gwc19_helper(poly_count, poly_deg, poly_count) {
                panic!("params: polys: {}, deg: {}, points: {}", poly_count, poly_deg, poly_count);
            }
        }
    }
}

#[test]
fn basic_gwc19_test() {
    let mut rng = test_rng();

    let t = 8;
    let d = t;
    let max_deg = 128;

    let poly = poly_generator(t, d, &mut rng);
    let poly_ = poly_generator(t, d, &mut rng);

    let z = point_generator(t, &mut rng);
    let z_ = point_generator(t, &mut rng);

    let ver_params = point_generator(t, &mut rng);
    let ver_params_ = point_generator(t, &mut rng);

    let mut kzg = GWC19::new();

    let (pk, _) = kzg.setup(max_deg);
    let pk_ = GWC_PK {
        g1_vec: vec![g1(G1Projective::rand(&mut rng)); t],
        g2_1: g2(G2Projective::rand(&mut rng)),
        g2_x: g2(G2Projective::rand(&mut rng)),
    };

    let c = kzg.commit(&pk, &poly).unwrap();
    let c_ = kzg.commit(&pk, &poly_).unwrap();

    let v = kzg.evaluate(&poly, &z).unwrap();
    let v_ = kzg.evaluate(&poly_, &z).unwrap();

    let p = kzg.open(&pk, &poly, &z, &v, &ver_params).unwrap();
    let p_ = kzg.open(&pk, &poly, &z_, &v, &ver_params).unwrap();

    let mut b;

    b = GWC19::verify(&c, &pk, &p, &z, &v, &ver_params);
    assert_eq!(b, Ok(true));

    b = GWC19::verify(&c_, &pk, &p, &z, &v, &ver_params);
    assert_eq!(b, Ok(false));

    b = GWC19::verify(&c, &pk_, &p, &z, &v, &ver_params);
    assert_eq!(b, Ok(false));

    b = GWC19::verify(&c, &pk, &p_, &z, &v, &ver_params);
    assert_eq!(b, Ok(false));

    b = GWC19::verify(&c, &pk, &p, &z_, &v, &ver_params);
    assert_eq!(b, Ok(false));

    b = GWC19::verify(&c, &pk, &p, &z, &v_, &ver_params);
    assert_eq!(b, Ok(false));

    b = GWC19::verify(&c, &pk, &p, &z, &v, &ver_params_);
    assert_eq!(b, Ok(false));
}

#[test]
fn gwc19_swapped_proof_elements_are_rejected() {
    let mut rng = test_rng();
    let t = 8;
    let poly = poly_generator(t, 16, &mut rng);
    let z = point_generator(t, &mut rng);
    let gamma = point_generator(t, &mut rng);
    let mut gwc = GWC19::new();
    let (pk, _) = gwc.setup(16);
    let c = gwc.commit(&pk, &poly).unwrap();
    let v = gwc.evaluate(&poly, &z).unwrap();
    let mut p = gwc.open(&pk, &poly, &z, &v, &gamma).unwrap();
    assert_eq!(p.len(), t);
    assert_eq!(GWC19::verify(&c, &pk, &p, &z, &v, &gamma), Ok(true));
    p.swap(0, 1);
    assert_eq!(GWC19::verify(&c, &pk, &p, &z, &v, &gamma), Ok(false));
}

#[test]
fn gwc19_accepts_under_chosen_weights() {
    let mut rng = test_rng();
    let t = 4;
    let poly = poly_generator(t, 8, &mut rng);
    let z = point_generator(t, &mut rng);
    let gamma = point_generator(t, &mut rng);
    let r = point_generator(t, &mut rng);
    let mut gwc = GWC19::new();
    let (pk, _) = gwc.setup(8);
    let c = gwc.commit(&pk, &poly).unwrap();
    let mut v = gwc.evaluate(&poly, &z).unwrap();
    let p = gwc.open(&pk, &poly, &z, &v, &gamma).unwrap();
    assert_eq!(GWC19::verify_with_weights(&c, &pk, &p, &z, &v, &gamma, &r), Ok(true));
    assert_eq!(
        GWC19::verify_with_weights(&c, &pk, &p, &z, &v, &gamma, &r[..3]),
        Err(Error::LengthMismatch)
    );
    v[1][2] = scalar(Fr::from(7u64));
    assert_eq!(GWC19::verify_with_weights(&c, &pk, &p, &z, &v, &gamma, &r), Ok(false));
}

#[test]
fn gwc19_refuses_malformed_batches() {
    let mut rng = test_rng();
    let mut gwc = GWC19::new();
    let (pk, _) = gwc.setup(8);
    let poly = poly_generator(3, 8, &mut rng);
    let z = point_generator(3, &mut rng);
    let gamma = point_generator(3, &mut rng);
    let v = gwc.evaluate(&poly, &z).unwrap();
    assert_eq!(gwc.open(&pk, &poly, &z, &v, &gamma), Err(Error::NonPowerOfTwo));
    let c = gwc.commit(&pk, &poly).unwrap();
    let p = vec![G1::identity(); 3];
    assert_eq!(GWC19::verify(&c, &pk, &p, &z, &v, &gamma), Err(Error::NonPowerOfTwo));

    let poly = poly_generator(4, 8, &mut rng);
    let mut z = point_generator(4, &mut rng);
    let gamma = point_generator(4, &mut rng);
    let v = gwc.evaluate(&poly, &z).unwrap();
    assert_eq!(gwc.open(&pk, &poly, &z, &v, &gamma[..2].to_vec()), Err(Error::LengthMismatch));
    assert_eq!(gwc.open(&pk, &poly[..2], &z, &v, &gamma), Err(Error::LengthMismatch));
    assert_eq!(gwc.open(&pk, &poly, &z, &v[..2], &gamma), Err(Error::LengthMismatch));
    let mut short_row = gwc.evaluate(&poly, &z).unwrap();
    short_row[3].pop();
    assert_eq!(gwc.open(&pk, &poly, &z, &short_row, &gamma), Err(Error::LengthMismatch));
    // The shape of the values is looked at before the points are.
    let three = point_generator(3, &mut rng);
    assert_eq!(
        gwc.open(&pk, &poly[..3], &three, &v, &gamma[..3].to_vec()),
        Err(Error::LengthMismatch)
    );
    z[3] = z[1];
    assert_eq!(gwc.open(&pk, &poly, &z, &v, &gamma), Err(Error::DuplicatePoint));

    let z = point_generator(4, &mut rng);
    let long = poly_generator(4, 9, &mut rng);
    assert_eq!(gwc.commit(&pk, &long), Err(Error::OverDegree));
    assert_eq!(gwc.evaluate(&long, &z), Err(Error::OverDegree));
    assert_eq!(gwc.open(&pk, &long, &z, &v, &gamma), Err(Error::OverDegree));
}

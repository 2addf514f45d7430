use ark_bls12_381::{Fq, Fr, G1Projective, G2Projective};
use ark_ec::CurveGroup;
use ark_ff::{PrimeField, UniformRand};
use ark_poly::{univariate::DensePolynomial, DenseUVPolynomial};
use ark_std::rand::Rng;
use ark_std::test_rng;
use kzg_commitments::curve::{Coordinate, G1, G2};
use kzg_commitments::kzg10::{KZG10, KZG_PK};
use kzg_commitments::poly_commit::{Error, PolyCommit};
use kzg_commitments::polynomial::Poly;
use kzg_commitments::scalar::Scalar;

fn scalar(x: Fr) -> Scalar {
    Scalar::from_limbs(x.into_bigint().0).unwrap()
}

fn coordinate(c: Fq) -> Coordinate {
    Coordinate::from_limbs(c.into_bigint().0).unwrap()
}

fn g1(p: G1Projective) -> G1 {
    let a = p.into_affine();
    if a.infinity {
        G1::identity()
    } else {
        G1::new(coordinate(a.x), coordinate(a.y)).unwrap()
    }
}

fn g2(p: G2Projective) -> G2 {
    let a = p.into_affine();
    if a.infinity {
        G2::identity()
    } else {
        G2::new((coordinate(a.x.c0), coordinate(a.x.c1)), (coordinate(a.y.c0), coordinate(a.y.c1)))
            .unwrap()
    }
}

fn poly_generator(poly_count: usize, poly_deg: usize, rng: &mut impl Rng) -> Vec<Poly> {
    let mut poly = vec![];
    for _ in 0..poly_count {
        let p = DensePolynomial::<Fr>::rand(poly_deg, rng);
        poly.push(Poly::from_coefficients_vec(p.coeffs.iter().map(|c| scalar(*c)).collect()));
    }
    poly
}

fn point_generator(point_count: usize, rng: &mut impl Rng) -> Vec<Scalar> {
    let mut z: Vec<Scalar> = vec![];
    for _ in 0..point_count {
        z.push(scalar(Fr::rand(rng)));
    }
    z
}

fn kzg10_helper(poly_count: usize, poly_deg: usize, point_count: usize) -> Result<bool, Error> {
    let mut rng = test_rng();

    let poly = poly_generator(poly_count, poly_deg, &mut rng);

    let z = point_generator(point_count, &mut rng);

    let mut kzg = KZG10::new();

    let (pk, _) = kzg.setup(poly_deg);

    let c = kzg.commit(&pk, &poly)?;

    let v = kzg.evaluate(&poly, &z)?;

    let p = kzg.open(&pk, &poly, &z, &v, &())?;

    KZG10::verify(&c, &pk, &p, &z, &v, &())
}

#[test]
fn kzg10_test() {
    let poly_deg_vals = [8, 16];
    let poly_count_vals = [1, 2, 4, 8];
    let point_count_vals = [1, 2, 4, 8];

    for &poly_count in &poly_count_vals {
        for &poly_deg in &poly_deg_vals {
            for &point_count in &point_count_vals {
                let outcome = kzg10_helper(poly_count, poly_deg, point_count);
                // A batch has as many points as polynomials; other shapes are refused.
                let expected =
                    if poly_count == point_count { Ok(true) } else { Err(Error::LengthMismatch) };
                if outcome != expected {
                    println!(
                        "params: polys: {}, deg: {}, points: {}",
                        poly_count, poly_deg, point_count
                    );
                }
                assert_eq!(outcome, expected);
            }
        }
    }
}

#[test]
fn kzg10_tests_test() {
    let mut rng = test_rng();

    let t = 10;
    let d = 10;
    let max_deg = 128;

    let poly = poly_generator(t, d, &mut rng);
    let poly_ = poly_generator(t, d, &mut rng);

    let z = point_generator(t, &mut rng);
    let z_ = point_generator(t, &mut rng);

    let mut kzg = KZG10::new();

    let (pk, _) = kzg.setup(max_deg);
    let pk_ = KZG_PK {
        g1_vec: vec![g1(G1Projective::rand(&mut rng)); t],
        g2_1: g2(G2Projective::rand(&mut rng)),
        g2_x: g2(G2Projective::rand(&mut rng)),
    };

    let c = kzg.commit(&pk, &poly).unwrap();
    let c_ = kzg.commit(&pk, &poly_).unwrap();

    let v = kzg.evaluate(&poly, &z).unwrap();
    let v_ = kzg.evaluate(&poly_, &z).unwrap();

    // Ten is not a power of two: no proof is made for such a batch, and none is checked.
    assert_eq!(kzg.open(&pk, &poly, &z, &v, &()), Err(Error::NonPowerOfTwo));
    assert_eq!(kzg.open(&pk, &poly, &z_, &v, &()), Err(Error::NonPowerOfTwo));
    let p = vec![vec![G1::identity(); t]; t];

    let b = KZG10::verify(&c, &pk, &p, &z, &v, &());
    assert_eq!(b, Err(Error::NonPowerOfTwo));

    let b_ = KZG10::verify(&c_, &pk, &p, &z, &v, &());
    assert_eq!(b_, Err(Error::NonPowerOfTwo));

    let b_ = KZG10::verify(&c, &pk_, &p, &z, &v, &());
    assert_eq!(b_, Err(Error::NonPowerOfTwo));

    let b_ = KZG10::verify(&c, &pk, &p, &z_, &v, &());
    assert_eq!(b_, Err(Error::NonPowerOfTwo));

    let b_ = KZG10::verify(&c, &pk, &p, &z, &v_, &());
    assert_eq!(b_, Err(Error::NonPowerOfTwo));
}

#[test]
fn ksg10test_test() {
    let mut rng = test_rng();
    rng.gen::<i32>();

    let t = 8;

    let poly = poly_generator(t, 16, &mut rng);
    let poly_ = poly_generator(t, 16, &mut rng);

    let z = point_generator(t, &mut rng);
    let z_ = point_generator(t, &mut rng);

    let mut kzg = KZG10::new();

    let (pk, _) = kzg.setup(128);

    let c = kzg.commit(&pk, &poly).unwrap();
    let c_ = kzg.commit(&pk, &poly_).unwrap();

    let v = kzg.evaluate(&poly, &z).unwrap();

    let p = kzg.open(&pk, &poly, &z, &v, &()).unwrap();

    let b = KZG10::verify(&c, &pk, &p, &z, &v, &());
    assert_eq!(b, Ok(true));

    let b_ = KZG10::verify(&c_, &pk, &p, &z, &v, &());
    assert_eq!(b_, Ok(false));

    let b_ = KZG10::verify(&c, &pk, &p, &z_, &v, &());
    assert_eq!(b_, Ok(false));
}

#[test]
fn kzg10_rejects_every_tampered_input() {
    let mut rng = test_rng();

    let t = 8;
    let d = 10;
    let max_deg = 128;

    let poly = poly_generator(t, d, &mut rng);
    let poly_ = poly_generator(t, d, &mut rng);

    let z = point_generator(t, &mut rng);
    let z_ = point_generator(t, &mut rng);

    let mut kzg = KZG10::new();

    let (pk, _) = kzg.setup(max_deg);
    let pk_ = KZG_PK {
        g1_vec: vec![g1(G1Projective::rand(&mut rng)); t],
        g2_1: g2(G2Projective::rand(&mut rng)),
        g2_x: g2(G2Projective::rand(&mut rng)),
    };

    let c = kzg.commit(&pk, &poly).unwrap();
    let c_ = kzg.commit(&pk, &poly_).unwrap();

    let v = kzg.evaluate(&poly, &z).unwrap();
    let v_ = kzg.evaluate(&poly_, &z).unwrap();

    let p = kzg.open(&pk, &poly, &z, &v, &()).unwrap();
    let p_ = kzg.open(&pk, &poly, &z_, &v, &()).unwrap();

    assert_eq!(KZG10::verify(&c, &pk, &p, &z, &v, &()), Ok(true));
    assert_eq!(KZG10::verify(&c_, &pk, &p, &z, &v, &()), Ok(false));
    assert_eq!(KZG10::verify(&c, &pk_, &p, &z, &v, &()), Ok(false));
    assert_eq!(KZG10::verify(&c, &pk, &p_, &z, &v, &()), Ok(false));
    assert_eq!(KZG10::verify(&c, &pk, &p, &z_, &v, &()), Ok(false));
    assert_eq!(KZG10::verify(&c, &pk, &p, &z, &v_, &()), Ok(false));
}

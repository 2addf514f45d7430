use ark_bls12_381::{Bls12_381, Fq, Fq2, Fr, G1Affine, G1Projective, G2Affine, G2Projective};
use ark_ec::pairing::Pairing;
use ark_ec::{AffineRepr, CurveGroup};
use ark_ff::{BigInt, Field, PrimeField, UniformRand, Zero};
use ark_poly::univariate::DensePolynomial;
use ark_poly::DenseUVPolynomial;
use ark_std::rand::rngs::StdRng;
use ark_std::rand::{Rng, SeedableRng};
use kzg_commitments::curve::{Coordinate, G1, G2};
use kzg_commitments::djba21::DJBA21;
use kzg_commitments::gwc19::GWC19;
use kzg_commitments::kzg10::{evaluate_batch, KZG10, KZG_PK};
use kzg_commitments::poly_commit::{commit_batch, derive_srs, Error, PolyCommit};
use kzg_commitments::polynomial::Poly;
use kzg_commitments::scalar::Scalar;

fn scalar(x: Fr) -> Scalar {
    Scalar::from_limbs(x.into_bigint().0).unwrap()
}

fn fr(x: &Scalar) -> Fr {
    Fr::from_bigint(BigInt::new(x.to_limbs())).unwrap()
}

fn fq(c: &Coordinate) -> Fq {
    Fq::from_bigint(BigInt::new(c.to_limbs())).unwrap()
}

fn poly(p: &DensePolynomial<Fr>) -> Poly {
    Poly::from_coefficients_vec(p.coeffs.iter().map(|c| scalar(*c)).collect())
}

fn coordinate(c: Fq) -> Coordinate {
    Coordinate::from_limbs(c.into_bigint().0).unwrap()
}

fn g1(p: G1Projective) -> G1 {
    let a = p.into_affine();
    if a.infinity {
        G1::identity()
    } else {
        G1::new(coordinate(a.x), coordinate(a.y)).unwrap()
    }
}

fn g2(p: G2Projective) -> G2 {
    let a = p.into_affine();
    if a.infinity {
        G2::identity()
    } else {
        G2::new((coordinate(a.x.c0), coordinate(a.x.c1)), (coordinate(a.y.c0), coordinate(a.y.c1)))
            .unwrap()
    }
}

fn ark_g1(p: &G1) -> G1Projective {
    if p.is_identity() {
        G1Projective::zero()
    } else {
        G1Affine::new(fq(&p.x()), fq(&p.y())).into_group()
    }
}

fn ark_g2(p: &G2) -> G2Projective {
    if p.is_identity() {
        G2Projective::zero()
    } else {
        let (x, y) = (p.x(), p.y());
        G2Affine::new(Fq2::new(fq(&x.0), fq(&x.1)), Fq2::new(fq(&y.0), fq(&y.1))).into_group()
    }
}

fn poly_generator(poly_count: usize, poly_deg: usize, rng: &mut impl Rng) -> Vec<Poly> {
    (0..poly_count).map(|_| poly(&DensePolynomial::<Fr>::rand(poly_deg, rng))).collect()
}

fn point_generator(point_count: usize, rng: &mut impl Rng) -> Vec<Scalar> {
    (0..point_count).map(|_| scalar(Fr::rand(rng))).collect()
}

#[test]
fn setup_hands_out_the_powers_of_the_secret() {
    let mut kzg = KZG10::new();
    let (pk, sk) = kzg.setup(16);
    assert_eq!(pk.g1_vec.len(), 17);
    let g = ark_g1(&pk.g1_vec[0]);
    let alpha = fr(&sk);
    for i in 0..17 {
        assert_eq!(ark_g1(&pk.g1_vec[i]), g * alpha.pow([i as u64]));
    }
    assert_eq!(ark_g2(&pk.g2_x), ark_g2(&pk.g2_1) * alpha);
    assert!(!pk.g1_vec[0].is_identity());
    assert!(!pk.g2_1.is_identity());

    let mut gwc = GWC19::new();
    let (pk, sk) = gwc.setup(4);
    assert_eq!(pk.g1_vec.len(), 5);
    assert_eq!(ark_g1(&pk.g1_vec[4]), ark_g1(&pk.g1_vec[0]) * fr(&sk).pow([4u64]));
    assert_eq!(ark_g2(&pk.g2_x), ark_g2(&pk.g2_1) * fr(&sk));

    let mut djba = DJBA21::new();
    let (pk, sk) = djba.setup(0);
    assert_eq!(pk.g1.len(), 1);
    assert_eq!(ark_g2(&pk.g2_x), ark_g2(&pk.g2_one) * fr(&sk));
}

#[test]
fn reference_string_of_a_known_secret() {
    let g = G1Affine::generator().into_group();
    let h = G2Affine::generator().into_group();
    let (powers, ah) = derive_srs(&g1(g), &g2(h), &scalar(Fr::from(3u64)), 3);
    assert_eq!(powers.len(), 4);
    assert_eq!(powers[0], g1(g));
    assert_eq!(powers[1], g1(g * Fr::from(3u64)));
    assert_eq!(powers[2], g1(g * Fr::from(9u64)));
    assert_eq!(powers[3], g1(g * Fr::from(27u64)));
    assert_eq!(ah, g2(h * Fr::from(3u64)));

    let pk = KZG10::public_key(&g1(g), &g2(h), &scalar(Fr::from(3u64)), 1);
    assert_eq!(pk.g1_vec, vec![g1(g), g1(g * Fr::from(3u64))]);
    assert_eq!(pk.g2_1, g2(h));
    assert_eq!(pk.g2_x, g2(h * Fr::from(3u64)));
}

#[test]
fn commitment_is_the_polynomial_at_the_secret() {
    let mut rng = StdRng::seed_from_u64(0);
    let mut kzg = KZG10::new();
    let (pk, sk) = kzg.setup(16);
    let polys = poly_generator(2, 16, &mut rng);
    let c = kzg.commit(&pk, &polys).unwrap();
    assert_eq!(c.len(), 2);
    for i in 0..2 {
        let at_secret = fr(&polys[i].evaluate(&sk));
        assert_eq!(ark_g1(&c[i]), ark_g1(&pk.g1_vec[0]) * at_secret);
    }
    assert_eq!(commit_batch(&polys, &pk.g1_vec, 16), Ok(c));
    assert_eq!(commit_batch(&polys, &pk.g1_vec, 15), Err(Error::OverDegree));
    assert_eq!(commit_batch(&polys, &pk.g1_vec[..16].to_vec(), 16), Err(Error::OverDegree));
    assert_eq!(kzg.commit(&pk, &[]), Ok(vec![]));
}

#[test]
fn commitments_are_additive() {
    let mut rng = StdRng::seed_from_u64(0);
    let mut kzg = KZG10::new();
    let (pk, _) = kzg.setup(16);
    let f = DensePolynomial::<Fr>::rand(16, &mut rng);
    let g = DensePolynomial::<Fr>::rand(12, &mut rng);
    let a = Fr::rand(&mut rng);
    let b = Fr::rand(&mut rng);
    let combined = &(&f * a) + &(&g * b);
    let c = kzg.commit(&pk, &[poly(&combined), poly(&f), poly(&g)]).unwrap();
    assert_eq!(ark_g1(&c[0]), ark_g1(&c[1]) * a + ark_g1(&c[2]) * b);
    let in_library = poly(&f).scale(&scalar(a)).add(&poly(&g).scale(&scalar(b)));
    assert_eq!(kzg.commit(&pk, &[in_library]).unwrap()[0], c[0]);
}

#[test]
fn the_prover_is_deterministic() {
    let mut rng = StdRng::seed_from_u64(0);
    let polys = poly_generator(4, 8, &mut rng);
    let z = point_generator(4, &mut rng);
    let gamma = point_generator(4, &mut rng);
    let challenge = (scalar(Fr::rand(&mut rng)), scalar(Fr::rand(&mut rng)));

    let mut kzg = KZG10::new();
    let (pk, _) = kzg.setup(8);
    assert_eq!(kzg.commit(&pk, &polys), kzg.commit(&pk, &polys));
    let v = kzg.evaluate(&polys, &z).unwrap();
    assert_eq!(Ok(&v), kzg.evaluate(&polys, &z).as_ref());
    assert_eq!(kzg.open(&pk, &polys, &z, &v, &()), kzg.open(&pk, &polys, &z, &v, &()));

    let mut gwc = GWC19::new();
    let (pk, _) = gwc.setup(8);
    assert_eq!(gwc.commit(&pk, &polys), gwc.commit(&pk, &polys));
    assert_eq!(gwc.evaluate(&polys, &z), Ok(v));
    let v = gwc.evaluate(&polys, &z).unwrap();
    assert_eq!(gwc.open(&pk, &polys, &z, &v, &gamma), gwc.open(&pk, &polys, &z, &v, &gamma));

    let mut djba = DJBA21::new();
    let (pk, _) = djba.setup(8);
    assert_eq!(djba.commit(&pk, &polys), djba.commit(&pk, &polys));
    let v = djba.evaluate(&polys, &z).unwrap();
    assert_eq!(Ok(&v), djba.evaluate(&polys, &z).as_ref());
    assert_eq!(
        djba.open(&pk, &polys, &z, &v, &challenge),
        djba.open(&pk, &polys, &z, &v, &challenge)
    );
}

#[test]
fn evaluations_are_the_values_on_the_points() {
    let mut rng = StdRng::seed_from_u64(0);
    let polys = poly_generator(3, 8, &mut rng);
    let z = point_generator(5, &mut rng);
    let mut kzg = KZG10::new();
    kzg.setup(8);
    let v = kzg.evaluate(&polys, &z).unwrap();
    assert_eq!(v.len(), 3);
    for i in 0..3 {
        assert_eq!(v[i].len(), 5);
        for j in 0..5 {
            assert_eq!(v[i][j], polys[i].evaluate(&z[j]));
        }
    }
    assert_eq!(evaluate_batch(&polys, &z), v);
    assert_eq!(kzg.evaluate(&[], &z), Ok(vec![]));
    assert_eq!(kzg.evaluate(&polys, &[]), Ok(vec![vec![], vec![], vec![]]));
    assert_eq!(KZG10::new().evaluate(&polys, &z), Err(Error::OverDegree));
}

#[test]
fn kzg10_single_opening_at_one() {
    let mut rng = StdRng::seed_from_u64(0);
    let mut kzg = KZG10::new();
    let (pk, _) = kzg.setup(16);
    let f = DensePolynomial::<Fr>::rand(16, &mut rng);
    let polys = vec![poly(&f)];
    let z = vec![Scalar::one()];
    let c = kzg.commit(&pk, &polys).unwrap();
    let v = kzg.evaluate(&polys, &z).unwrap();
    let p = kzg.open(&pk, &polys, &z, &v, &()).unwrap();
    assert_eq!(KZG10::verify(&c, &pk, &p, &z, &v, &()), Ok(true));

    let mut flipped = f.clone();
    flipped.coeffs[5] = -flipped.coeffs[5];
    let other = vec![poly(&flipped)];
    let c_ = kzg.commit(&pk, &other).unwrap();
    assert_eq!(KZG10::verify(&c_, &pk, &p, &z, &v, &()), Ok(false));
    let p_ = kzg.open(&pk, &other, &z, &v, &()).unwrap();
    assert_eq!(KZG10::verify(&c, &pk, &p_, &z, &v, &()), Ok(false));
}

#[test]
fn kzg10_one_wrong_value_is_rejected() {
    let mut rng = StdRng::seed_from_u64(0);
    let mut kzg = KZG10::new();
    let (pk, _) = kzg.setup(16);
    let polys = poly_generator(8, 16, &mut rng);
    let z = point_generator(8, &mut rng);
    let c = kzg.commit(&pk, &polys).unwrap();
    let mut v = kzg.evaluate(&polys, &z).unwrap();
    let p = kzg.open(&pk, &polys, &z, &v, &()).unwrap();
    assert_eq!(p.len(), 8);
    assert!(p.iter().all(|row| row.len() == 8));
    assert_eq!(KZG10::verify(&c, &pk, &p, &z, &v, &()), Ok(true));
    v[0][0] = scalar(fr(&v[0][0]) + Fr::ONE);
    assert_eq!(KZG10::verify(&c, &pk, &p, &z, &v, &()), Ok(false));
}

#[test]
fn kzg10_proof_element_is_the_quotient_at_the_secret() {
    let mut rng = StdRng::seed_from_u64(0);
    let mut kzg = KZG10::new();
    let (pk, sk) = kzg.setup(8);
    let polys = poly_generator(2, 8, &mut rng);
    let z = point_generator(2, &mut rng);
    let v = kzg.evaluate(&polys, &z).unwrap();
    let p = kzg.open(&pk, &polys, &z, &v, &()).unwrap();
    let g = ark_g1(&pk.g1_vec[0]);
    for i in 0..2 {
        for j in 0..2 {
            // (f(a) - f(z)) / (a - z)
            let quotient = (fr(&polys[i].evaluate(&sk)) - fr(&v[i][j]))
                * (fr(&sk) - fr(&z[j])).inverse().unwrap();
            assert_eq!(ark_g1(&p[i][j]), g * quotient);
        }
    }
    // The equation that the verifier checks, computed apart from the library.
    let lhs = Bls12_381::pairing(
        ark_g1(&kzg.commit(&pk, &polys).unwrap()[0]) - g * fr(&v[0][1]),
        ark_g2(&pk.g2_1),
    );
    let rhs =
        Bls12_381::pairing(ark_g1(&p[0][1]), ark_g2(&pk.g2_x) - ark_g2(&pk.g2_1) * fr(&z[1]));
    assert_eq!(lhs, rhs);
}

#[test]
fn kzg10_refuses_malformed_batches() {
    let mut rng = StdRng::seed_from_u64(0);
    let mut kzg = KZG10::new();
    let (pk, _) = kzg.setup(8);
    let polys = poly_generator(3, 8, &mut rng);
    let z = point_generator(3, &mut rng);
    let v = kzg.evaluate(&polys, &z).unwrap();
    assert_eq!(kzg.open(&pk, &polys, &z, &v, &()), Err(Error::NonPowerOfTwo));
    assert_eq!(kzg.open(&pk, &[], &[], &[], &()), Err(Error::NonPowerOfTwo));

    let polys = poly_generator(4, 8, &mut rng);
    let mut z = point_generator(4, &mut rng);
    let v = kzg.evaluate(&polys, &z).unwrap();
    let c = kzg.commit(&pk, &polys).unwrap();
    let p = kzg.open(&pk, &polys, &z, &v, &()).unwrap();
    assert_eq!(kzg.open(&pk, &polys[..2], &z, &v, &()), Err(Error::LengthMismatch));
    assert_eq!(kzg.open(&pk, &polys, &z, &v[..2], &()), Err(Error::LengthMismatch));
    let mut short_row = kzg.evaluate(&polys, &z).unwrap();
    short_row[0].pop();
    assert_eq!(kzg.open(&pk, &polys, &z, &short_row, &()), Err(Error::LengthMismatch));
    assert_eq!(
        KZG10::verify(&c[..2].to_vec(), &pk, &p, &z, &v, &()),
        Err(Error::LengthMismatch)
    );
    assert_eq!(
        KZG10::verify(&c, &pk, &p[..2].to_vec(), &z, &v, &()),
        Err(Error::LengthMismatch)
    );
    assert_eq!(KZG10::verify(&c, &pk, &p, &z, &v[..2], &()), Err(Error::LengthMismatch));
    let mut ragged = kzg.evaluate(&polys, &z).unwrap();
    ragged[3].pop();
    assert_eq!(KZG10::verify(&c, &pk, &p, &z, &ragged, &()), Err(Error::LengthMismatch));
    let mut short_rows = kzg.open(&pk, &polys, &z, &v, &()).unwrap();
    short_rows[1].pop();
    assert_eq!(KZG10::verify(&c, &pk, &short_rows, &z, &v, &()), Err(Error::LengthMismatch));
    let empty = KZG_PK { g1_vec: vec![], g2_1: pk.g2_1, g2_x: pk.g2_x };
    assert_eq!(KZG10::verify(&c, &empty, &p, &z, &v, &()), Err(Error::LengthMismatch));

    z[3] = z[0];
    assert_eq!(kzg.open(&pk, &polys, &z, &v, &()), Err(Error::DuplicatePoint));
    assert_eq!(KZG10::verify(&c, &pk, &p, &z, &v, &()), Err(Error::DuplicatePoint));

    let z = point_generator(4, &mut rng);
    let long = poly_generator(4, 9, &mut rng);
    assert_eq!(kzg.commit(&pk, &long), Err(Error::OverDegree));
    assert_eq!(kzg.open(&pk, &long, &z, &v, &()), Err(Error::OverDegree));
    // Before setup the bound on the degree is zero.
    assert_eq!(KZG10::new().commit(&pk, &polys), Err(Error::OverDegree));
}

#[test]
fn binding_values_of_other_polynomials_do_not_verify() {
    let mut rng = StdRng::seed_from_u64(0);
    let polys = poly_generator(4, 8, &mut rng);
    let others = poly_generator(4, 8, &mut rng);
    let z = point_generator(4, &mut rng);
    let gamma = point_generator(4, &mut rng);
    let challenge = (scalar(Fr::rand(&mut rng)), scalar(Fr::rand(&mut rng)));

    let mut kzg = KZG10::new();
    let (pk, _) = kzg.setup(8);
    let c = kzg.commit(&pk, &polys).unwrap();
    let v_ = kzg.evaluate(&others, &z).unwrap();
    let p = kzg.open(&pk, &polys, &z, &v_, &()).unwrap();
    assert_eq!(KZG10::verify(&c, &pk, &p, &z, &v_, &()), Ok(false));

    let mut gwc = GWC19::new();
    let (pk, _) = gwc.setup(8);
    let c = gwc.commit(&pk, &polys).unwrap();
    let p = gwc.open(&pk, &polys, &z, &v_, &gamma).unwrap();
    assert_eq!(GWC19::verify(&c, &pk, &p, &z, &v_, &gamma), Ok(false));

    let mut djba = DJBA21::new();
    let (pk, _) = djba.setup(8);
    let c = djba.commit(&pk, &polys).unwrap();
    let v_ = djba.evaluate(&others, &z).unwrap();
    let p = djba.open(&pk, &polys, &z, &v_, &challenge).unwrap();
    assert_eq!(DJBA21::verify(&c, &pk, &p, &z, &v_, &challenge), Ok(false));
}

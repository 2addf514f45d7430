use ark_bls12_381::{Fq, Fr, G1Affine, G1Projective, G2Affine, G2Projective};
use ark_ec::CurveGroup;
use ark_ff::{PrimeField, UniformRand};
use ark_std::rand::rngs::StdRng;
use ark_std::rand::SeedableRng;
use kzg_commitments::curve::{Coordinate, G1, G2};
use kzg_commitments::scalar::Scalar;

fn coordinate(c: Fq) -> Coordinate {
    Coordinate::from_limbs(c.into_bigint().0).unwrap()
}

fn g1(p: G1Projective) -> G1 {
    let a: G1Affine = p.into_affine();
    if a.infinity {
        G1::identity()
    } else {
        G1::new(coordinate(a.x), coordinate(a.y)).unwrap()
    }
}

fn g2(p: G2Projective) -> G2 {
    let a: G2Affine = p.into_affine();
    if a.infinity {
        G2::identity()
    } else {
        G2::new((coordinate(a.x.c0), coordinate(a.x.c1)), (coordinate(a.y.c0), coordinate(a.y.c1)))
            .unwrap()
    }
}

#[test]
fn scalar_limbs_round_trip() {
    let mut rng = StdRng::seed_from_u64(0);
    let x = Fr::rand(&mut rng);
    let s = Scalar::from_limbs(x.into_bigint().0).unwrap();
    assert_eq!(s.to_limbs(), x.into_bigint().0);
    assert!(Scalar::from_limbs(Fr::MODULUS.0).is_none());
    assert!(Scalar::from_limbs([u64::MAX; 4]).is_none());
    assert!(Scalar::zero().is_zero());
    assert!(!Scalar::one().is_zero());
    assert!(s.equals(&s));
}

#[test]
fn points_of_the_groups_are_accepted() {
    let mut rng = StdRng::seed_from_u64(0);
    let p = G1Projective::rand(&mut rng);
    let q = G2Projective::rand(&mut rng);
    let a = g1(p);
    let b = g2(q);
    assert!(!a.is_identity());
    assert!(!b.is_identity());
    assert_eq!(a.x().to_limbs(), p.into_affine().x.into_bigint().0);
}

#[test]
fn coordinates_off_the_curve_are_refused() {
    let one = Coordinate::from_limbs([1, 0, 0, 0, 0, 0]).unwrap();
    assert!(G1::new(one, one).is_none());
    assert!(G2::new((one, one), (one, one)).is_none());
    assert!(Coordinate::from_limbs(Fq::MODULUS.0).is_none());
}

#[test]
fn identities_and_boundaries() {
    assert!(G1::identity().is_identity());
    assert!(G2::identity().is_identity());
    assert_eq!(G1::identity().x().to_limbs(), [0u64; 6]);
    assert_eq!(G1::identity().y().to_limbs(), [0u64; 6]);
    assert_eq!(Coordinate::zero().to_limbs(), [0u64; 6]);
    assert_eq!(Scalar::one().to_limbs(), [1, 0, 0, 0]);

    // The largest residue is accepted, the modulus is not.
    let mut top = Fr::MODULUS.0;
    top[0] -= 1;
    assert_eq!(Scalar::from_limbs(top).unwrap().to_limbs(), top);
    let mut top = Fq::MODULUS.0;
    top[0] -= 1;
    assert_eq!(Coordinate::from_limbs(top).unwrap().to_limbs(), top);
    // A lower limb above that of the modulus does not matter below a smaller higher limb.
    assert!(Scalar::from_limbs([u64::MAX, u64::MAX, u64::MAX, 0]).is_some());
    assert!(Scalar::from_limbs([0, 0, 0, u64::MAX]).is_none());

    assert_eq!(g1(G1Projective::default()), G1::identity());
    assert_eq!(g2(G2Projective::default()), G2::identity());
}

#[test]
fn points_solve_the_curve_equations() {
    let mut rng = StdRng::seed_from_u64(3);
    let four = Fq::from(4u64);
    let p = G1Projective::rand(&mut rng).into_affine();
    assert_eq!(p.y * p.y, p.x * p.x * p.x + four);
    let q = G2Projective::rand(&mut rng).into_affine();
    let (x0, x1, y0, y1) = (q.x.c0, q.x.c1, q.y.c0, q.y.c1);
    let three = Fq::from(3u64);
    let two = Fq::from(2u64);
    assert_eq!(y0 * y0 - y1 * y1, x0 * x0 * x0 - three * x0 * x1 * x1 + four);
    assert_eq!(two * y0 * y1, three * x0 * x0 * x1 - x1 * x1 * x1 + four);

    // A solution of the equation of G1 that is outside the subgroup is refused.
    let mut x = Fq::from(0u64);
    loop {
        if let Some(a) = G1Affine::get_point_from_x_unchecked(x, false) {
            if !a.is_in_correct_subgroup_assuming_on_curve() {
                assert!(a.is_on_curve());
                assert!(G1::new(coordinate(a.x), coordinate(a.y)).is_none());
                break;
            }
        }
        x += Fq::from(1u64);
    }
}

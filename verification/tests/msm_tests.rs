use pippenger_msm::curve::{AffinePoint, ProjectivePoint, Scalar};
use pippenger_msm::msm::{naive_multi_scalar_mul, scalar_point_mul, VariableBaseMSM};

fn multiple_of_generator(k: u64) -> AffinePoint {
    let g = AffinePoint::generator();
    scalar_point_mul(&g, &Scalar::from_u64(k)).to_affine()
}

#[test]
fn msm_empty_inputs_give_identity() {
    let bases: Vec<AffinePoint> = Vec::new();
    let scalars: Vec<Scalar> = Vec::new();
    let r = VariableBaseMSM::multi_scalar_mul(&bases, &scalars);
    assert!(r.equals(&ProjectivePoint::identity()));
}

#[test]
fn msm_matches_naive_reference() {
    let bases = vec![
        multiple_of_generator(1),
        multiple_of_generator(2),
        multiple_of_generator(3),
        multiple_of_generator(4),
        multiple_of_generator(5),
    ];
    let scalars = vec![
        Scalar::from_u64(7),
        Scalar::from_u64(0),
        Scalar::from_u64(1),
        Scalar::from_u64(123456789),
        Scalar::from_u64(2),
    ];
    let fast = VariableBaseMSM::multi_scalar_mul(&bases, &scalars);
    let slow = naive_multi_scalar_mul(&bases, &scalars);
    assert!(fast.equals(&slow));
}

#[test]
fn msm_zero_scalars_return_identity() {
    let bases = vec![multiple_of_generator(1), multiple_of_generator(2)];
    let scalars = vec![Scalar::from_u64(0), Scalar::from_u64(0)];
    let r = VariableBaseMSM::multi_scalar_mul(&bases, &scalars);
    assert!(r.equals(&ProjectivePoint::identity()));
}

#[test]
fn msm_single_unit_scalar_returns_base() {
    let g = AffinePoint::generator();
    let bases = vec![g];
    let scalars = vec![Scalar::from_u64(1)];
    let r = VariableBaseMSM::multi_scalar_mul(&bases, &scalars);
    let g_again = AffinePoint::generator();
    assert!(r.equals(&ProjectivePoint::from_affine(&g_again)));
}

#[test]
fn msm_invariant_under_identical_reordering() {
    let bases = vec![
        multiple_of_generator(1),
        multiple_of_generator(2),
        multiple_of_generator(3),
        multiple_of_generator(4),
    ];
    let scalars = vec![
        Scalar::from_u64(11),
        Scalar::from_u64(22),
        Scalar::from_u64(33),
        Scalar::from_u64(44),
    ];
    let shuffled_bases = vec![
        multiple_of_generator(3),
        multiple_of_generator(1),
        multiple_of_generator(4),
        multiple_of_generator(2),
    ];
    let shuffled_scalars = vec![
        Scalar::from_u64(33),
        Scalar::from_u64(11),
        Scalar::from_u64(44),
        Scalar::from_u64(22),
    ];
    let a = VariableBaseMSM::multi_scalar_mul(&bases, &scalars);
    let b = VariableBaseMSM::multi_scalar_mul(&shuffled_bases, &shuffled_scalars);
    assert!(a.equals(&b));
}

#[test]
fn msm_truncates_to_shorter_input() {
    let bases = vec![multiple_of_generator(1), multiple_of_generator(2)];
    let scalars = vec![Scalar::from_u64(5)];
    let r = VariableBaseMSM::multi_scalar_mul(&bases, &scalars);
    let g = AffinePoint::generator();
    let expected = scalar_point_mul(&g, &Scalar::from_u64(5));
    assert!(r.equals(&expected));
}

#[test]
fn msm_scalar_two_doubles_the_base() {
    let g = AffinePoint::generator();
    let bases = vec![g];
    let scalars = vec![Scalar::from_u64(2)];
    let r = VariableBaseMSM::multi_scalar_mul(&bases, &scalars);
    // the doubling of the generator, through the group law on the pair (g, g)
    let g_again = AffinePoint::generator();
    let points = vec![g_again];
    let doubled = VariableBaseMSM::mixed_point_addition(&points, &vec![0], &vec![0]).unwrap();
    assert!(r.equals(&doubled[0]));
}

#[test]
fn msm_merges_repeated_bases() {
    let bases = vec![multiple_of_generator(1), multiple_of_generator(1)];
    let scalars = vec![Scalar::from_u64(1), Scalar::from_u64(1)];
    let r = VariableBaseMSM::multi_scalar_mul(&bases, &scalars);
    let g = AffinePoint::generator();
    let expected = scalar_point_mul(&g, &Scalar::from_u64(2));
    assert!(r.equals(&expected));
}

#[test]
fn msm_handles_many_pairs_above_planner_knee() {
    // more than 32 pairs, so the planner leaves the fixed window width
    let mut bases = Vec::new();
    let mut scalars = Vec::new();
    for k in 0..40u64 {
        bases.push(multiple_of_generator(k + 1));
        scalars.push(Scalar::from_u64(3 * k + 7));
    }
    let fast = VariableBaseMSM::multi_scalar_mul(&bases, &scalars);
    let slow = naive_multi_scalar_mul(&bases, &scalars);
    assert!(fast.equals(&slow));
}

#[test]
fn scalar_zero_detection() {
    assert!(Scalar::from_u64(0).is_zero());
    assert!(!Scalar::from_u64(3).is_zero());
}

#[test]
fn msm_max_word_scalars_match_reference() {
    let bases = vec![multiple_of_generator(2), multiple_of_generator(3)];
    let scalars = vec![Scalar::from_u64(u64::MAX), Scalar::from_u64(u64::MAX - 1)];
    let fast = VariableBaseMSM::multi_scalar_mul(&bases, &scalars);
    let slow = naive_multi_scalar_mul(&bases, &scalars);
    assert!(fast.equals(&slow));
}

#[test]
fn scalar_from_limbs_spans_words() {
    let g = AffinePoint::generator();
    // 2^64 * g, once through the second word and once as two 2^32 steps
    let wide = scalar_point_mul(&g, &Scalar::from_limbs(0, 1, 0, 0));
    let half = Scalar::from_u64(1 << 32);
    let step = scalar_point_mul(&g, &half).to_affine();
    let twice = scalar_point_mul(&step, &half);
    assert!(wide.equals(&twice));

    // the low word alone matches the one-word constructor
    let a = scalar_point_mul(&g, &Scalar::from_limbs(77, 0, 0, 0));
    let b = scalar_point_mul(&g, &Scalar::from_u64(77));
    assert!(a.equals(&b));
}

use pippenger_msm::additions::PairError;
use pippenger_msm::curve::{AffinePoint, Scalar};
use pippenger_msm::digits::{log2_ceil, plan_window_width};
use pippenger_msm::msm::{scalar_point_mul, VariableBaseMSM};

fn multiple_of_generator(k: u64) -> AffinePoint {
    let g = AffinePoint::generator();
    scalar_point_mul(&g, &Scalar::from_u64(k)).to_affine()
}

#[test]
fn mixed_point_addition_computes_pair_sums() {
    let points = vec![
        multiple_of_generator(1),
        multiple_of_generator(2),
        multiple_of_generator(3),
        multiple_of_generator(4),
    ];
    let r = VariableBaseMSM::mixed_point_addition(&points, &vec![0, 2], &vec![1, 3]).unwrap();
    assert_eq!(r.len(), 2);
    let g = AffinePoint::generator();
    // g + 2g = 3g and 3g + 4g = 7g
    assert!(r[0].equals(&scalar_point_mul(&g, &Scalar::from_u64(3))));
    assert!(r[1].equals(&scalar_point_mul(&g, &Scalar::from_u64(7))));
}

#[test]
fn mixed_point_addition_empty_input_is_empty() {
    let points = vec![multiple_of_generator(1)];
    let r = VariableBaseMSM::mixed_point_addition(&points, &Vec::new(), &Vec::new()).unwrap();
    assert!(r.is_empty());
}

#[test]
fn mixed_point_addition_length_mismatch_fails() {
    let points = vec![multiple_of_generator(1)];
    let r = VariableBaseMSM::mixed_point_addition(&points, &vec![0], &Vec::new());
    assert!(matches!(r, Err(PairError::LengthMismatch)));
}

#[test]
fn mixed_point_addition_index_out_of_range_fails() {
    let points = vec![multiple_of_generator(1), multiple_of_generator(2)];
    let r = VariableBaseMSM::mixed_point_addition(&points, &vec![0], &vec![2]);
    assert!(matches!(r, Err(PairError::IndexOutOfRange)));
}

#[test]
fn batch_affine_matches_mixed_addition() {
    // four points with pairwise-distinct x coordinates within each pair
    let points = vec![
        multiple_of_generator(1),
        multiple_of_generator(2),
        multiple_of_generator(3),
        multiple_of_generator(4),
    ];
    let first = vec![0, 2];
    let second = vec![1, 3];
    let batched = VariableBaseMSM::batch_affine_point_addition(&points, &first, &second).unwrap();
    let mixed = VariableBaseMSM::mixed_point_addition(&points, &first, &second).unwrap();
    assert_eq!(batched.len(), 2);
    for i in 0..batched.len() {
        assert!(batched[i].equals(&mixed[i].to_affine()));
    }
}

#[test]
fn batch_affine_single_pair() {
    let points = vec![multiple_of_generator(5), multiple_of_generator(9)];
    let batched = VariableBaseMSM::batch_affine_point_addition(&points, &vec![0], &vec![1]).unwrap();
    let g = AffinePoint::generator();
    let expected = scalar_point_mul(&g, &Scalar::from_u64(14)).to_affine();
    assert!(batched[0].equals(&expected));
}

#[test]
fn batch_affine_length_mismatch_fails() {
    let points = vec![multiple_of_generator(1), multiple_of_generator(2)];
    let r = VariableBaseMSM::batch_affine_point_addition(&points, &vec![0, 1], &vec![1]);
    assert!(matches!(r, Err(PairError::LengthMismatch)));
}

#[test]
fn batch_affine_index_out_of_range_fails() {
    let points = vec![multiple_of_generator(1), multiple_of_generator(2)];
    let r = VariableBaseMSM::batch_affine_point_addition(&points, &vec![5], &vec![1]);
    assert!(matches!(r, Err(PairError::IndexOutOfRange)));
}

#[test]
fn batch_affine_equal_x_coordinates_fail() {
    let points = vec![multiple_of_generator(6), multiple_of_generator(6)];
    let r = VariableBaseMSM::batch_affine_point_addition(&points, &vec![0], &vec![1]);
    assert!(matches!(r, Err(PairError::NonInvertible)));
}

#[test]
fn batch_affine_empty_input_is_empty() {
    let points = vec![multiple_of_generator(1)];
    let r =
        VariableBaseMSM::batch_affine_point_addition(&points, &Vec::new(), &Vec::new()).unwrap();
    assert!(r.is_empty());
}

#[test]
fn planner_returns_three_below_thirty_two() {
    for size in 0..32 {
        assert_eq!(plan_window_width(size), 3);
    }
}

#[test]
fn planner_follows_log_formula_from_thirty_two() {
    // ceil(log2(32)) = 5 and 5 * 69 / 100 + 2 = 5
    assert_eq!(plan_window_width(32), 5);
    // ceil(log2(33)) = 6 and 6 * 69 / 100 + 2 = 6
    assert_eq!(plan_window_width(33), 6);
    assert_eq!(plan_window_width(64), 6);
    // ceil(log2(1 << 20)) = 20 and 20 * 69 / 100 + 2 = 15
    assert_eq!(plan_window_width(1 << 20), 15);
}

#[test]
fn planner_is_monotone_over_a_range() {
    let mut prev = plan_window_width(32);
    for size in 33..4096 {
        let cur = plan_window_width(size);
        assert!(cur >= prev);
        prev = cur;
    }
}

#[test]
fn log2_ceiling_values() {
    assert_eq!(log2_ceil(0), 0);
    assert_eq!(log2_ceil(1), 0);
    assert_eq!(log2_ceil(2), 1);
    assert_eq!(log2_ceil(3), 2);
    assert_eq!(log2_ceil(32), 5);
    assert_eq!(log2_ceil(33), 6);
}

use kabsch_umeyama::array2::Array2;
use kabsch_umeyama::estimator::assemble_homogeneous;
use kabsch_umeyama::estimator::plan_rotation;
use kabsch_umeyama::estimator::reflection_guard;
use kabsch_umeyama::estimator::RotationCorrection;
use kabsch_umeyama::estimator::Sign;

#[test]
fn guard_is_all_plus_for_nonnegative_determinant() {
    let d = reflection_guard(4, false);
    assert_eq!(d, vec![Sign::Plus, Sign::Plus, Sign::Plus, Sign::Plus]);
}

#[test]
fn guard_flips_last_for_negative_determinant() {
    let d = reflection_guard(4, true);
    assert_eq!(d, vec![Sign::Plus, Sign::Plus, Sign::Plus, Sign::Minus]);
}

#[test]
fn rank_zero_has_no_solution() {
    assert!(plan_rotation(3, false, 0, true).is_none());
    assert!(plan_rotation(3, true, 0, false).is_none());
}

#[test]
fn full_rank_applies_the_guard() {
    let p = plan_rotation(3, true, 3, true).unwrap();
    assert_eq!(p.scale_signs, vec![Sign::Plus, Sign::Plus, Sign::Minus]);
    match p.rotation {
        RotationCorrection::Signed(s) => {
            assert_eq!(s, vec![Sign::Plus, Sign::Plus, Sign::Minus]);
        }
        RotationCorrection::Direct => panic!("full rank must apply the guard"),
    }
}

#[test]
fn full_rank_positive_determinant_applies_identity_guard() {
    let p = plan_rotation(3, false, 3, true).unwrap();
    assert_eq!(p.scale_signs, vec![Sign::Plus, Sign::Plus, Sign::Plus]);
    match p.rotation {
        RotationCorrection::Signed(s) => {
            assert_eq!(s, vec![Sign::Plus, Sign::Plus, Sign::Plus]);
        }
        RotationCorrection::Direct => panic!("full rank must apply the guard"),
    }
}

#[test]
fn deficient_rank_keeps_proper_product() {
    let p = plan_rotation(3, false, 2, true).unwrap();
    assert!(matches!(p.rotation, RotationCorrection::Direct));
    assert_eq!(p.scale_signs, vec![Sign::Plus, Sign::Plus, Sign::Plus]);
}

#[test]
fn deficient_rank_flips_improper_product_and_restores_guard() {
    let p = plan_rotation(3, false, 2, false).unwrap();
    match p.rotation {
        RotationCorrection::Signed(s) => {
            assert_eq!(s, vec![Sign::Plus, Sign::Plus, Sign::Minus]);
        }
        RotationCorrection::Direct => panic!("improper product must be corrected"),
    }
    // the scale pairing keeps the pre-decomposition guard, not the forced flip
    assert_eq!(p.scale_signs, vec![Sign::Plus, Sign::Plus, Sign::Plus]);
}

#[test]
fn low_rank_falls_back_to_the_guard() {
    let p = plan_rotation(4, true, 2, true).unwrap();
    match p.rotation {
        RotationCorrection::Signed(s) => {
            assert_eq!(s, vec![Sign::Plus, Sign::Plus, Sign::Plus, Sign::Minus]);
        }
        RotationCorrection::Direct => panic!("rank below c - 1 must apply the guard"),
    }
}

#[test]
fn assemble_places_block_translation_and_bottom_row() {
    let rot = Array2::from_flat(vec![1.0_f64, 2.0, 3.0, 4.0], 2, 2).unwrap();
    let t = assemble_homogeneous(&rot, &vec![7.0, 8.0], 0.0, 1.0);
    assert_eq!(t.nrows(), 3);
    assert_eq!(t.ncols(), 3);
    assert_eq!(t.get(0, 0), 1.0);
    assert_eq!(t.get(0, 1), 2.0);
    assert_eq!(t.get(1, 0), 3.0);
    assert_eq!(t.get(1, 1), 4.0);
    assert_eq!(t.get(0, 2), 7.0);
    assert_eq!(t.get(1, 2), 8.0);
    assert_eq!(t.get(2, 0), 0.0);
    assert_eq!(t.get(2, 1), 0.0);
    assert_eq!(t.get(2, 2), 1.0);
}

#[test]
fn assemble_identity_block_gives_identity_transform() {
    let rot = Array2::from_flat(
        vec![1.0_f64, 0.0, 0.0, 0.0, 1.0, 0.0, 0.0, 0.0, 1.0],
        3,
        3,
    )
    .unwrap();
    let t = assemble_homogeneous(&rot, &vec![0.0, 0.0, 0.0], 0.0, 1.0);
    assert_eq!(t.nrows(), 4);
    assert_eq!(t.ncols(), 4);
    for i in 0..4 {
        for j in 0..4 {
            let expected = if i == j { 1.0 } else { 0.0 };
            assert_eq!(t.get(i, j), expected);
        }
    }
}

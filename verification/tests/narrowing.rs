use mir_analyzer::narrowing::{
    flip_comparison_op, int_comparison_bounds, int_comparison_excludes_null, intersect_int_range,
    ComparisonOp,
};

#[test]
fn flip_swaps_ordering_operators_and_is_an_involution() {
    let ops = [
        ComparisonOp::Less,
        ComparisonOp::LessOrEqual,
        ComparisonOp::Greater,
        ComparisonOp::GreaterOrEqual,
        ComparisonOp::Other,
    ];
    assert_eq!(flip_comparison_op(ComparisonOp::Less), ComparisonOp::Greater);
    assert_eq!(flip_comparison_op(ComparisonOp::GreaterOrEqual), ComparisonOp::LessOrEqual);
    assert_eq!(flip_comparison_op(ComparisonOp::Other), ComparisonOp::Other);
    for op in ops {
        assert_eq!(flip_comparison_op(flip_comparison_op(op)), op);
    }
}

#[test]
fn bounds_of_each_comparison() {
    assert_eq!(int_comparison_bounds(ComparisonOp::Less, 5, true), Some((None, Some(4))));
    assert_eq!(int_comparison_bounds(ComparisonOp::Less, 5, false), Some((Some(5), None)));
    assert_eq!(int_comparison_bounds(ComparisonOp::LessOrEqual, 5, true), Some((None, Some(5))));
    assert_eq!(int_comparison_bounds(ComparisonOp::Greater, 5, true), Some((Some(6), None)));
    assert_eq!(int_comparison_bounds(ComparisonOp::Greater, 5, false), Some((None, Some(5))));
    assert_eq!(int_comparison_bounds(ComparisonOp::GreaterOrEqual, -3, true), Some((Some(-3), None)));
    assert_eq!(int_comparison_bounds(ComparisonOp::Other, 5, true), None);
}

#[test]
fn impossible_comparisons_give_an_empty_range() {
    assert_eq!(int_comparison_bounds(ComparisonOp::Less, i64::MIN, true), Some((Some(1), Some(0))));
    assert_eq!(int_comparison_bounds(ComparisonOp::Greater, i64::MAX, true), Some((Some(1), Some(0))));
    assert_eq!(
        int_comparison_bounds(ComparisonOp::GreaterOrEqual, i64::MIN, false),
        Some((Some(1), Some(0)))
    );
}

#[test]
fn bounds_match_the_comparison_on_sample_values() {
    let ops = [
        ComparisonOp::Less,
        ComparisonOp::LessOrEqual,
        ComparisonOp::Greater,
        ComparisonOp::GreaterOrEqual,
    ];
    for op in ops {
        for n in [-2i64, 0, 3] {
            for is_true in [true, false] {
                let (lo, hi) = int_comparison_bounds(op, n, is_true).unwrap();
                for x in -5i64..6 {
                    let inside = lo.is_none_or(|l| l <= x) && hi.is_none_or(|h| x <= h);
                    let holds = match op {
                        ComparisonOp::Less => x < n,
                        ComparisonOp::LessOrEqual => x <= n,
                        ComparisonOp::Greater => x > n,
                        ComparisonOp::GreaterOrEqual => x >= n,
                        ComparisonOp::Other => false,
                    };
                    assert_eq!(inside, holds == is_true);
                }
            }
        }
    }
}

#[test]
fn null_exclusion_follows_phps_bool_comparison() {
    assert!(int_comparison_excludes_null(ComparisonOp::Greater, 0, true));
    assert!(int_comparison_excludes_null(ComparisonOp::LessOrEqual, 7, false));
    assert!(!int_comparison_excludes_null(ComparisonOp::LessOrEqual, 7, true));
    assert!(int_comparison_excludes_null(ComparisonOp::Less, 0, true));
    assert!(!int_comparison_excludes_null(ComparisonOp::Less, 1, true));
    assert!(int_comparison_excludes_null(ComparisonOp::GreaterOrEqual, 1, true));
    assert!(!int_comparison_excludes_null(ComparisonOp::GreaterOrEqual, 0, true));
    assert!(!int_comparison_excludes_null(ComparisonOp::Other, 1, true));
}

#[test]
fn intersection_of_ranges() {
    assert_eq!(intersect_int_range(None, None, Some(3), None), Some((Some(3), None)));
    assert_eq!(intersect_int_range(Some(1), None, None, Some(-1)), None);
    assert_eq!(intersect_int_range(Some(0), Some(10), Some(5), Some(20)), Some((Some(5), Some(10))));
    assert_eq!(intersect_int_range(None, Some(-1), Some(1), Some(0)), None);
    assert_eq!(intersect_int_range(Some(2), Some(2), Some(2), None), Some((Some(2), Some(2))));
}

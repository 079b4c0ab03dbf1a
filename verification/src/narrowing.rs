//! Integer facts that a comparison `$x <op> n` establishes about `$x`.
use vstd::prelude::*;

verus! {

/// The operator of a comparison `$x <op> n`; every operator that does not
/// order its operands is `Other`.
#[derive(Debug, Clone, Copy, PartialEq, Eq, Structural)]
pub enum ComparisonOp {
    Less,
    LessOrEqual,
    Greater,
    GreaterOrEqual,
    Other,
}

/// The operator once the operands swap sides (`5 > $x` is `$x < 5`).
pub open spec fn flipped(op: ComparisonOp) -> ComparisonOp {
    match op {
        ComparisonOp::Less => ComparisonOp::Greater,
        ComparisonOp::LessOrEqual => ComparisonOp::GreaterOrEqual,
        ComparisonOp::Greater => ComparisonOp::Less,
        ComparisonOp::GreaterOrEqual => ComparisonOp::LessOrEqual,
        ComparisonOp::Other => ComparisonOp::Other,
    }
}

/// Flip a comparison operator for when the operands are swapped.
pub fn flip_comparison_op(op: ComparisonOp) -> (r: ComparisonOp)
    ensures
        r == flipped(op),
{
    match op {
        ComparisonOp::Less => ComparisonOp::Greater,
        ComparisonOp::LessOrEqual => ComparisonOp::GreaterOrEqual,
        ComparisonOp::Greater => ComparisonOp::Less,
        ComparisonOp::GreaterOrEqual => ComparisonOp::LessOrEqual,
        other => other,
    }
}

/// `x <op> n`.
pub open spec fn compares(op: ComparisonOp, x: int, n: int) -> bool {
    match op {
        ComparisonOp::Less => x < n,
        ComparisonOp::LessOrEqual => x <= n,
        ComparisonOp::Greater => x > n,
        ComparisonOp::GreaterOrEqual => x >= n,
        ComparisonOp::Other => false,
    }
}

pub open spec fn is_ordering(op: ComparisonOp) -> bool {
    op != ComparisonOp::Other
}

/// Swapping the operands and flipping the operator asks the same question,
/// and flipping twice gives the operator back.
pub proof fn lemma_flip_swaps_operands(op: ComparisonOp, x: int, n: int)
    requires
        is_ordering(op),
    ensures
        compares(flipped(op), n, x) == compares(op, x, n),
        flipped(flipped(op)) == op,
        is_ordering(flipped(op)),
{
}

/// An inclusive range with optional ends.
pub open spec fn in_bounds(x: int, b: (Option<i64>, Option<i64>)) -> bool {
    &&& (b.0 matches Some(lo) ==> lo <= x)
    &&& (b.1 matches Some(hi) ==> x <= hi)
}

/// The range of `$x` once `$x <op> n` is known to be `is_true`; `(1, 0)`,
/// an empty range, where no `i64` satisfies it.
pub open spec fn comparison_bounds(op: ComparisonOp, n: i64, is_true: bool) -> Option<
    (Option<i64>, Option<i64>),
> {
    let below = (op == ComparisonOp::Less && is_true) || (op == ComparisonOp::GreaterOrEqual && !is_true);
    let at_most = (op == ComparisonOp::LessOrEqual && is_true) || (op == ComparisonOp::Greater && !is_true);
    let above = (op == ComparisonOp::Greater && is_true) || (op == ComparisonOp::LessOrEqual && !is_true);
    let at_least = (op == ComparisonOp::GreaterOrEqual && is_true) || (op == ComparisonOp::Less && !is_true);
    if below {
        if n > i64::MIN {
            Some((None, Some((n - 1) as i64)))
        } else {
            Some((Some(1), Some(0)))
        }
    } else if at_most {
        Some((None, Some(n)))
    } else if above {
        if n < i64::MAX {
            Some((Some((n + 1) as i64), None))
        } else {
            Some((Some(1), Some(0)))
        }
    } else if at_least {
        Some((Some(n), None))
    } else {
        None
    }
}

/// The range constraint that `$x <op> n` resolving to `is_true` implies.
pub fn int_comparison_bounds(op: ComparisonOp, n: i64, is_true: bool) -> (r: Option<
    (Option<i64>, Option<i64>),
>)
    ensures
        r == comparison_bounds(op, n, is_true),
{
    match (op, is_true) {
        (ComparisonOp::Less, true) | (ComparisonOp::GreaterOrEqual, false) => Some(
            match n.checked_sub(1) {
                Some(hi) => (None, Some(hi)),
                None => (Some(1), Some(0)),
            },
        ),
        (ComparisonOp::LessOrEqual, true) | (ComparisonOp::Greater, false) => Some((None, Some(n))),
        (ComparisonOp::Greater, true) | (ComparisonOp::LessOrEqual, false) => Some(
            match n.checked_add(1) {
                Some(lo) => (Some(lo), None),
                None => (Some(1), Some(0)),
            },
        ),
        (ComparisonOp::GreaterOrEqual, true) | (ComparisonOp::Less, false) => Some((Some(n), None)),
        _ => None,
    }
}

/// For an ordering operator the range holds exactly the `i64` values for
/// which `x <op> n` has the outcome `is_true`; any other operator yields no
/// range.
pub proof fn lemma_comparison_bounds_exact(op: ComparisonOp, n: i64, is_true: bool, x: i64)
    ensures
        is_ordering(op) <==> comparison_bounds(op, n, is_true) is Some,
        comparison_bounds(op, n, is_true) matches Some(b) ==> (in_bounds(x as int, b) <==> compares(
            op,
            x as int,
            n as int,
        ) == is_true),
{
}

/// What PHP's `null <op> n` yields: `null` becomes `false` and `n` becomes
/// `n != 0`, compared as booleans (`false < true`).
pub open spec fn null_compares(op: ComparisonOp, n: i64) -> bool {
    let b = n != 0;
    match op {
        ComparisonOp::Less => b,
        ComparisonOp::LessOrEqual => true,
        ComparisonOp::Greater => false,
        ComparisonOp::GreaterOrEqual => !b,
        ComparisonOp::Other => false,
    }
}

pub open spec fn comparison_excludes_null(op: ComparisonOp, n: i64, is_true: bool) -> bool {
    match (op, is_true) {
        (ComparisonOp::Greater, true) | (ComparisonOp::LessOrEqual, false) => true,
        (ComparisonOp::Greater, false) | (ComparisonOp::LessOrEqual, true) => false,
        (ComparisonOp::Less, true) | (ComparisonOp::GreaterOrEqual, false) => n == 0,
        (ComparisonOp::Less, false) | (ComparisonOp::GreaterOrEqual, true) => n != 0,
        _ => false,
    }
}

/// Whether `$x <op> n` resolving to `is_true` proves `$x` is not `null`.
pub fn int_comparison_excludes_null(op: ComparisonOp, n: i64, is_true: bool) -> (r: bool)
    ensures
        r == comparison_excludes_null(op, n, is_true),
{
    match (op, is_true) {
        (ComparisonOp::Greater, true) | (ComparisonOp::LessOrEqual, false) => true,
        (ComparisonOp::Greater, false) | (ComparisonOp::LessOrEqual, true) => false,
        (ComparisonOp::Less, true) | (ComparisonOp::GreaterOrEqual, false) => n == 0,
        (ComparisonOp::Less, false) | (ComparisonOp::GreaterOrEqual, true) => n != 0,
        _ => false,
    }
}

/// `null` is excluded exactly when `null <op> n` cannot have the outcome
/// `is_true`.
pub proof fn lemma_excludes_null_exact(op: ComparisonOp, n: i64, is_true: bool)
    requires
        is_ordering(op),
    ensures
        comparison_excludes_null(op, n, is_true) <==> null_compares(op, n) != is_true,
{
}

/// The intersection of two ranges, `None` when it is provably empty.
pub open spec fn range_intersection(
    existing_min: Option<i64>,
    existing_max: Option<i64>,
    narrow_min: Option<i64>,
    narrow_max: Option<i64>,
) -> Option<(Option<i64>, Option<i64>)> {
    let lo = match (existing_min, narrow_min) {
        (Some(a), Some(b)) => Some(if a >= b { a } else { b }),
        (None, v) => v,
        (v, None) => v,
    };
    let hi = match (existing_max, narrow_max) {
        (Some(a), Some(b)) => Some(if a <= b { a } else { b }),
        (None, v) => v,
        (v, None) => v,
    };
    if lo is Some && hi is Some && lo->0 > hi->0 {
        None
    } else {
        Some((lo, hi))
    }
}

/// Intersect `existing_min..=existing_max` with `narrow_min..=narrow_max`
/// (a missing end is unbounded): the narrowed range, or `None` when no
/// integer lies in both.
pub fn intersect_int_range(
    existing_min: Option<i64>,
    existing_max: Option<i64>,
    narrow_min: Option<i64>,
    narrow_max: Option<i64>,
) -> (r: Option<(Option<i64>, Option<i64>)>)
    ensures
        r == range_intersection(existing_min, existing_max, narrow_min, narrow_max),
{
    let new_min = match (existing_min, narrow_min) {
        (Some(a), Some(b)) => Some(if a >= b { a } else { b }),
        (None, v) => v,
        (v, None) => v,
    };
    let new_max = match (existing_max, narrow_max) {
        (Some(a), Some(b)) => Some(if a <= b { a } else { b }),
        (None, v) => v,
        (v, None) => v,
    };
    if let (Some(lo), Some(hi)) = (new_min, new_max) {
        if lo > hi {
            return None;
        }
    }
    Some((new_min, new_max))
}

/// The intersection holds exactly the values in both ranges, and it is
/// missing only when no `i64` lies in both.
pub proof fn lemma_range_intersection_exact(
    existing_min: Option<i64>,
    existing_max: Option<i64>,
    narrow_min: Option<i64>,
    narrow_max: Option<i64>,
    x: i64,
)
    ensures
        ({
            let r = range_intersection(existing_min, existing_max, narrow_min, narrow_max);
            let both = in_bounds(x as int, (existing_min, existing_max)) && in_bounds(
                x as int,
                (narrow_min, narrow_max),
            );
            &&& (r matches Some(b) ==> (in_bounds(x as int, b) <==> both))
            &&& (r is None ==> !both)
        }),
{
}

/// When the intersection is missing, no `i64` lies in both ranges; when it
/// is present, some `i64` does.
pub proof fn lemma_range_intersection_empty_iff(
    existing_min: Option<i64>,
    existing_max: Option<i64>,
    narrow_min: Option<i64>,
    narrow_max: Option<i64>,
)
    ensures
        range_intersection(existing_min, existing_max, narrow_min, narrow_max) is None <==> !exists|x: i64|
            in_bounds(x as int, (existing_min, existing_max)) && #[trigger] in_bounds(
                x as int,
                (narrow_min, narrow_max),
            ),
{
    let r = range_intersection(existing_min, existing_max, narrow_min, narrow_max);
    if let Some(b) = r {
        let x: i64 = match b.0 {
            Some(lo) => lo,
            None => match b.1 {
                Some(hi) => hi,
                None => 0,
            },
        };
        assert(in_bounds(x as int, b));
        lemma_range_intersection_exact(existing_min, existing_max, narrow_min, narrow_max, x);
    } else {
        assert forall|x: i64| !(in_bounds(x as int, (existing_min, existing_max)) && in_bounds(
            x as int,
            (narrow_min, narrow_max),
        )) by {
            lemma_range_intersection_exact(existing_min, existing_max, narrow_min, narrow_max, x);
        }
    }
}

} // verus!

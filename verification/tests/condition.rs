use mir_analyzer::condition::{narrowing_plan, CondKind, Condition, NarrowStep};

fn leaf(id: u64) -> Condition {
    Condition { id, kind: CondKind::Leaf }
}

fn and(id: u64, l: Condition, r: Condition) -> Condition {
    Condition { id, kind: CondKind::And(Box::new(l), Box::new(r)) }
}

fn or(id: u64, l: Condition, r: Condition) -> Condition {
    Condition { id, kind: CondKind::Or(Box::new(l), Box::new(r)) }
}

fn not(id: u64, c: Condition) -> Condition {
    Condition { id, kind: CondKind::Not(Box::new(c)) }
}

fn paren(id: u64, c: Condition) -> Condition {
    Condition { id, kind: CondKind::Parenthesized(Box::new(c)) }
}

#[test]
fn and_narrows_both_sides_only_when_true() {
    let c = and(10, leaf(1), leaf(2));
    assert_eq!(
        narrowing_plan(&c, true),
        vec![
            NarrowStep::Leaf { node: 1, is_true: true },
            NarrowStep::Leaf { node: 2, is_true: true },
            NarrowStep::PromoteAssignments { node: 1 },
            NarrowStep::PromoteAssignments { node: 2 },
        ]
    );
    assert!(narrowing_plan(&c, false).is_empty());
}

#[test]
fn or_narrows_both_sides_only_when_false() {
    let c = or(10, leaf(1), leaf(2));
    assert_eq!(
        narrowing_plan(&c, false),
        vec![
            NarrowStep::Leaf { node: 1, is_true: false },
            NarrowStep::Leaf { node: 2, is_true: false },
            NarrowStep::PromoteAssignments { node: 1 },
            NarrowStep::PromoteAssignments { node: 2 },
        ]
    );
    assert_eq!(narrowing_plan(&c, true), vec![NarrowStep::EitherHeld { left: 1, right: 2 }]);
}

#[test]
fn negation_and_parentheses() {
    // `!($a && !$b)` is false: `$a` holds and `$b` does not.
    let c = not(20, paren(21, and(22, leaf(1), not(23, leaf(2)))));
    assert_eq!(
        narrowing_plan(&c, false),
        vec![
            NarrowStep::Leaf { node: 1, is_true: true },
            NarrowStep::Leaf { node: 2, is_true: false },
            NarrowStep::PromoteAssignments { node: 1 },
            NarrowStep::PromoteAssignments { node: 23 },
        ]
    );
    assert_eq!(narrowing_plan(&not(5, not(6, leaf(7))), true), vec![NarrowStep::Leaf { node: 7, is_true: true }]);
}

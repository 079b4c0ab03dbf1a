//! How a branch condition is taken apart before anything is narrowed:
//! parentheses are looked through, `!` flips the branch, `&&` and `||`
//! narrow both sides only on the branch where both sides were evaluated
//! and hold. Every other condition is a leaf, narrowed by its own rule.
//! Each node carries an id of the caller's, by which the steps name it.
use vstd::prelude::*;

verus! {

/// A condition, as far as its connectives go.
pub enum CondKind {
    Parenthesized(Box<Condition>),
    Not(Box<Condition>),
    /// `&&` / `and`.
    And(Box<Condition>, Box<Condition>),
    /// `||` / `or`.
    Or(Box<Condition>, Box<Condition>),
    /// Any other expression.
    Leaf,
}

pub struct Condition {
    pub id: u64,
    pub kind: CondKind,
}

/// What is done, in order, to narrow on a condition's outcome.
#[derive(Debug, Clone, Copy, PartialEq, Eq, Structural)]
pub enum NarrowStep {
    /// Narrow by the leaf condition `node` having outcome `is_true`.
    Leaf { node: u64, is_true: bool },
    /// The side `node` was certainly evaluated: its assignments happened.
    PromoteAssignments { node: u64 },
    /// `left || right` held: narrow a variable tested by `instanceof` on
    /// both sides to the union of the classes, and read `right` as if
    /// `!isset(..)` on the left were false.
    EitherHeld { left: u64, right: u64 },
}

/// The steps for condition `c` having outcome `is_true`.
pub open spec fn plan(c: Condition, is_true: bool) -> Seq<NarrowStep>
    decreases c,
{
    match c.kind {
        CondKind::Parenthesized(inner) => plan(*inner, is_true),
        CondKind::Not(inner) => plan(*inner, !is_true),
        CondKind::And(l, r) => if is_true {
            plan(*l, true) + plan(*r, true) + seq![
                NarrowStep::PromoteAssignments { node: l.id },
                NarrowStep::PromoteAssignments { node: r.id },
            ]
        } else {
            Seq::empty()
        },
        CondKind::Or(l, r) => if !is_true {
            plan(*l, false) + plan(*r, false) + seq![
                NarrowStep::PromoteAssignments { node: l.id },
                NarrowStep::PromoteAssignments { node: r.id },
            ]
        } else {
            seq![NarrowStep::EitherHeld { left: l.id, right: r.id }]
        },
        CondKind::Leaf => seq![NarrowStep::Leaf { node: c.id, is_true }],
    }
}

fn append(out: &mut Vec<NarrowStep>, more: Vec<NarrowStep>)
    ensures
        final(out)@ == old(out)@ + more@,
{
    let mut more = more;
    let ghost start = out@;
    let ghost m = more@;
    let mut i: usize = 0;
    while i < more.len()
        invariant
            i <= more@.len(),
            more@ == m,
            out@ == start + m.take(i as int),
        decreases more.len() - i,
    {
        out.push(more[i]);
        assert(m.take(i + 1) =~= m.take(i as int).push(m[i as int]));
        i = i + 1;
    }
    assert(m.take(m.len() as int) =~= m);
}

/// The steps, in order, that narrowing on condition `c` having outcome
/// `is_true` takes.
pub fn narrowing_plan(c: &Condition, is_true: bool) -> (r: Vec<NarrowStep>)
    ensures
        r@ == plan(*c, is_true),
    decreases c,
{
    match &c.kind {
        CondKind::Parenthesized(inner) => narrowing_plan(inner, is_true),
        CondKind::Not(inner) => narrowing_plan(inner, !is_true),
        CondKind::And(l, r) => {
            let mut out: Vec<NarrowStep> = Vec::new();
            if is_true {
                out = narrowing_plan(l, true);
                append(&mut out, narrowing_plan(r, true));
                out.push(NarrowStep::PromoteAssignments { node: l.id });
                out.push(NarrowStep::PromoteAssignments { node: r.id });
            }
            assert(out@ =~= plan(*c, is_true));
            out
        },
        CondKind::Or(l, r) => {
            let mut out: Vec<NarrowStep> = Vec::new();
            if !is_true {
                out = narrowing_plan(l, false);
                append(&mut out, narrowing_plan(r, false));
                out.push(NarrowStep::PromoteAssignments { node: l.id });
                out.push(NarrowStep::PromoteAssignments { node: r.id });
            } else {
                out.push(NarrowStep::EitherHeld { left: l.id, right: r.id });
            }
            assert(out@ =~= plan(*c, is_true));
            out
        },
        CondKind::Leaf => {
            let mut out: Vec<NarrowStep> = Vec::new();
            out.push(NarrowStep::Leaf { node: c.id, is_true });
            assert(out@ =~= plan(*c, is_true));
            out
        },
    }
}

/// Parentheses change nothing, a double `!` changes nothing, `!` swaps the
/// branches, and a false `&&` (or a true `||` beyond its one combined step)
/// imposes nothing on its sides.
pub proof fn lemma_connectives(c: Condition, is_true: bool, id1: u64, id2: u64, other: Condition)
    ensures
        plan(Condition { id: id1, kind: CondKind::Parenthesized(Box::new(c)) }, is_true) == plan(c, is_true),
        plan(
            Condition {
                id: id1,
                kind: CondKind::Not(Box::new(Condition { id: id2, kind: CondKind::Not(Box::new(c)) })),
            },
            is_true,
        ) == plan(c, is_true),
        plan(Condition { id: id1, kind: CondKind::Not(Box::new(c)) }, is_true) == plan(c, !is_true),
        plan(Condition { id: id1, kind: CondKind::And(Box::new(c), Box::new(other)) }, false) == Seq::<
            NarrowStep,
        >::empty(),
        plan(Condition { id: id1, kind: CondKind::Or(Box::new(c), Box::new(other)) }, true) == seq![
            NarrowStep::EitherHeld { left: c.id, right: other.id },
        ],
{
    let inner = Condition { id: id2, kind: CondKind::Not(Box::new(c)) };
    assert(plan(inner, !is_true) == plan(c, is_true));
}

/// A leaf is narrowed on the branch its outcome is known for: under `&&`
/// held or `||` failed, each side's leaves get their steps with that
/// outcome, left side first.
pub proof fn lemma_both_sides_narrowed(l: Condition, r: Condition, id: u64)
    ensures
        plan(Condition { id, kind: CondKind::And(Box::new(l), Box::new(r)) }, true).take(
            (plan(l, true).len() + plan(r, true).len()) as int,
        ) == plan(l, true) + plan(r, true),
        plan(Condition { id, kind: CondKind::Or(Box::new(l), Box::new(r)) }, false).take(
            (plan(l, false).len() + plan(r, false).len()) as int,
        ) == plan(l, false) + plan(r, false),
{
    let a = plan(Condition { id, kind: CondKind::And(Box::new(l), Box::new(r)) }, true);
    assert(a.take((plan(l, true).len() + plan(r, true).len()) as int) =~= plan(l, true) + plan(r, true));
    let o = plan(Condition { id, kind: CondKind::Or(Box::new(l), Box::new(r)) }, false);
    assert(o.take((plan(l, false).len() + plan(r, false).len()) as int) =~= plan(l, false) + plan(r, false));
}

} // verus!

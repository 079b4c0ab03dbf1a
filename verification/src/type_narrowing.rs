//! How a comparison narrows a type, atom by atom: `$x === 5`, `$x !== 5`,
//! `$x < 10`, `$x === true`, `$x === 'a'`, `strlen($x) > 0`. A type is a
//! list of atoms; each function gives, in order, the atoms to add to the
//! narrowed type (adding an atom that is already there leaves the type as
//! it was). Atoms whose contents these rules do not read are carried by an
//! id of the caller's.
use vstd::prelude::*;
use crate::narrowing::{
    compares, comparison_bounds, in_bounds, intersect_int_range, lemma_comparison_bounds_exact, range_intersection, ComparisonOp,
};

verus! {

broadcast use vstd::string::group_string_axioms;

/// The atoms of a type that the narrowing rules tell apart.
pub enum Atom {
    Int,
    PositiveInt,
    NonNegativeInt,
    NegativeInt,
    /// `int<min, max>`; a missing end is unbounded.
    IntRange { min: Option<i64>, max: Option<i64> },
    LiteralInt(i64),
    Scalar,
    Numeric,
    Mixed,
    Null,
    Bool,
    True,
    False,
    String,
    NonEmptyString,
    NumericString,
    CallableString,
    /// `class-string` / `class-string<T>`, by the caller's id.
    ClassString(u64),
    /// `interface-string` / `interface-string<T>`, by the caller's id.
    InterfaceString(u64),
    EnumString,
    TraitString,
    LiteralString(String),
    Float,
    /// Any array (keyed or not).
    Array,
    /// An array whose keys are `0..n` in order.
    List,
    /// `object`: some object of unknown class.
    Object,
    /// An instance of the named class.
    Named(String),
    /// An instance of every part at once (`A&B`); each part is one of its
    /// classes (`A&(C|D)`).
    Intersection(Vec<Vec<String>>),
    /// A `Closure(...): R` value.
    Closure,
    Callable,
    /// Any other atom, by the caller's id.
    Other(u64),
}

/// A type: its atoms, and whether it was written in a docblock (as opposed
/// to a declared or inferred type). Narrowing keeps that mark.
pub struct AtomType {
    pub atoms: Vec<Atom>,
    pub from_docblock: bool,
}

pub enum AtomView {
    Int,
    PositiveInt,
    NonNegativeInt,
    NegativeInt,
    IntRange(Option<i64>, Option<i64>),
    LiteralInt(i64),
    Scalar,
    Numeric,
    Mixed,
    Null,
    Bool,
    True,
    False,
    String,
    NonEmptyString,
    NumericString,
    CallableString,
    ClassString(u64),
    InterfaceString(u64),
    EnumString,
    TraitString,
    LiteralString(Seq<char>),
    Float,
    Array,
    List,
    Object,
    Named(Seq<char>),
    Intersection(Seq<Seq<Seq<char>>>),
    Closure,
    Callable,
    Other(u64),
}

pub open spec fn atom_view(a: Atom) -> AtomView {
    match a {
        Atom::Int => AtomView::Int,
        Atom::PositiveInt => AtomView::PositiveInt,
        Atom::NonNegativeInt => AtomView::NonNegativeInt,
        Atom::NegativeInt => AtomView::NegativeInt,
        Atom::IntRange { min, max } => AtomView::IntRange(min, max),
        Atom::LiteralInt(v) => AtomView::LiteralInt(v),
        Atom::Scalar => AtomView::Scalar,
        Atom::Numeric => AtomView::Numeric,
        Atom::Mixed => AtomView::Mixed,
        Atom::Null => AtomView::Null,
        Atom::Bool => AtomView::Bool,
        Atom::True => AtomView::True,
        Atom::False => AtomView::False,
        Atom::String => AtomView::String,
        Atom::NonEmptyString => AtomView::NonEmptyString,
        Atom::NumericString => AtomView::NumericString,
        Atom::CallableString => AtomView::CallableString,
        Atom::ClassString(id) => AtomView::ClassString(id),
        Atom::InterfaceString(id) => AtomView::InterfaceString(id),
        Atom::EnumString => AtomView::EnumString,
        Atom::TraitString => AtomView::TraitString,
        Atom::LiteralString(s) => AtomView::LiteralString(s@),
        Atom::Float => AtomView::Float,
        Atom::Array => AtomView::Array,
        Atom::List => AtomView::List,
        Atom::Object => AtomView::Object,
        Atom::Named(n) => AtomView::Named(n@),
        Atom::Intersection(ps) => AtomView::Intersection(parts_view(ps@)),
        Atom::Closure => AtomView::Closure,
        Atom::Callable => AtomView::Callable,
        Atom::Other(id) => AtomView::Other(id),
    }
}

pub open spec fn atoms_view(ts: Seq<Atom>) -> Seq<AtomView> {
    ts.map_values(|a: Atom| atom_view(a))
}

/// The atoms a type narrows to: each atom's contribution, in order.
pub open spec fn narrowed_by(ts: Seq<AtomView>, step: spec_fn(AtomView) -> Seq<AtomView>) -> Seq<AtomView>
    decreases ts.len(),
{
    if ts.len() == 0 {
        Seq::empty()
    } else {
        narrowed_by(ts.drop_last(), step) + step(ts.last())
    }
}

/// A copy of the class names `ns`.
pub(crate) fn copy_names(ns: &Vec<String>) -> (r: Vec<String>)
    ensures
        r@.map_values(|n: String| n@) == ns@.map_values(|n: String| n@),
{
    let mut out: Vec<String> = Vec::new();
    let mut i: usize = 0;
    while i < ns.len()
        invariant
            i <= ns@.len(),
            out@.len() == i,
            forall|k: int| 0 <= k < i ==> (#[trigger] out@[k])@ == ns@[k]@,
        decreases ns.len() - i,
    {
        out.push(ns[i].clone());
        i = i + 1;
    }
    assert(out@.map_values(|n: String| n@) =~= ns@.map_values(|n: String| n@));
    out
}

/// The class names of each part of an intersection.
pub open spec fn parts_view(ps: Seq<Vec<String>>) -> Seq<Seq<Seq<char>>> {
    ps.map_values(|p: Vec<String>| p@.map_values(|n: String| n@))
}

/// A copy of the parts `ps`.
pub(crate) fn copy_parts(ps: &Vec<Vec<String>>) -> (r: Vec<Vec<String>>)
    ensures
        parts_view(r@) == parts_view(ps@),
{
    let mut out: Vec<Vec<String>> = Vec::new();
    let mut i: usize = 0;
    while i < ps.len()
        invariant
            i <= ps@.len(),
            out@.len() == i,
            forall|k: int| 0 <= k < i ==> (#[trigger] out@[k])@.map_values(|n: String| n@) == ps@[k]@.map_values(|n: String| n@),
        decreases ps.len() - i,
    {
        out.push(copy_names(&ps[i]));
        i = i + 1;
    }
    assert(parts_view(out@) =~= parts_view(ps@));
    out
}

pub(crate) fn copy_atom(a: &Atom) -> (r: Atom)
    ensures
        atom_view(r) == atom_view(*a),
{
    match a {
        Atom::Int => Atom::Int,
        Atom::PositiveInt => Atom::PositiveInt,
        Atom::NonNegativeInt => Atom::NonNegativeInt,
        Atom::NegativeInt => Atom::NegativeInt,
        Atom::IntRange { min, max } => Atom::IntRange { min: *min, max: *max },
        Atom::LiteralInt(v) => Atom::LiteralInt(*v),
        Atom::Scalar => Atom::Scalar,
        Atom::Numeric => Atom::Numeric,
        Atom::Mixed => Atom::Mixed,
        Atom::Null => Atom::Null,
        Atom::Bool => Atom::Bool,
        Atom::True => Atom::True,
        Atom::False => Atom::False,
        Atom::String => Atom::String,
        Atom::NonEmptyString => Atom::NonEmptyString,
        Atom::NumericString => Atom::NumericString,
        Atom::CallableString => Atom::CallableString,
        Atom::ClassString(id) => Atom::ClassString(*id),
        Atom::InterfaceString(id) => Atom::InterfaceString(*id),
        Atom::EnumString => Atom::EnumString,
        Atom::TraitString => Atom::TraitString,
        Atom::LiteralString(s) => Atom::LiteralString(s.clone()),
        Atom::Float => Atom::Float,
        Atom::Array => Atom::Array,
        Atom::List => Atom::List,
        Atom::Object => Atom::Object,
        Atom::Named(n) => Atom::Named(n.clone()),
        Atom::Intersection(ps) => Atom::Intersection(copy_parts(ps)),
        Atom::Closure => Atom::Closure,
        Atom::Callable => Atom::Callable,
        Atom::Other(id) => Atom::Other(*id),
    }
}

// ----- int<min, max> -----

/// The atom for an intersected range, unless the range is empty.
pub open spec fn range_atom(
    existing_min: Option<i64>,
    existing_max: Option<i64>,
    min: Option<i64>,
    max: Option<i64>,
) -> Seq<AtomView> {
    match range_intersection(existing_min, existing_max, min, max) {
        Some((lo, hi)) => seq![AtomView::IntRange(lo, hi)],
        None => Seq::empty(),
    }
}

/// What one atom becomes once the value is known to lie in `[min, max]`:
/// integer kinds are intersected with the range (an empty intersection drops
/// them), literals outside it are dropped, everything else is kept.
pub open spec fn int_range_step(a: AtomView, min: Option<i64>, max: Option<i64>) -> Seq<AtomView> {
    match a {
        AtomView::Int => range_atom(None, None, min, max),
        AtomView::PositiveInt => range_atom(Some(1i64), None, min, max),
        AtomView::NonNegativeInt => range_atom(Some(0i64), None, min, max),
        AtomView::NegativeInt => range_atom(None, Some(-1i64), min, max),
        AtomView::IntRange(lo, hi) => range_atom(lo, hi, min, max),
        AtomView::LiteralInt(v) => if in_bounds(v as int, (min, max)) {
            seq![a]
        } else {
            Seq::empty()
        },
        _ => seq![a],
    }
}

pub open spec fn int_range_narrowed(ts: Seq<AtomView>, min: Option<i64>, max: Option<i64>) -> Seq<AtomView> {
    narrowed_by(ts, |a: AtomView| int_range_step(a, min, max))
}

fn range_atom_exec(
    out: &mut Vec<Atom>,
    existing_min: Option<i64>,
    existing_max: Option<i64>,
    min: Option<i64>,
    max: Option<i64>,
)
    ensures
        atoms_view(final(out)@) == atoms_view(old(out)@) + range_atom(existing_min, existing_max, min, max),
{
    match intersect_int_range(existing_min, existing_max, min, max) {
        Some((lo, hi)) => {
            out.push(Atom::IntRange { min: lo, max: hi });
            proof {
                assert(atoms_view(out@) =~= atoms_view(old(out)@) + range_atom(existing_min, existing_max, min, max));
            }
        },
        None => {
            proof {
                assert(atoms_view(out@) =~= atoms_view(old(out)@) + range_atom(existing_min, existing_max, min, max));
            }
        },
    }
}

pub(crate) fn push_atom(out: &mut Vec<Atom>, a: Atom)
    ensures
        atoms_view(final(out)@) == atoms_view(old(out)@).push(atom_view(a)),
{
    out.push(a);
    proof {
        assert(atoms_view(out@) =~= atoms_view(old(out)@).push(atom_view(a)));
    }
}

fn int_range_step_exec(out: &mut Vec<Atom>, a: &Atom, min: Option<i64>, max: Option<i64>)
    ensures
        atoms_view(final(out)@) == atoms_view(old(out)@) + int_range_step(atom_view(*a), min, max),
{
    match a {
        Atom::Int => range_atom_exec(out, None, None, min, max),
        Atom::PositiveInt => range_atom_exec(out, Some(1), None, min, max),
        Atom::NonNegativeInt => range_atom_exec(out, Some(0), None, min, max),
        Atom::NegativeInt => range_atom_exec(out, None, Some(-1), min, max),
        Atom::IntRange { min: lo, max: hi } => range_atom_exec(out, *lo, *hi, min, max),
        Atom::LiteralInt(v) => {
            let inside = (match min {
                Some(lo) => *v >= lo,
                None => true,
            }) && (match max {
                Some(hi) => *v <= hi,
                None => true,
            });
            if inside {
                push_atom(out, Atom::LiteralInt(*v));
            } else {
                assert(atoms_view(out@) =~= atoms_view(old(out)@) + int_range_step(atom_view(*a), min, max));
            }
        },
        _ => {
            let c = copy_atom(a);
            push_atom(out, c);
            assert(atoms_view(out@) =~= atoms_view(old(out)@) + int_range_step(atom_view(*a), min, max));
        },
    }
}

/// The atoms of a type once its value is known to lie in `[min, max]`.
fn narrow_to_int_range_atoms(ts: &Vec<Atom>, min: Option<i64>, max: Option<i64>) -> (r: Vec<Atom>)
    ensures
        atoms_view(r@) == int_range_narrowed(atoms_view(ts@), min, max),
{
    let ghost tv = atoms_view(ts@);
    let mut out: Vec<Atom> = Vec::new();
    let mut i: usize = 0;
    while i < ts.len()
        invariant
            i <= ts@.len(),
            tv == atoms_view(ts@),
            atoms_view(out@) == int_range_narrowed(tv.take(i as int), min, max),
        decreases ts.len() - i,
    {
        int_range_step_exec(&mut out, &ts[i], min, max);
        proof {
            assert(tv.take(i + 1).drop_last() =~= tv.take(i as int));
            assert(tv.take(i + 1).last() == atom_view(ts@[i as int]));
        }
        i = i + 1;
    }
    assert(tv.take(ts@.len() as int) =~= tv);
    out
}

// ----- `$x === n` / `$x !== n` -----

/// `v` lies in `[min, max]`.
pub open spec fn contains_value(min: Option<i64>, max: Option<i64>, v: i64) -> bool {
    in_bounds(v as int, (min, max))
}

/// A range with `value` taken off an end it sits on (`None` when `value` is
/// at neither end). Nothing lies past `i64`'s ends, so taking off an end
/// there leaves the empty range `[i64::MAX, i64::MIN]`.
pub open spec fn tightened_bounds(min: Option<i64>, max: Option<i64>, value: i64) -> Option<(Option<i64>, Option<i64>)> {
    if min == Some(value) {
        if value < i64::MAX {
            Some((Some((value + 1) as i64), max))
        } else {
            Some((Some(i64::MAX), Some(i64::MIN)))
        }
    } else if max == Some(value) {
        if value > i64::MIN {
            Some((min, Some((value - 1) as i64)))
        } else {
            Some((Some(i64::MAX), Some(i64::MIN)))
        }
    } else {
        None
    }
}

/// The atom a range is written as: the named kinds where one fits.
pub open spec fn canonical_range(min: Option<i64>, max: Option<i64>) -> AtomView {
    if min == Some(1i64) && max is None {
        AtomView::PositiveInt
    } else if min == Some(0i64) && max is None {
        AtomView::NonNegativeInt
    } else if min is None && max == Some(-1i64) {
        AtomView::NegativeInt
    } else if min is None && max is None {
        AtomView::Int
    } else {
        AtomView::IntRange(min, max)
    }
}

/// `value` taken off an int kind with bounds `[min, max]`: the tightened
/// atom, or the atom itself when `value` is at neither end.
pub open spec fn excluded_from(a: AtomView, min: Option<i64>, max: Option<i64>, value: i64) -> AtomView {
    match tightened_bounds(min, max, value) {
        Some((lo, hi)) => canonical_range(lo, hi),
        None => a,
    }
}

pub open spec fn empty_range_atom(a: AtomView) -> bool {
    match a {
        AtomView::IntRange(Some(lo), Some(hi)) => lo > hi,
        _ => false,
    }
}

/// What one atom becomes when the value is (`is_value`) or is not the
/// integer `value`. Equal: kinds that can hold `value` become the literal,
/// the literal itself stays, all else goes. Not equal: the literal goes, a
/// named kind or range with `value` at an end is tightened (a range that
/// tightening leaves empty goes), all else stays.
pub open spec fn literal_int_step(a: AtomView, value: i64, is_value: bool) -> Seq<AtomView> {
    if is_value {
        match a {
            AtomView::LiteralInt(n) => if n == value {
                seq![a]
            } else {
                Seq::empty()
            },
            AtomView::Int | AtomView::Scalar | AtomView::Numeric | AtomView::Mixed => seq![
                AtomView::LiteralInt(value),
            ],
            AtomView::IntRange(lo, hi) => if contains_value(lo, hi, value) {
                seq![AtomView::LiteralInt(value)]
            } else {
                Seq::empty()
            },
            AtomView::PositiveInt => if value >= 1 {
                seq![AtomView::LiteralInt(value)]
            } else {
                Seq::empty()
            },
            AtomView::NonNegativeInt => if value >= 0 {
                seq![AtomView::LiteralInt(value)]
            } else {
                Seq::empty()
            },
            AtomView::NegativeInt => if value <= -1 {
                seq![AtomView::LiteralInt(value)]
            } else {
                Seq::empty()
            },
            _ => Seq::empty(),
        }
    } else {
        match a {
            AtomView::LiteralInt(n) => if n == value {
                Seq::empty()
            } else {
                seq![a]
            },
            AtomView::IntRange(lo, hi) => match tightened_bounds(lo, hi, value) {
                Some((l, h)) => if empty_range_atom(canonical_range(l, h)) {
                    Seq::empty()
                } else {
                    seq![canonical_range(l, h)]
                },
                None => seq![a],
            },
            AtomView::PositiveInt => seq![excluded_from(a, Some(1i64), None, value)],
            AtomView::NonNegativeInt => seq![excluded_from(a, Some(0i64), None, value)],
            AtomView::NegativeInt => seq![excluded_from(a, None, Some(-1i64), value)],
            _ => seq![a],
        }
    }
}

pub open spec fn literal_int_narrowed(ts: Seq<AtomView>, value: i64, is_value: bool) -> Seq<AtomView> {
    narrowed_by(ts, |a: AtomView| literal_int_step(a, value, is_value))
}

fn canonical_range_exec(min: Option<i64>, max: Option<i64>) -> (r: Atom)
    ensures
        atom_view(r) == canonical_range(min, max),
{
    match (min, max) {
        (Some(1), None) => Atom::PositiveInt,
        (Some(0), None) => Atom::NonNegativeInt,
        (None, Some(-1)) => Atom::NegativeInt,
        (None, None) => Atom::Int,
        (lo, hi) => Atom::IntRange { min: lo, max: hi },
    }
}

fn tighten(min: Option<i64>, max: Option<i64>, value: i64) -> (r: Option<Atom>)
    ensures
        match tightened_bounds(min, max, value) {
            Some((lo, hi)) => r matches Some(t) && atom_view(t) == canonical_range(lo, hi),
            None => r is None,
        },
{
    let bounds = if min == Some(value) {
        match value.checked_add(1) {
            Some(v) => (Some(v), max),
            None => (Some(i64::MAX), Some(i64::MIN)),
        }
    } else if max == Some(value) {
        match value.checked_sub(1) {
            Some(v) => (min, Some(v)),
            None => (Some(i64::MAX), Some(i64::MIN)),
        }
    } else {
        return None;
    };
    Some(canonical_range_exec(bounds.0, bounds.1))
}

fn literal_int_step_exec(out: &mut Vec<Atom>, a: &Atom, value: i64, is_value: bool)
    ensures
        atoms_view(final(out)@) == atoms_view(old(out)@) + literal_int_step(atom_view(*a), value, is_value),
{
    let ghost o = atoms_view(out@);
    let ghost s = literal_int_step(atom_view(*a), value, is_value);
    if is_value {
        let keep = match a {
            Atom::LiteralInt(n) => *n == value,
            Atom::Int | Atom::Scalar | Atom::Numeric | Atom::Mixed => true,
            Atom::IntRange { min, max } => (match min {
                Some(lo) => value >= *lo,
                None => true,
            }) && (match max {
                Some(hi) => value <= *hi,
                None => true,
            }),
            Atom::PositiveInt => value >= 1,
            Atom::NonNegativeInt => value >= 0,
            Atom::NegativeInt => value <= -1,
            _ => false,
        };
        if keep {
            push_atom(out, Atom::LiteralInt(value));
        }
        assert(atoms_view(out@) =~= o + s);
    } else {
        exclude_int_step_exec(out, a, value);
    }
}

fn exclude_int_step_exec(out: &mut Vec<Atom>, a: &Atom, value: i64)
    ensures
        atoms_view(final(out)@) == atoms_view(old(out)@) + literal_int_step(atom_view(*a), value, false),
{
    let ghost o = atoms_view(out@);
    let ghost s = literal_int_step(atom_view(*a), value, false);
    match a {
        Atom::LiteralInt(n) => {
            if *n != value {
                push_atom(out, Atom::LiteralInt(*n));
            }
            assert(atoms_view(out@) =~= o + s);
        },
        Atom::IntRange { min, max } => {
            match tighten(*min, *max, value) {
                Some(t) => {
                    let empty = match &t {
                        Atom::IntRange { min: Some(lo), max: Some(hi) } => *lo > *hi,
                        _ => false,
                    };
                    assert(empty == empty_range_atom(atom_view(t)));
                    if !empty {
                        push_atom(out, t);
                    }
                    assert(atoms_view(out@) =~= o + s);
                },
                None => {
                    push_atom(out, Atom::IntRange { min: *min, max: *max });
                    assert(atoms_view(out@) =~= o + s);
                },
            }
        },
        Atom::PositiveInt => {
            match tighten(Some(1), None, value) {
                Some(t) => push_atom(out, t),
                None => push_atom(out, Atom::PositiveInt),
            }
            assert(atoms_view(out@) =~= o + s);
        },
        Atom::NonNegativeInt => {
            match tighten(Some(0), None, value) {
                Some(t) => push_atom(out, t),
                None => push_atom(out, Atom::NonNegativeInt),
            }
            assert(atoms_view(out@) =~= o + s);
        },
        Atom::NegativeInt => {
            match tighten(None, Some(-1), value) {
                Some(t) => push_atom(out, t),
                None => push_atom(out, Atom::NegativeInt),
            }
            assert(atoms_view(out@) =~= o + s);
        },
        _ => {
            let c = copy_atom(a);
            push_atom(out, c);
            assert(atoms_view(out@) =~= o + s);
        },
    }
}

/// The atoms of a type once its value is known to be (`is_value`) or not
/// to be the integer `value`.
fn literal_int_narrow_atoms(ts: &Vec<Atom>, value: i64, is_value: bool) -> (r: Vec<Atom>)
    ensures
        atoms_view(r@) == literal_int_narrowed(atoms_view(ts@), value, is_value),
{
    let ghost tv = atoms_view(ts@);
    let mut out: Vec<Atom> = Vec::new();
    let mut i: usize = 0;
    while i < ts.len()
        invariant
            i <= ts@.len(),
            tv == atoms_view(ts@),
            atoms_view(out@) == literal_int_narrowed(tv.take(i as int), value, is_value),
        decreases ts.len() - i,
    {
        literal_int_step_exec(&mut out, &ts[i], value, is_value);
        proof {
            assert(tv.take(i + 1).drop_last() =~= tv.take(i as int));
            assert(tv.take(i + 1).last() == atom_view(ts@[i as int]));
        }
        i = i + 1;
    }
    assert(tv.take(ts@.len() as int) =~= tv);
    out
}

// ----- `$x === true` / `$x !== false` -----

pub open spec fn bool_literal(b: bool) -> AtomView {
    if b {
        AtomView::True
    } else {
        AtomView::False
    }
}

/// What one atom becomes when the value is (`is_value`) or is not the
/// boolean `value`: `bool` splits into the literal that remains, `true` and
/// `false` stay when they agree, `mixed` and `scalar` become the literal on a
/// match and stay otherwise, and every other atom stays only on a mismatch.
pub open spec fn bool_step(a: AtomView, value: bool, is_value: bool) -> Seq<AtomView> {
    match a {
        AtomView::Bool => seq![bool_literal(if is_value { value } else { !value })],
        AtomView::True => if is_value == value {
            seq![a]
        } else {
            Seq::empty()
        },
        AtomView::False => if is_value != value {
            seq![a]
        } else {
            Seq::empty()
        },
        AtomView::Mixed | AtomView::Scalar => if is_value {
            seq![bool_literal(value)]
        } else {
            seq![a]
        },
        _ => if is_value {
            Seq::empty()
        } else {
            seq![a]
        },
    }
}

pub open spec fn bool_narrowed(ts: Seq<AtomView>, value: bool, is_value: bool) -> Seq<AtomView> {
    narrowed_by(ts, |a: AtomView| bool_step(a, value, is_value))
}

fn bool_atom(b: bool) -> (r: Atom)
    ensures
        atom_view(r) == bool_literal(b),
{
    if b {
        Atom::True
    } else {
        Atom::False
    }
}

fn bool_step_exec(out: &mut Vec<Atom>, a: &Atom, value: bool, is_value: bool)
    ensures
        atoms_view(final(out)@) == atoms_view(old(out)@) + bool_step(atom_view(*a), value, is_value),
{
    let ghost o = atoms_view(out@);
    let ghost s = bool_step(atom_view(*a), value, is_value);
    match a {
        Atom::Bool => {
            let lit = if is_value {
                value
            } else {
                !value
            };
            push_atom(out, bool_atom(lit));
        },
        Atom::True => {
            if is_value == value {
                push_atom(out, Atom::True);
            }
        },
        Atom::False => {
            if is_value != value {
                push_atom(out, Atom::False);
            }
        },
        Atom::Mixed | Atom::Scalar => {
            if is_value {
                push_atom(out, bool_atom(value));
            } else {
                let c = copy_atom(a);
                push_atom(out, c);
            }
        },
        _ => {
            if !is_value {
                let c = copy_atom(a);
                push_atom(out, c);
            }
        },
    }
    assert(atoms_view(out@) =~= o + s);
}

/// The atoms of a type once its value is known to be (`is_value`) or not
/// to be the boolean `value`.
fn bool_narrow_atoms(ts: &Vec<Atom>, value: bool, is_value: bool) -> (r: Vec<Atom>)
    ensures
        atoms_view(r@) == bool_narrowed(atoms_view(ts@), value, is_value),
{
    let ghost tv = atoms_view(ts@);
    let mut out: Vec<Atom> = Vec::new();
    let mut i: usize = 0;
    while i < ts.len()
        invariant
            i <= ts@.len(),
            tv == atoms_view(ts@),
            atoms_view(out@) == bool_narrowed(tv.take(i as int), value, is_value),
        decreases ts.len() - i,
    {
        bool_step_exec(&mut out, &ts[i], value, is_value);
        proof {
            assert(tv.take(i + 1).drop_last() =~= tv.take(i as int));
            assert(tv.take(i + 1).last() == atom_view(ts@[i as int]));
        }
        i = i + 1;
    }
    assert(tv.take(ts@.len() as int) =~= tv);
    out
}

// ----- `$x === 'a'` / `$x !== 'a'` -----

/// What one atom becomes when the value is (`is_value`) the string `value`:
/// the same literal stays, string kinds that can hold `value` become the
/// literal (`non-empty-string` only for a non-empty `value`,
/// `numeric-string` only for a numeric one), and all else goes. When the
/// value is not `value`, only that literal goes.
pub open spec fn literal_string_step(a: AtomView, value: Seq<char>, value_is_numeric: bool, is_value: bool) -> Seq<
    AtomView,
> {
    if is_value {
        match a {
            AtomView::LiteralString(s) => if s == value {
                seq![a]
            } else {
                Seq::empty()
            },
            AtomView::String | AtomView::Scalar | AtomView::Mixed => seq![AtomView::LiteralString(value)],
            AtomView::NonEmptyString => if value.len() > 0 {
                seq![AtomView::LiteralString(value)]
            } else {
                Seq::empty()
            },
            AtomView::NumericString => if value_is_numeric {
                seq![AtomView::LiteralString(value)]
            } else {
                Seq::empty()
            },
            AtomView::CallableString | AtomView::ClassString(_) | AtomView::InterfaceString(_)
            | AtomView::EnumString | AtomView::TraitString => seq![AtomView::LiteralString(value)],
            _ => Seq::empty(),
        }
    } else {
        match a {
            AtomView::LiteralString(s) => if s == value {
                Seq::empty()
            } else {
                seq![a]
            },
            _ => seq![a],
        }
    }
}

pub open spec fn literal_string_narrowed(
    ts: Seq<AtomView>,
    value: Seq<char>,
    value_is_numeric: bool,
    is_value: bool,
) -> Seq<AtomView> {
    narrowed_by(ts, |a: AtomView| literal_string_step(a, value, value_is_numeric, is_value))
}

fn same_text(a: &String, b: &str) -> (r: bool)
    ensures
        r == (a@ == b@),
{
    let x = crate::text::chars_of(a.as_str());
    let y = crate::text::chars_of(b);
    crate::docblock::validate::chars_eq(x.as_slice(), y.as_slice())
}

fn literal_string_step_exec(out: &mut Vec<Atom>, a: &Atom, value: &str, value_is_numeric: bool, is_value: bool)
    ensures
        atoms_view(final(out)@) == atoms_view(old(out)@) + literal_string_step(
            atom_view(*a),
            value@,
            value_is_numeric,
            is_value,
        ),
{
    let ghost o = atoms_view(out@);
    let ghost s = literal_string_step(atom_view(*a), value@, value_is_numeric, is_value);
    if is_value {
        let becomes_literal = match a {
            Atom::LiteralString(t) => same_text(t, value),
            Atom::String | Atom::Scalar | Atom::Mixed => true,
            Atom::NonEmptyString => value.unicode_len() > 0,
            Atom::NumericString => value_is_numeric,
            Atom::CallableString | Atom::ClassString(_) | Atom::InterfaceString(_) | Atom::EnumString
            | Atom::TraitString => true,
            _ => false,
        };
        if becomes_literal {
            push_atom(out, Atom::LiteralString(String::from_str(value)));
        }
    } else {
        let dropped = match a {
            Atom::LiteralString(t) => same_text(t, value),
            _ => false,
        };
        if !dropped {
            let c = copy_atom(a);
            push_atom(out, c);
        }
    }
    assert(atoms_view(out@) =~= o + s);
}

/// The atoms of a type once its value is known to be (`is_value`) or not
/// to be the string `value`; `value_is_numeric` says whether `value` is a
/// PHP numeric string.
fn literal_string_narrow_atoms(ts: &Vec<Atom>, value: &str, value_is_numeric: bool, is_value: bool) -> (r: Vec<Atom>)
    ensures
        atoms_view(r@) == literal_string_narrowed(atoms_view(ts@), value@, value_is_numeric, is_value),
{
    let ghost tv = atoms_view(ts@);
    let mut out: Vec<Atom> = Vec::new();
    let mut i: usize = 0;
    while i < ts.len()
        invariant
            i <= ts@.len(),
            tv == atoms_view(ts@),
            atoms_view(out@) == literal_string_narrowed(tv.take(i as int), value@, value_is_numeric, is_value),
        decreases ts.len() - i,
    {
        literal_string_step_exec(&mut out, &ts[i], value, value_is_numeric, is_value);
        proof {
            assert(tv.take(i + 1).drop_last() =~= tv.take(i as int));
            assert(tv.take(i + 1).last() == atom_view(ts@[i as int]));
        }
        i = i + 1;
    }
    assert(tv.take(ts@.len() as int) =~= tv);
    out
}

// ----- string length -----

/// Once a string is known to be non-empty: `string` becomes
/// `non-empty-string`, the empty literal goes, all else stays.
pub open spec fn non_empty_step(a: AtomView) -> Seq<AtomView> {
    match a {
        AtomView::String => seq![AtomView::NonEmptyString],
        AtomView::LiteralString(s) => if s.len() == 0 {
            Seq::empty()
        } else {
            seq![a]
        },
        _ => seq![a],
    }
}

/// Once a string is known to be empty: kinds that are never `""` go
/// (`non-empty-string`, `numeric-string`, `class-string`, `callable-string`,
/// non-empty literals), all else stays.
pub open spec fn empty_step(a: AtomView) -> Seq<AtomView> {
    match a {
        AtomView::NonEmptyString | AtomView::NumericString | AtomView::ClassString(_)
        | AtomView::CallableString => Seq::empty(),
        AtomView::LiteralString(s) => if s.len() == 0 {
            seq![a]
        } else {
            Seq::empty()
        },
        _ => seq![a],
    }
}

fn string_length_step_exec(out: &mut Vec<Atom>, a: &Atom, non_empty: bool)
    ensures
        atoms_view(final(out)@) == atoms_view(old(out)@) + (if non_empty {
            non_empty_step(atom_view(*a))
        } else {
            empty_step(atom_view(*a))
        }),
{
    let ghost o = atoms_view(out@);
    let ghost s = if non_empty {
        non_empty_step(atom_view(*a))
    } else {
        empty_step(atom_view(*a))
    };
    if non_empty {
        match a {
            Atom::String => push_atom(out, Atom::NonEmptyString),
            Atom::LiteralString(t) => {
                if t.unicode_len() > 0 {
                    push_atom(out, Atom::LiteralString(t.clone()));
                }
            },
            _ => {
                let c = copy_atom(a);
                push_atom(out, c);
            },
        }
    } else {
        let keep = match a {
            Atom::NonEmptyString | Atom::NumericString | Atom::ClassString(_) | Atom::CallableString => false,
            Atom::LiteralString(t) => t.unicode_len() == 0,
            _ => true,
        };
        if keep {
            let c = copy_atom(a);
            push_atom(out, c);
        }
    }
    assert(atoms_view(out@) =~= o + s);
}

/// The atoms of a string type once it is known to be non-empty
/// (`non_empty`) or known to be empty.
fn narrow_string_length_atoms(ts: &Vec<Atom>, non_empty: bool) -> (r: Vec<Atom>)
    ensures
        atoms_view(r@) == (if non_empty {
            narrowed_by(atoms_view(ts@), |a: AtomView| non_empty_step(a))
        } else {
            narrowed_by(atoms_view(ts@), |a: AtomView| empty_step(a))
        }),
{
    let ghost tv = atoms_view(ts@);
    let ghost step = if non_empty {
        |a: AtomView| non_empty_step(a)
    } else {
        |a: AtomView| empty_step(a)
    };
    let mut out: Vec<Atom> = Vec::new();
    let mut i: usize = 0;
    while i < ts.len()
        invariant
            i <= ts@.len(),
            tv == atoms_view(ts@),
            step == (if non_empty {
                |a: AtomView| non_empty_step(a)
            } else {
                |a: AtomView| empty_step(a)
            }),
            atoms_view(out@) == narrowed_by(tv.take(i as int), step),
        decreases ts.len() - i,
    {
        string_length_step_exec(&mut out, &ts[i], non_empty);
        proof {
            assert(tv.take(i + 1).drop_last() =~= tv.take(i as int));
            assert(tv.take(i + 1).last() == atom_view(ts@[i as int]));
        }
        i = i + 1;
    }
    assert(tv.take(ts@.len() as int) =~= tv);
    out
}

/// The type once its value is known to lie in `[min, max]`.
pub fn narrow_to_int_range(t: &AtomType, min: Option<i64>, max: Option<i64>) -> (r: AtomType)
    ensures
        atoms_view(r.atoms@) == int_range_narrowed(atoms_view(t.atoms@), min, max),
        r.from_docblock == t.from_docblock,
{
    AtomType { atoms: narrow_to_int_range_atoms(&t.atoms, min, max), from_docblock: t.from_docblock }
}

/// The type once its value is known to be (`is_value`) or not to be the
/// integer `value`.
pub fn literal_int_narrow(t: &AtomType, value: i64, is_value: bool) -> (r: AtomType)
    ensures
        atoms_view(r.atoms@) == literal_int_narrowed(atoms_view(t.atoms@), value, is_value),
        r.from_docblock == t.from_docblock,
{
    AtomType { atoms: literal_int_narrow_atoms(&t.atoms, value, is_value), from_docblock: t.from_docblock }
}

/// The type once its value is known to be (`is_value`) or not to be the
/// boolean `value`.
pub fn bool_narrow(t: &AtomType, value: bool, is_value: bool) -> (r: AtomType)
    ensures
        atoms_view(r.atoms@) == bool_narrowed(atoms_view(t.atoms@), value, is_value),
        r.from_docblock == t.from_docblock,
{
    AtomType { atoms: bool_narrow_atoms(&t.atoms, value, is_value), from_docblock: t.from_docblock }
}

/// The type once its value is known to be (`is_value`) or not to be the
/// string `value`; `value_is_numeric` says whether `value` is a PHP numeric
/// string.
pub fn literal_string_narrow(t: &AtomType, value: &str, value_is_numeric: bool, is_value: bool) -> (r: AtomType)
    ensures
        atoms_view(r.atoms@) == literal_string_narrowed(atoms_view(t.atoms@), value@, value_is_numeric, is_value),
        r.from_docblock == t.from_docblock,
{
    AtomType {
        atoms: literal_string_narrow_atoms(&t.atoms, value, value_is_numeric, is_value),
        from_docblock: t.from_docblock,
    }
}

/// The string type once it is known to be non-empty (`non_empty`) or known
/// to be empty.
pub fn narrow_string_length(t: &AtomType, non_empty: bool) -> (r: AtomType)
    ensures
        atoms_view(r.atoms@) == (if non_empty {
            narrowed_by(atoms_view(t.atoms@), |a: AtomView| non_empty_step(a))
        } else {
            narrowed_by(atoms_view(t.atoms@), |a: AtomView| empty_step(a))
        }),
        r.from_docblock == t.from_docblock,
{
    AtomType { atoms: narrow_string_length_atoms(&t.atoms, non_empty), from_docblock: t.from_docblock }
}

// ----- laws -----

/// When every atom's contribution satisfies `p`, so does every atom of the
/// narrowed type.
pub proof fn lemma_narrowed_all(
    ts: Seq<AtomView>,
    step: spec_fn(AtomView) -> Seq<AtomView>,
    p: spec_fn(AtomView) -> bool,
)
    requires
        forall|a: AtomView, j: int| 0 <= j < step(a).len() ==> p(#[trigger] step(a)[j]),
    ensures
        forall|j: int| 0 <= j < narrowed_by(ts, step).len() ==> p(#[trigger] narrowed_by(ts, step)[j]),
    decreases ts.len(),
{
    if ts.len() > 0 {
        lemma_narrowed_all(ts.drop_last(), step, p);
        let pre = narrowed_by(ts.drop_last(), step);
        let last = step(ts.last());
        assert forall|j: int| 0 <= j < narrowed_by(ts, step).len() implies p(#[trigger] narrowed_by(ts, step)[j]) by {
            if j < pre.len() {
                assert(narrowed_by(ts, step)[j] == pre[j]);
            } else {
                assert(narrowed_by(ts, step)[j] == last[j - pre.len()]);
            }
        }
    }
}

/// The integer atoms: `int`, its sign-bounded forms, ranges and literals.
pub open spec fn integer_atom(a: AtomView) -> bool {
    a is Int || a is PositiveInt || a is NonNegativeInt || a is NegativeInt || a is IntRange || a is LiteralInt
}

/// The string atoms: `string`, its refinements, class-like strings and
/// literals.
pub open spec fn string_atom(a: AtomView) -> bool {
    a is String || a is NonEmptyString || a is NumericString || a is CallableString || a is ClassString
        || a is InterfaceString || a is EnumString || a is TraitString || a is LiteralString
}

/// The boolean atoms.
pub open spec fn boolean_atom(a: AtomView) -> bool {
    a is Bool || a is True || a is False
}

/// When every atom `p` holds of is among its own contribution, every such
/// atom of the type is in the narrowed type.
pub proof fn lemma_narrowed_keeps(
    ts: Seq<AtomView>,
    step: spec_fn(AtomView) -> Seq<AtomView>,
    p: spec_fn(AtomView) -> bool,
)
    requires
        forall|a: AtomView| #[trigger] p(a) ==> step(a).contains(a),
    ensures
        forall|j: int| 0 <= j < ts.len() && p(#[trigger] ts[j]) ==> narrowed_by(ts, step).contains(ts[j]),
    decreases ts.len(),
{
    if ts.len() > 0 {
        let pre = ts.drop_last();
        lemma_narrowed_keeps(pre, step, p);
        let whole = narrowed_by(ts, step);
        let head = narrowed_by(pre, step);
        assert(whole == head + step(ts.last()));
        assert forall|j: int| 0 <= j < ts.len() && p(#[trigger] ts[j]) implies whole.contains(ts[j]) by {
            if j < ts.len() - 1 {
                assert(ts[j] == pre[j]);
                let k = choose|k: int| 0 <= k < head.len() && #[trigger] head[k] == pre[j];
                assert(whole[k] == head[k]);
            } else {
                assert(ts[j] == ts.last());
                let last = step(ts.last());
                assert(last.contains(ts.last()));
                let k = choose|k: int| 0 <= k < last.len() && #[trigger] last[k] == ts.last();
                assert(whole[head.len() + k] == last[k]);
            }
        }
    }
}

/// What one atom contributes is in the narrowed type.
pub proof fn lemma_narrowed_has(ts: Seq<AtomView>, step: spec_fn(AtomView) -> Seq<AtomView>, j: int, x: AtomView)
    requires
        0 <= j < ts.len(),
        step(ts[j]).contains(x),
    ensures
        narrowed_by(ts, step).contains(x),
    decreases ts.len(),
{
    let pre = ts.drop_last();
    let head = narrowed_by(pre, step);
    let whole = narrowed_by(ts, step);
    assert(whole == head + step(ts.last()));
    if j < ts.len() - 1 {
        assert(pre[j] == ts[j]);
        lemma_narrowed_has(pre, step, j, x);
        let k = choose|k: int| 0 <= k < head.len() && #[trigger] head[k] == x;
        assert(whole[k] == head[k]);
    } else {
        let last = step(ts.last());
        let k = choose|k: int| 0 <= k < last.len() && #[trigger] last[k] == x;
        assert(whole[head.len() + k] == last[k]);
    }
}

/// Knowing `$x === n` keeps the value `n` whenever the type could hold it
/// as `int`, `mixed`, `scalar`, `numeric` or the literal itself; knowing
/// `$x === b` keeps `b` whenever the type holds `bool`, `mixed`, `scalar`
/// or that literal; knowing `$x === 's'` keeps `'s'` whenever the type
/// holds `string`, `mixed`, `scalar` or that literal.
pub proof fn lemma_identity_keeps_the_value(ts: Seq<AtomView>, n: i64, b: bool, s: Seq<char>, numeric: bool, j: int)
    requires
        0 <= j < ts.len(),
    ensures
        (ts[j] is Int || ts[j] is Mixed || ts[j] is Scalar || ts[j] is Numeric || ts[j] == AtomView::LiteralInt(n))
            ==> literal_int_narrowed(ts, n, true).contains(AtomView::LiteralInt(n)),
        (ts[j] is Bool || ts[j] is Mixed || ts[j] is Scalar || ts[j] == (if b {
            AtomView::True
        } else {
            AtomView::False
        })) ==> bool_narrowed(ts, b, true).contains(
            if b {
                AtomView::True
            } else {
                AtomView::False
            },
        ),
        (ts[j] is String || ts[j] is Mixed || ts[j] is Scalar || ts[j] == AtomView::LiteralString(s))
            ==> literal_string_narrowed(ts, s, numeric, true).contains(AtomView::LiteralString(s)),
{
    let a = ts[j];
    let li = |x: AtomView| literal_int_step(x, n, true);
    if a is Int || a is Mixed || a is Scalar || a is Numeric || a == AtomView::LiteralInt(n) {
        assert(li(a)[0] == AtomView::LiteralInt(n));
        lemma_narrowed_has(ts, li, j, AtomView::LiteralInt(n));
    }
    let bv = if b {
        AtomView::True
    } else {
        AtomView::False
    };
    let bs = |x: AtomView| bool_step(x, b, true);
    if a is Bool || a is Mixed || a is Scalar || a == bv {
        assert(bs(a)[0] == bv);
        lemma_narrowed_has(ts, bs, j, bv);
    }
    let ss = |x: AtomView| literal_string_step(x, s, numeric, true);
    if a is String || a is Mixed || a is Scalar || a == AtomView::LiteralString(s) {
        assert(ss(a)[0] == AtomView::LiteralString(s));
        lemma_narrowed_has(ts, ss, j, AtomView::LiteralString(s));
    }
}

/// Knowing `$x !== n` removes only the value `n`: every atom that is not an
/// integer, `int` itself and every other integer literal stay.
pub proof fn lemma_literal_int_excluded_keeps_others(ts: Seq<AtomView>, value: i64)
    ensures
        forall|j: int|
            0 <= j < ts.len() && (!integer_atom(#[trigger] ts[j]) || ts[j] == AtomView::Int || (ts[j] is LiteralInt
                && ts[j] != AtomView::LiteralInt(value))) ==> literal_int_narrowed(ts, value, false).contains(ts[j]),
{
    let step = |a: AtomView| literal_int_step(a, value, false);
    let p = |a: AtomView| !integer_atom(a) || a == AtomView::Int || (a is LiteralInt && a != AtomView::LiteralInt(value));
    assert forall|a: AtomView| #[trigger] p(a) implies step(a).contains(a) by {
        assert(step(a)[0] == a);
    }
    lemma_narrowed_keeps(ts, step, p);
}

/// Knowing `$x !== true` (or `false`) keeps every atom that is not a
/// boolean; knowing `$x !== 'a'` keeps every atom but the literal `'a'`.
pub proof fn lemma_excluded_literal_keeps_others(ts: Seq<AtomView>, b: bool, s: Seq<char>, numeric: bool)
    ensures
        forall|j: int| 0 <= j < ts.len() && !boolean_atom(#[trigger] ts[j]) ==> bool_narrowed(ts, b, false).contains(ts[j]),
        forall|j: int|
            0 <= j < ts.len() && #[trigger] ts[j] != AtomView::LiteralString(s) ==> literal_string_narrowed(
                ts,
                s,
                numeric,
                false,
            ).contains(ts[j]),
{
    let bs = |a: AtomView| bool_step(a, b, false);
    let bp = |a: AtomView| !boolean_atom(a);
    assert forall|a: AtomView| #[trigger] bp(a) implies bs(a).contains(a) by {
        assert(bs(a)[0] == a);
    }
    lemma_narrowed_keeps(ts, bs, bp);
    let ss = |a: AtomView| literal_string_step(a, s, numeric, false);
    let sp = |a: AtomView| a != AtomView::LiteralString(s);
    assert forall|a: AtomView| #[trigger] sp(a) implies ss(a).contains(a) by {
        assert(ss(a)[0] == a);
    }
    lemma_narrowed_keeps(ts, ss, sp);
}

/// Narrowing to an integer range keeps every atom that is not an integer.
pub proof fn lemma_int_range_keeps_others(ts: Seq<AtomView>, min: Option<i64>, max: Option<i64>)
    ensures
        forall|j: int| 0 <= j < ts.len() && !integer_atom(#[trigger] ts[j]) ==> int_range_narrowed(ts, min, max).contains(
            ts[j],
        ),
{
    let step = |a: AtomView| int_range_step(a, min, max);
    let p = |a: AtomView| !integer_atom(a);
    assert forall|a: AtomView| #[trigger] p(a) implies step(a).contains(a) by {
        assert(step(a)[0] == a);
    }
    lemma_narrowed_keeps(ts, step, p);
}

/// Knowing `$x === n` leaves only the literal `n`; knowing `$x !== n`
/// never leaves it.
pub proof fn lemma_literal_int_exact(ts: Seq<AtomView>, value: i64)
    ensures
        forall|j: int| 0 <= j < literal_int_narrowed(ts, value, true).len() ==> #[trigger] literal_int_narrowed(ts, value, true)[j]
            == AtomView::LiteralInt(value),
        forall|j: int| 0 <= j < literal_int_narrowed(ts, value, false).len() ==> #[trigger] literal_int_narrowed(ts, value, false)[j]
            != AtomView::LiteralInt(value),
{
    lemma_narrowed_all(
        ts,
        |a: AtomView| literal_int_step(a, value, true),
        |b: AtomView| b == AtomView::LiteralInt(value),
    );
    assert forall|a: AtomView, j: int| 0 <= j < literal_int_step(a, value, false).len() implies #[trigger] literal_int_step(a, value, false)[j]
        != AtomView::LiteralInt(value) by {
        match a {
            AtomView::IntRange(lo, hi) => {
                if let Some((l, h)) = tightened_bounds(lo, hi, value) {
                    assert(canonical_range(l, h) != AtomView::LiteralInt(value));
                }
            },
            _ => {},
        }
    }
    lemma_narrowed_all(
        ts,
        |a: AtomView| literal_int_step(a, value, false),
        |b: AtomView| b != AtomView::LiteralInt(value),
    );
}

/// Knowing `$x === b` leaves only the literal `b`.
pub proof fn lemma_bool_exact(ts: Seq<AtomView>, value: bool)
    ensures
        forall|j: int| 0 <= j < bool_narrowed(ts, value, true).len() ==> #[trigger] bool_narrowed(ts, value, true)[j]
            == bool_literal(value),
{
    lemma_narrowed_all(ts, |a: AtomView| bool_step(a, value, true), |b: AtomView| b == bool_literal(value));
}

/// Knowing `$x === 'a'` leaves only the literal `'a'`; knowing `$x !== 'a'`
/// never leaves it.
pub proof fn lemma_literal_string_exact(ts: Seq<AtomView>, value: Seq<char>, value_is_numeric: bool)
    ensures
        forall|j: int| 0 <= j < literal_string_narrowed(ts, value, value_is_numeric, true).len() ==> #[trigger] literal_string_narrowed(
            ts,
            value,
            value_is_numeric,
            true,
        )[j] == AtomView::LiteralString(value),
        forall|j: int| 0 <= j < literal_string_narrowed(ts, value, value_is_numeric, false).len() ==> #[trigger] literal_string_narrowed(
            ts,
            value,
            value_is_numeric,
            false,
        )[j] != AtomView::LiteralString(value),
{
    lemma_narrowed_all(
        ts,
        |a: AtomView| literal_string_step(a, value, value_is_numeric, true),
        |b: AtomView| b == AtomView::LiteralString(value),
    );
    lemma_narrowed_all(
        ts,
        |a: AtomView| literal_string_step(a, value, value_is_numeric, false),
        |b: AtomView| b != AtomView::LiteralString(value),
    );
}

/// Within `[min, max]`: an integer literal kept lies in it, and a range
/// produced lies inside it.
pub open spec fn within(a: AtomView, min: Option<i64>, max: Option<i64>) -> bool {
    match a {
        AtomView::LiteralInt(v) => in_bounds(v as int, (min, max)),
        AtomView::IntRange(lo, hi) => (min matches Some(m) ==> lo matches Some(l) && l >= m) && (max matches Some(
            m,
        ) ==> hi matches Some(h) && h <= m),
        _ => true,
    }
}

/// Narrowing to `[min, max]` leaves no integer outside it.
pub proof fn lemma_int_range_within(ts: Seq<AtomView>, min: Option<i64>, max: Option<i64>)
    ensures
        forall|j: int| 0 <= j < int_range_narrowed(ts, min, max).len() ==> within(
            #[trigger] int_range_narrowed(ts, min, max)[j],
            min,
            max,
        ),
{
    lemma_narrowed_all(ts, |a: AtomView| int_range_step(a, min, max), |b: AtomView| within(b, min, max));
}

/// After `$x <op> n` is known to be `is_true`, narrowing to the range it
/// implies leaves only integer literals for which the comparison has that
/// outcome.
pub proof fn lemma_comparison_narrowing_sound(ts: Seq<AtomView>, op: ComparisonOp, n: i64, is_true: bool)
    requires
        comparison_bounds(op, n, is_true) is Some,
    ensures
        ({
            let b = comparison_bounds(op, n, is_true)->0;
            let r = int_range_narrowed(ts, b.0, b.1);
            forall|j: int|
                0 <= j < r.len() ==> (#[trigger] r[j] matches AtomView::LiteralInt(v) ==> compares(op, v as int, n as int)
                    == is_true)
        }),
{
    let b = comparison_bounds(op, n, is_true)->0;
    let r = int_range_narrowed(ts, b.0, b.1);
    lemma_int_range_within(ts, b.0, b.1);
    assert forall|j: int| 0 <= j < r.len() implies (#[trigger] r[j] matches AtomView::LiteralInt(v) ==> compares(
        op,
        v as int,
        n as int,
    ) == is_true) by {
        if let AtomView::LiteralInt(v) = r[j] {
            assert(within(r[j], b.0, b.1));
            lemma_comparison_bounds_exact(op, n, is_true, v);
        }
    }
}

} // verus!

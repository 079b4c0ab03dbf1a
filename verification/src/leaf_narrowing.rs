//! What a condition on a value proves about its type: `$x === null` and
//! `$x !== null`, `$x instanceof C` (and `||` chains of them), the `is_*()`,
//! `ctype_*()` and `method_exists()` checks, integer comparisons and
//! literal identity, combined through `!`, `&&`, `||` and parentheses. Each rule works atom by atom over an `AtomType`, as
//! `type_narrowing` does; the class hierarchy comes in as plain facts (each
//! class with its ancestors, and the names that are interfaces).
use vstd::prelude::*;
use crate::condition::{CondKind, Condition};
use crate::docblock::validate::chars_eq;
use crate::narrowing::{comparison_bounds, comparison_excludes_null, int_comparison_bounds, int_comparison_excludes_null, ComparisonOp};
use crate::text::{char_from_ascii, chars_of};
use crate::type_narrowing::{
    atom_view, atoms_view, boolean_atom, integer_atom, lemma_narrowed_keeps, string_atom, bool_narrow, bool_narrowed, copy_atom, int_range_narrowed, literal_int_narrow,
    literal_int_narrowed, literal_string_narrow, literal_string_narrowed, narrow_string_length, narrow_to_int_range, narrowed_by,
    non_empty_step, parts_view, push_atom, Atom, AtomType, AtomView,
};

verus! {

broadcast use vstd::string::group_string_axioms;

// ----- names -----

/// `c` with an ASCII capital letter made small.
pub open spec fn lower_char(c: char) -> char {
    if 'A' <= c && c <= 'Z' {
        ((c as u32) + 32) as char
    } else {
        c
    }
}

/// `s` with its ASCII capitals made small, as PHP compares function names.
pub open spec fn ascii_lower(s: Seq<char>) -> Seq<char> {
    s.map_values(|c: char| lower_char(c))
}

fn ascii_lower_exec(s: &str) -> (r: Vec<char>)
    ensures
        r@ == ascii_lower(s@),
{
    let cs = chars_of(s);
    let mut out: Vec<char> = Vec::new();
    let mut i: usize = 0;
    while i < cs.len()
        invariant
            i <= cs@.len(),
            cs@ == s@,
            out@ == ascii_lower(cs@.take(i as int)),
        decreases cs.len() - i,
    {
        let c = cs[i];
        let l = if 'A' <= c && c <= 'Z' {
            let code = (c as u32) + 32;
            char_from_ascii(code)
        } else {
            c
        };
        out.push(l);
        proof {
            assert(ascii_lower(cs@.take(i + 1)) =~= ascii_lower(cs@.take(i as int)).push(lower_char(c)));
        }
        i = i + 1;
    }
    assert(cs@.take(cs@.len() as int) =~= cs@);
    out
}

// ----- the class hierarchy -----

/// Each class with the classes and interfaces it extends or implements.
pub open spec fn ancestors_view(anc: Seq<(String, Vec<String>)>) -> Seq<(Seq<char>, Seq<Seq<char>>)> {
    anc.map_values(|e: (String, Vec<String>)| (e.0@, e.1@.map_values(|n: String| n@)))
}

pub open spec fn names_view(ns: Seq<String>) -> Seq<Seq<char>> {
    ns.map_values(|n: String| n@)
}

/// `a` extends or implements `b`, by the facts `anc`.
pub open spec fn extends_class(anc: Seq<(Seq<char>, Seq<Seq<char>>)>, a: Seq<char>, b: Seq<char>) -> bool {
    exists|i: int| 0 <= i < anc.len() && (#[trigger] anc[i]).0 == a && anc[i].1.contains(b)
}

/// An instance of `a` is an instance of `b`.
pub open spec fn instance_of(anc: Seq<(Seq<char>, Seq<Seq<char>>)>, a: Seq<char>, b: Seq<char>) -> bool {
    a == b || extends_class(anc, a, b)
}

/// One object can be an instance of both `a` and `b` without either
/// extending the other: one of them is an interface.
pub open spec fn can_coexist(ifaces: Seq<Seq<char>>, a: Seq<char>, b: Seq<char>) -> bool {
    ifaces.contains(a) || ifaces.contains(b)
}

/// Some class of the part `p` is an instance of `c`.
pub open spec fn part_instance_of(anc: Seq<(Seq<char>, Seq<Seq<char>>)>, p: Seq<Seq<char>>, c: Seq<char>) -> bool {
    exists|j: int| 0 <= j < p.len() && instance_of(anc, #[trigger] p[j], c)
}

/// Some part of the intersection `ps` already makes it an instance of `c`.
pub open spec fn any_instance_of(anc: Seq<(Seq<char>, Seq<Seq<char>>)>, ps: Seq<Seq<Seq<char>>>, c: Seq<char>) -> bool {
    exists|i: int| 0 <= i < ps.len() && part_instance_of(anc, #[trigger] ps[i], c)
}

fn str_eq(a: &str, b: &str) -> (r: bool)
    ensures
        r == (a@ == b@),
{
    let x = chars_of(a);
    let y = chars_of(b);
    chars_eq(x.as_slice(), y.as_slice())
}

fn contains_name(ns: &Vec<String>, n: &str) -> (r: bool)
    ensures
        r == names_view(ns@).contains(n@),
{
    let ghost nv = names_view(ns@);
    let mut i: usize = 0;
    while i < ns.len()
        invariant
            i <= ns@.len(),
            nv == names_view(ns@),
            forall|k: int| 0 <= k < i ==> nv[k] != n@,
        decreases ns.len() - i,
    {
        if str_eq(ns[i].as_str(), n) {
            assert(nv[i as int] == n@);
            return true;
        }
        i = i + 1;
    }
    false
}

fn extends_exec(anc: &Vec<(String, Vec<String>)>, a: &str, b: &str) -> (r: bool)
    ensures
        r == extends_class(ancestors_view(anc@), a@, b@),
{
    let ghost av = ancestors_view(anc@);
    let mut i: usize = 0;
    while i < anc.len()
        invariant
            i <= anc@.len(),
            av == ancestors_view(anc@),
            forall|k: int| 0 <= k < i ==> !((#[trigger] av[k]).0 == a@ && av[k].1.contains(b@)),
        decreases anc.len() - i,
    {
        let e = &anc[i];
        if str_eq(e.0.as_str(), a) && contains_name(&e.1, b) {
            assert(av[i as int].0 == a@ && av[i as int].1.contains(b@));
            return true;
        }
        i = i + 1;
    }
    false
}

fn instance_of_exec(anc: &Vec<(String, Vec<String>)>, a: &str, b: &str) -> (r: bool)
    ensures
        r == instance_of(ancestors_view(anc@), a@, b@),
{
    str_eq(a, b) || extends_exec(anc, a, b)
}

fn part_instance_of_exec(anc: &Vec<(String, Vec<String>)>, p: &Vec<String>, c: &str) -> (r: bool)
    ensures
        r == part_instance_of(ancestors_view(anc@), names_view(p@), c@),
{
    let ghost pv = names_view(p@);
    let ghost av = ancestors_view(anc@);
    let mut i: usize = 0;
    while i < p.len()
        invariant
            i <= p@.len(),
            pv == names_view(p@),
            av == ancestors_view(anc@),
            forall|k: int| 0 <= k < i ==> !instance_of(av, #[trigger] pv[k], c@),
        decreases p.len() - i,
    {
        if instance_of_exec(anc, p[i].as_str(), c) {
            assert(instance_of(av, pv[i as int], c@));
            return true;
        }
        i = i + 1;
    }
    false
}

fn any_instance_of_exec(anc: &Vec<(String, Vec<String>)>, ps: &Vec<Vec<String>>, c: &str) -> (r: bool)
    ensures
        r == any_instance_of(ancestors_view(anc@), parts_view(ps@), c@),
{
    let ghost pv = parts_view(ps@);
    let ghost av = ancestors_view(anc@);
    let mut i: usize = 0;
    while i < ps.len()
        invariant
            i <= ps@.len(),
            pv == parts_view(ps@),
            av == ancestors_view(anc@),
            forall|k: int| 0 <= k < i ==> !part_instance_of(av, #[trigger] pv[k], c@),
        decreases ps.len() - i,
    {
        if part_instance_of_exec(anc, &ps[i], c) {
            assert(pv[i as int] == names_view(ps@[i as int]@));
            assert(part_instance_of(av, pv[i as int], c@));
            return true;
        }
        proof {
            assert(pv[i as int] == names_view(ps@[i as int]@));
        }
        i = i + 1;
    }
    false
}

// ----- instanceof -----

/// A type about which nothing is known: no atoms, or only `mixed`.
pub open spec fn unconstrained(ts: Seq<AtomView>) -> bool {
    ts.len() == 0 || (ts.len() == 1 && ts[0] == AtomView::Mixed)
}

/// What `$x instanceof c` being true makes of one atom: an instance of `c`
/// stays; `object` and `mixed` become `c`; a class that `c` extends becomes
/// `c`; an unrelated class becomes the intersection with `c` when the two
/// can coexist and goes otherwise; an intersection gains `c` unless a part
/// already is one; a closure stays only for `Closure`; all else goes.
pub open spec fn instanceof_true_step(
    a: AtomView,
    c: Seq<char>,
    anc: Seq<(Seq<char>, Seq<Seq<char>>)>,
    ifaces: Seq<Seq<char>>,
) -> Seq<AtomView> {
    match a {
        AtomView::Named(f) => if instance_of(anc, f, c) {
            seq![a]
        } else if instance_of(anc, c, f) {
            seq![AtomView::Named(c)]
        } else if can_coexist(ifaces, f, c) {
            seq![AtomView::Intersection(seq![seq![f], seq![c]])]
        } else {
            Seq::empty()
        },
        AtomView::Object | AtomView::Mixed => seq![AtomView::Named(c)],
        AtomView::Intersection(ps) => if any_instance_of(anc, ps, c) {
            seq![a]
        } else {
            seq![AtomView::Intersection(ps.push(seq![c]))]
        },
        AtomView::Closure => if ascii_lower(c) == "closure"@ {
            seq![a]
        } else {
            Seq::empty()
        },
        _ => Seq::empty(),
    }
}

/// What `$x instanceof c` being false makes of one atom: instances of `c`
/// (a class that is or extends `c`, an intersection with such a part, a
/// closure for `Closure`) go; all else stays.
pub open spec fn instanceof_false_step(a: AtomView, c: Seq<char>, anc: Seq<(Seq<char>, Seq<Seq<char>>)>) -> Seq<
    AtomView,
> {
    let excluded = match a {
        AtomView::Named(f) => instance_of(anc, f, c),
        AtomView::Intersection(ps) => any_instance_of(anc, ps, c),
        AtomView::Closure => ascii_lower(c) == "closure"@,
        _ => false,
    };
    if excluded {
        Seq::empty()
    } else {
        seq![a]
    }
}

/// The atoms of a type once `$x instanceof c` is known to be `is_true`; a
/// type about which nothing is known becomes `c` when the check holds.
pub open spec fn instanceof_narrowed(
    ts: Seq<AtomView>,
    c: Seq<char>,
    anc: Seq<(Seq<char>, Seq<Seq<char>>)>,
    ifaces: Seq<Seq<char>>,
    is_true: bool,
) -> Seq<AtomView> {
    if is_true {
        if unconstrained(ts) {
            seq![AtomView::Named(c)]
        } else {
            narrowed_by(ts, |a: AtomView| instanceof_true_step(a, c, anc, ifaces))
        }
    } else {
        narrowed_by(ts, |a: AtomView| instanceof_false_step(a, c, anc))
    }
}

fn closure_name(c: &str) -> (r: bool)
    ensures
        r == (ascii_lower(c@) == "closure"@),
{
    let l = ascii_lower_exec(c);
    let k = chars_of("closure");
    chars_eq(l.as_slice(), k.as_slice())
}

fn one_name(c: &str) -> (r: Vec<String>)
    ensures
        names_view(r@) == seq![c@],
{
    let mut v: Vec<String> = Vec::new();
    v.push(String::from_str(c));
    assert(names_view(v@) =~= seq![c@]);
    v
}

fn one_part(p: Vec<String>) -> (r: Vec<Vec<String>>)
    ensures
        parts_view(r@) == seq![names_view(p@)],
{
    let ghost pv = names_view(p@);
    let mut v: Vec<Vec<String>> = Vec::new();
    v.push(p);
    assert(parts_view(v@) =~= seq![pv]);
    v
}

fn push_part(ps: &mut Vec<Vec<String>>, p: Vec<String>)
    ensures
        parts_view(final(ps)@) == parts_view(old(ps)@).push(names_view(p@)),
{
    ps.push(p);
    assert(parts_view(ps@) =~= parts_view(old(ps)@).push(names_view(p@)));
}

fn is_unconstrained(t: &AtomType) -> (r: bool)
    ensures
        r == unconstrained(atoms_view(t.atoms@)),
{
    if t.atoms.len() == 0 {
        true
    } else if t.atoms.len() == 1 {
        match t.atoms[0] {
            Atom::Mixed => true,
            _ => false,
        }
    } else {
        false
    }
}

#[verifier::rlimit(30)]
fn instanceof_step_exec(
    out: &mut Vec<Atom>,
    a: &Atom,
    c: &str,
    anc: &Vec<(String, Vec<String>)>,
    ifaces: &Vec<String>,
    is_true: bool,
)
    ensures
        atoms_view(final(out)@) == atoms_view(old(out)@) + (if is_true {
            instanceof_true_step(atom_view(*a), c@, ancestors_view(anc@), names_view(ifaces@))
        } else {
            instanceof_false_step(atom_view(*a), c@, ancestors_view(anc@))
        }),
{
    let ghost o = atoms_view(out@);
    let ghost st = if is_true {
        instanceof_true_step(atom_view(*a), c@, ancestors_view(anc@), names_view(ifaces@))
    } else {
        instanceof_false_step(atom_view(*a), c@, ancestors_view(anc@))
    };
    if is_true {
        match a {
            Atom::Named(f) => {
                if instance_of_exec(anc, f.as_str(), c) {
                    push_atom(out, Atom::Named(f.clone()));
                } else if instance_of_exec(anc, c, f.as_str()) {
                    push_atom(out, Atom::Named(String::from_str(c)));
                } else if contains_name(ifaces, f.as_str()) || contains_name(ifaces, c) {
                    let mut ps = one_part(one_name(f.as_str()));
                    push_part(&mut ps, one_name(c));
                    assert(parts_view(ps@) =~= seq![seq![f@], seq![c@]]);
                    push_atom(out, Atom::Intersection(ps));
                }
            },
            Atom::Object | Atom::Mixed => push_atom(out, Atom::Named(String::from_str(c))),
            Atom::Intersection(ps) => {
                if any_instance_of_exec(anc, ps, c) {
                    let x = copy_atom(a);
                    push_atom(out, x);
                } else {
                    let mut ns = crate::type_narrowing::copy_parts(ps);
                    push_part(&mut ns, one_name(c));
                    push_atom(out, Atom::Intersection(ns));
                }
            },
            Atom::Closure => {
                if closure_name(c) {
                    push_atom(out, Atom::Closure);
                }
            },
            _ => {},
        }
    } else {
        let excluded = match a {
            Atom::Named(f) => instance_of_exec(anc, f.as_str(), c),
            Atom::Intersection(ps) => any_instance_of_exec(anc, ps, c),
            Atom::Closure => closure_name(c),
            _ => false,
        };
        if !excluded {
            let x = copy_atom(a);
            push_atom(out, x);
        }
    }
    assert(atoms_view(out@) =~= o + st);
}

/// The type once `$x instanceof class` is known to be `is_true`, where
/// `ancestors` lists classes with the classes and interfaces each extends or
/// implements, and `interfaces` names the interfaces. The docblock mark is
/// kept, except that a type about which nothing was known becomes a plain
/// `class` when the check holds.
pub fn instanceof_narrow(
    t: &AtomType,
    class: &str,
    ancestors: &Vec<(String, Vec<String>)>,
    interfaces: &Vec<String>,
    is_true: bool,
) -> (r: AtomType)
    ensures
        atoms_view(r.atoms@) == instanceof_narrowed(
            atoms_view(t.atoms@),
            class@,
            ancestors_view(ancestors@),
            names_view(interfaces@),
            is_true,
        ),
        r.from_docblock == (t.from_docblock && !(is_true && unconstrained(atoms_view(t.atoms@)))),
{
    if is_true && is_unconstrained(t) {
        let mut v: Vec<Atom> = Vec::new();
        push_atom(&mut v, Atom::Named(String::from_str(class)));
        assert(atoms_view(v@) =~= seq![AtomView::Named(class@)]);
        return AtomType { atoms: v, from_docblock: false };
    }
    let ghost tv = atoms_view(t.atoms@);
    let ghost step = if is_true {
        |a: AtomView| instanceof_true_step(a, class@, ancestors_view(ancestors@), names_view(interfaces@))
    } else {
        |a: AtomView| instanceof_false_step(a, class@, ancestors_view(ancestors@))
    };
    let mut out: Vec<Atom> = Vec::new();
    let mut i: usize = 0;
    while i < t.atoms.len()
        invariant
            i <= t.atoms@.len(),
            tv == atoms_view(t.atoms@),
            step == (if is_true {
                |a: AtomView| instanceof_true_step(a, class@, ancestors_view(ancestors@), names_view(interfaces@))
            } else {
                |a: AtomView| instanceof_false_step(a, class@, ancestors_view(ancestors@))
            }),
            atoms_view(out@) == narrowed_by(tv.take(i as int), step),
        decreases t.atoms.len() - i,
    {
        instanceof_step_exec(&mut out, &t.atoms[i], class, ancestors, interfaces, is_true);
        proof {
            assert(tv.take(i + 1).drop_last() =~= tv.take(i as int));
            assert(tv.take(i + 1).last() == atom_view(t.atoms@[i as int]));
        }
        i = i + 1;
    }
    assert(tv.take(t.atoms@.len() as int) =~= tv);
    AtomType { atoms: out, from_docblock: t.from_docblock }
}

// ----- instanceof, one of several classes -----

/// The names of `cs` for which `p` holds, in order.
pub open spec fn keep_names(cs: Seq<Seq<char>>, p: spec_fn(Seq<char>) -> bool) -> Seq<Seq<char>>
    decreases cs.len(),
{
    if cs.len() == 0 {
        Seq::empty()
    } else if p(cs.last()) {
        keep_names(cs.drop_last(), p).push(cs.last())
    } else {
        keep_names(cs.drop_last(), p)
    }
}

/// An instance of each class of `cs`, in order.
pub open spec fn named_all(cs: Seq<Seq<char>>) -> Seq<AtomView> {
    cs.map_values(|c: Seq<char>| AtomView::Named(c))
}

/// What `$x instanceof c1 || $x instanceof c2 || ...` being true makes of
/// one atom: an instance of some `c` stays; `object` and `mixed` become each
/// class; a class that some of the `c` extend becomes those; another class
/// becomes its intersection with the classes it can coexist with (one of
/// them) and goes when there are none; an intersection gains, as one more
/// part, the classes none of its parts already is; a closure stays only when
/// `Closure` is among them; all else goes.
pub open spec fn instanceof_any_step(
    a: AtomView,
    cs: Seq<Seq<char>>,
    anc: Seq<(Seq<char>, Seq<Seq<char>>)>,
    ifaces: Seq<Seq<char>>,
) -> Seq<AtomView> {
    match a {
        AtomView::Named(f) => {
            let sub = keep_names(cs, |c: Seq<char>| instance_of(anc, c, f));
            let co = keep_names(cs, |c: Seq<char>| can_coexist(ifaces, f, c));
            if exists|j: int| 0 <= j < cs.len() && instance_of(anc, f, #[trigger] cs[j]) {
                seq![a]
            } else if sub.len() > 0 {
                named_all(sub)
            } else if co.len() > 0 {
                seq![AtomView::Intersection(seq![seq![f], co])]
            } else {
                Seq::empty()
            }
        },
        AtomView::Object | AtomView::Mixed => named_all(cs),
        AtomView::Closure => if exists|j: int| 0 <= j < cs.len() && ascii_lower(#[trigger] cs[j]) == "closure"@ {
            seq![a]
        } else {
            Seq::empty()
        },
        AtomView::Intersection(ps) => {
            let rem = keep_names(cs, |c: Seq<char>| !any_instance_of(anc, ps, c));
            if rem.len() == 0 {
                seq![a]
            } else {
                seq![AtomView::Intersection(ps.push(rem))]
            }
        },
        _ => Seq::empty(),
    }
}

/// The atoms of a type once one of `$x instanceof c` (for `c` in `cs`) is
/// known to hold; a type about which nothing is known becomes each class.
pub open spec fn instanceof_any_narrowed(
    ts: Seq<AtomView>,
    cs: Seq<Seq<char>>,
    anc: Seq<(Seq<char>, Seq<Seq<char>>)>,
    ifaces: Seq<Seq<char>>,
) -> Seq<AtomView> {
    if unconstrained(ts) {
        named_all(cs)
    } else {
        narrowed_by(ts, |a: AtomView| instanceof_any_step(a, cs, anc, ifaces))
    }
}

proof fn lemma_keep_step(cs: Seq<Seq<char>>, p: spec_fn(Seq<char>) -> bool, i: int)
    requires
        0 <= i < cs.len(),
    ensures
        keep_names(cs.take(i + 1), p) == if p(cs[i]) {
            keep_names(cs.take(i), p).push(cs[i])
        } else {
            keep_names(cs.take(i), p)
        },
{
    assert(cs.take(i + 1).drop_last() =~= cs.take(i));
    assert(cs.take(i + 1).last() == cs[i]);
}

fn push_name(out: &mut Vec<String>, n: &String)
    ensures
        names_view(final(out)@) == names_view(old(out)@).push(n@),
{
    out.push(n.clone());
    assert(names_view(out@) =~= names_view(old(out)@).push(n@));
}

/// The classes of `cs` that extend or are `f`.
fn subclasses_of(cs: &Vec<String>, f: &str, anc: &Vec<(String, Vec<String>)>) -> (r: Vec<String>)
    ensures
        names_view(r@) == keep_names(names_view(cs@), |c: Seq<char>| instance_of(ancestors_view(anc@), c, f@)),
{
    let ghost cv = names_view(cs@);
    let ghost p = |c: Seq<char>| instance_of(ancestors_view(anc@), c, f@);
    let mut out: Vec<String> = Vec::new();
    let mut i: usize = 0;
    while i < cs.len()
        invariant
            i <= cs@.len(),
            cv == names_view(cs@),
            p == |c: Seq<char>| instance_of(ancestors_view(anc@), c, f@),
            names_view(out@) == keep_names(cv.take(i as int), p),
        decreases cs.len() - i,
    {
        proof {
            lemma_keep_step(cv, p, i as int);
        }
        if instance_of_exec(anc, cs[i].as_str(), f) {
            push_name(&mut out, &cs[i]);
        }
        i = i + 1;
    }
    assert(cv.take(cs@.len() as int) =~= cv);
    out
}

/// The classes of `cs` that can coexist with `f`.
fn coexisting_with(cs: &Vec<String>, f: &str, ifaces: &Vec<String>) -> (r: Vec<String>)
    ensures
        names_view(r@) == keep_names(names_view(cs@), |c: Seq<char>| can_coexist(names_view(ifaces@), f@, c)),
{
    let ghost cv = names_view(cs@);
    let ghost p = |c: Seq<char>| can_coexist(names_view(ifaces@), f@, c);
    let f_iface = contains_name(ifaces, f);
    let mut out: Vec<String> = Vec::new();
    let mut i: usize = 0;
    while i < cs.len()
        invariant
            i <= cs@.len(),
            cv == names_view(cs@),
            f_iface == names_view(ifaces@).contains(f@),
            p == |c: Seq<char>| can_coexist(names_view(ifaces@), f@, c),
            names_view(out@) == keep_names(cv.take(i as int), p),
        decreases cs.len() - i,
    {
        proof {
            lemma_keep_step(cv, p, i as int);
        }
        if f_iface || contains_name(ifaces, cs[i].as_str()) {
            push_name(&mut out, &cs[i]);
        }
        i = i + 1;
    }
    assert(cv.take(cs@.len() as int) =~= cv);
    out
}

/// The classes of `cs` that no part of the intersection `ps` already is.
fn uncovered_by(cs: &Vec<String>, ps: &Vec<Vec<String>>, anc: &Vec<(String, Vec<String>)>) -> (r: Vec<String>)
    ensures
        names_view(r@) == keep_names(
            names_view(cs@),
            |c: Seq<char>| !any_instance_of(ancestors_view(anc@), parts_view(ps@), c),
        ),
{
    let ghost cv = names_view(cs@);
    let ghost p = |c: Seq<char>| !any_instance_of(ancestors_view(anc@), parts_view(ps@), c);
    let mut out: Vec<String> = Vec::new();
    let mut i: usize = 0;
    while i < cs.len()
        invariant
            i <= cs@.len(),
            cv == names_view(cs@),
            p == |c: Seq<char>| !any_instance_of(ancestors_view(anc@), parts_view(ps@), c),
            names_view(out@) == keep_names(cv.take(i as int), p),
        decreases cs.len() - i,
    {
        proof {
            lemma_keep_step(cv, p, i as int);
        }
        if !any_instance_of_exec(anc, ps, cs[i].as_str()) {
            push_name(&mut out, &cs[i]);
        }
        i = i + 1;
    }
    assert(cv.take(cs@.len() as int) =~= cv);
    out
}

/// Whether `f` is an instance of one of `cs`.
fn instance_of_any_exec(anc: &Vec<(String, Vec<String>)>, f: &str, cs: &Vec<String>) -> (r: bool)
    ensures
        r == exists|j: int| 0 <= j < cs@.len() && instance_of(ancestors_view(anc@), f@, #[trigger] names_view(cs@)[j]),
{
    let ghost cv = names_view(cs@);
    let mut i: usize = 0;
    while i < cs.len()
        invariant
            i <= cs@.len(),
            cv == names_view(cs@),
            forall|k: int| 0 <= k < i ==> !instance_of(ancestors_view(anc@), f@, #[trigger] cv[k]),
        decreases cs.len() - i,
    {
        if instance_of_exec(anc, f, cs[i].as_str()) {
            assert(instance_of(ancestors_view(anc@), f@, cv[i as int]));
            return true;
        }
        i = i + 1;
    }
    false
}

fn any_closure_name(cs: &Vec<String>) -> (r: bool)
    ensures
        r == exists|j: int| 0 <= j < cs@.len() && ascii_lower(#[trigger] names_view(cs@)[j]) == "closure"@,
{
    let ghost cv = names_view(cs@);
    let mut i: usize = 0;
    while i < cs.len()
        invariant
            i <= cs@.len(),
            cv == names_view(cs@),
            forall|k: int| 0 <= k < i ==> ascii_lower(#[trigger] cv[k]) != "closure"@,
        decreases cs.len() - i,
    {
        if closure_name(cs[i].as_str()) {
            assert(ascii_lower(cv[i as int]) == "closure"@);
            return true;
        }
        i = i + 1;
    }
    false
}

fn push_named_all(out: &mut Vec<Atom>, cs: &Vec<String>)
    ensures
        atoms_view(final(out)@) == atoms_view(old(out)@) + named_all(names_view(cs@)),
{
    let ghost o = atoms_view(out@);
    let ghost cv = names_view(cs@);
    let mut i: usize = 0;
    while i < cs.len()
        invariant
            i <= cs@.len(),
            cv == names_view(cs@),
            atoms_view(out@) == o + named_all(cv.take(i as int)),
        decreases cs.len() - i,
    {
        push_atom(out, Atom::Named(cs[i].clone()));
        assert(named_all(cv.take(i + 1)) =~= named_all(cv.take(i as int)).push(AtomView::Named(cv[i as int])));
        i = i + 1;
    }
    assert(cv.take(cs@.len() as int) =~= cv);
}

#[verifier::rlimit(30)]
fn instanceof_any_step_exec(
    out: &mut Vec<Atom>,
    a: &Atom,
    cs: &Vec<String>,
    anc: &Vec<(String, Vec<String>)>,
    ifaces: &Vec<String>,
)
    ensures
        atoms_view(final(out)@) == atoms_view(old(out)@) + instanceof_any_step(
            atom_view(*a),
            names_view(cs@),
            ancestors_view(anc@),
            names_view(ifaces@),
        ),
{
    let ghost o = atoms_view(out@);
    let ghost st = instanceof_any_step(atom_view(*a), names_view(cs@), ancestors_view(anc@), names_view(ifaces@));
    match a {
        Atom::Named(f) => {
            if instance_of_any_exec(anc, f.as_str(), cs) {
                push_atom(out, Atom::Named(f.clone()));
            } else {
                let sub = subclasses_of(cs, f.as_str(), anc);
                if sub.len() > 0 {
                    push_named_all(out, &sub);
                } else {
                    let co = coexisting_with(cs, f.as_str(), ifaces);
                    if co.len() > 0 {
                        let ghost cov = names_view(co@);
                        let mut ps = one_part(one_name(f.as_str()));
                        push_part(&mut ps, co);
                        assert(parts_view(ps@) =~= seq![seq![f@], cov]);
                        push_atom(out, Atom::Intersection(ps));
                    }
                }
            }
        },
        Atom::Object | Atom::Mixed => push_named_all(out, cs),
        Atom::Closure => {
            if any_closure_name(cs) {
                push_atom(out, Atom::Closure);
            }
        },
        Atom::Intersection(ps) => {
            let rem = uncovered_by(cs, ps, anc);
            if rem.len() == 0 {
                let x = copy_atom(a);
                push_atom(out, x);
            } else {
                let mut ns = crate::type_narrowing::copy_parts(ps);
                push_part(&mut ns, rem);
                push_atom(out, Atom::Intersection(ns));
            }
        },
        _ => {},
    }
    assert(atoms_view(out@) =~= o + st);
}

/// The type once one of `$x instanceof c` for `c` in `classes` is known to
/// hold (an `||` of such checks), with the class facts as for
/// `instanceof_narrow`. The docblock mark is kept, except that a type about
/// which nothing was known becomes the plain classes.
pub fn instanceof_any_narrow(
    t: &AtomType,
    classes: &Vec<String>,
    ancestors: &Vec<(String, Vec<String>)>,
    interfaces: &Vec<String>,
) -> (r: AtomType)
    ensures
        atoms_view(r.atoms@) == instanceof_any_narrowed(
            atoms_view(t.atoms@),
            names_view(classes@),
            ancestors_view(ancestors@),
            names_view(interfaces@),
        ),
        r.from_docblock == (t.from_docblock && !unconstrained(atoms_view(t.atoms@))),
{
    if is_unconstrained(t) {
        let mut v: Vec<Atom> = Vec::new();
        push_named_all(&mut v, classes);
        assert(atoms_view(v@) =~= named_all(names_view(classes@)));
        return AtomType { atoms: v, from_docblock: false };
    }
    let ghost tv = atoms_view(t.atoms@);
    let ghost step = |a: AtomView|
        instanceof_any_step(a, names_view(classes@), ancestors_view(ancestors@), names_view(interfaces@));
    let mut out: Vec<Atom> = Vec::new();
    let mut i: usize = 0;
    while i < t.atoms.len()
        invariant
            i <= t.atoms@.len(),
            tv == atoms_view(t.atoms@),
            step == |a: AtomView|
                instanceof_any_step(a, names_view(classes@), ancestors_view(ancestors@), names_view(interfaces@)),
            atoms_view(out@) == narrowed_by(tv.take(i as int), step),
        decreases t.atoms.len() - i,
    {
        instanceof_any_step_exec(&mut out, &t.atoms[i], classes, ancestors, interfaces);
        proof {
            assert(tv.take(i + 1).drop_last() =~= tv.take(i as int));
            assert(tv.take(i + 1).last() == atom_view(t.atoms@[i as int]));
        }
        i = i + 1;
    }
    assert(tv.take(t.atoms@.len() as int) =~= tv);
    AtomType { atoms: out, from_docblock: t.from_docblock }
}

// ----- is_*() type checks -----

/// The type an `is_*()` check tests for (`is_null()` also stands for
/// `=== null`).
#[derive(Debug, Clone, Copy, PartialEq, Eq, Structural)]
pub enum TypeCheck {
    String,
    Int,
    Float,
    Bool,
    Null,
    Array,
    List,
    Object,
    Callable,
    Scalar,
}

/// The check a lowercased function name makes: `is_string`, `is_int`
/// (`is_integer`, `is_long`), `is_float` (`is_double`, `is_real`), `is_bool`,
/// `is_null`, `is_array`, `array_is_list`, `is_object`, `is_callable` and
/// `is_scalar`; `None` for any other name.
pub open spec fn type_check_of(name: Seq<char>) -> Option<TypeCheck> {
    if name == "is_string"@ {
        Some(TypeCheck::String)
    } else if name == "is_int"@ || name == "is_integer"@ || name == "is_long"@ {
        Some(TypeCheck::Int)
    } else if name == "is_float"@ || name == "is_double"@ || name == "is_real"@ {
        Some(TypeCheck::Float)
    } else if name == "is_bool"@ {
        Some(TypeCheck::Bool)
    } else if name == "is_null"@ {
        Some(TypeCheck::Null)
    } else if name == "is_array"@ {
        Some(TypeCheck::Array)
    } else if name == "array_is_list"@ {
        Some(TypeCheck::List)
    } else if name == "is_object"@ {
        Some(TypeCheck::Object)
    } else if name == "is_callable"@ {
        Some(TypeCheck::Callable)
    } else if name == "is_scalar"@ {
        Some(TypeCheck::Scalar)
    } else {
        None
    }
}

/// The atom passes the check `k` whatever its value.
pub open spec fn is_kind(k: TypeCheck, a: AtomView) -> bool {
    let string = match a {
        AtomView::String | AtomView::NonEmptyString | AtomView::NumericString | AtomView::CallableString
        | AtomView::ClassString(_) | AtomView::InterfaceString(_) | AtomView::EnumString | AtomView::TraitString
        | AtomView::LiteralString(_) => true,
        _ => false,
    };
    let integer = match a {
        AtomView::Int | AtomView::PositiveInt | AtomView::NonNegativeInt | AtomView::NegativeInt
        | AtomView::IntRange(_, _) | AtomView::LiteralInt(_) => true,
        _ => false,
    };
    let boolean = match a {
        AtomView::Bool | AtomView::True | AtomView::False => true,
        _ => false,
    };
    match k {
        TypeCheck::String => string,
        TypeCheck::Int => integer,
        TypeCheck::Float => a == AtomView::Float,
        TypeCheck::Bool => boolean,
        TypeCheck::Null => a == AtomView::Null,
        TypeCheck::Array => a == AtomView::Array || a == AtomView::List,
        TypeCheck::List => a == AtomView::List,
        TypeCheck::Object => match a {
            AtomView::Object | AtomView::Named(_) | AtomView::Intersection(_) | AtomView::Closure => true,
            _ => false,
        },
        TypeCheck::Callable => a == AtomView::Callable || a == AtomView::Closure || a == AtomView::CallableString,
        TypeCheck::Scalar => string || integer || boolean || a == AtomView::Float || a == AtomView::Scalar
            || a == AtomView::Numeric,
    }
}

/// The plain atom of what `k` checks for.
pub open spec fn base_of(k: TypeCheck) -> AtomView {
    match k {
        TypeCheck::String => AtomView::String,
        TypeCheck::Int => AtomView::Int,
        TypeCheck::Float => AtomView::Float,
        TypeCheck::Bool => AtomView::Bool,
        TypeCheck::Null => AtomView::Null,
        TypeCheck::Array => AtomView::Array,
        TypeCheck::List => AtomView::List,
        TypeCheck::Object => AtomView::Object,
        TypeCheck::Callable => AtomView::Callable,
        TypeCheck::Scalar => AtomView::Scalar,
    }
}

/// What a passed check `k` makes of one atom: an atom that always passes
/// stays; `mixed` becomes the checked type; `scalar` becomes it for the
/// string, int, float and bool checks; `numeric` becomes `int`, `float` or
/// `numeric-string` for those checks; an array becomes a list for
/// `array_is_list`; all else goes.
pub open spec fn passed_step(k: TypeCheck, a: AtomView) -> Seq<AtomView> {
    if is_kind(k, a) {
        seq![a]
    } else {
        match a {
            AtomView::Mixed => seq![base_of(k)],
            AtomView::Scalar => match k {
                TypeCheck::String | TypeCheck::Int | TypeCheck::Float | TypeCheck::Bool => seq![base_of(k)],
                _ => Seq::empty(),
            },
            AtomView::Numeric => match k {
                TypeCheck::Int => seq![AtomView::Int],
                TypeCheck::Float => seq![AtomView::Float],
                TypeCheck::String => seq![AtomView::NumericString],
                _ => Seq::empty(),
            },
            AtomView::Array => if k == TypeCheck::List {
                seq![AtomView::List]
            } else {
                Seq::empty()
            },
            _ => Seq::empty(),
        }
    }
}

/// What the check `k` gives one atom: `passed_step` when it passed; when it
/// failed, the atoms that always pass go and all else stays.
pub open spec fn type_check_step(k: TypeCheck, a: AtomView, passed: bool) -> Seq<AtomView> {
    if passed {
        passed_step(k, a)
    } else if is_kind(k, a) {
        Seq::empty()
    } else {
        seq![a]
    }
}

pub open spec fn type_check_narrowed(ts: Seq<AtomView>, k: TypeCheck, passed: bool) -> Seq<AtomView> {
    narrowed_by(ts, |a: AtomView| type_check_step(k, a, passed))
}

/// What a type-checking function proves, by its kind.
#[derive(Debug, Clone, Copy, PartialEq, Eq, Structural)]
pub enum FnNarrowing {
    /// An `is_*()` check.
    Check(TypeCheck),
    /// A `ctype_*()` check: when it holds, a string argument is non-empty.
    CtypeNonEmpty,
    /// `method_exists()` / `property_exists()`: the argument is an object or
    /// a string, whatever the result.
    ObjectOrString,
}

/// The kind of narrowing the lowercased function name gives: the checks of
/// `type_check_of`, the `ctype_*` family, `method_exists` and
/// `property_exists`; `None` for any other name.
pub open spec fn type_fn_of(name: Seq<char>) -> Option<FnNarrowing> {
    match type_check_of(name) {
        Some(k) => Some(FnNarrowing::Check(k)),
        None => if name == "ctype_alpha"@ || name == "ctype_alnum"@ || name == "ctype_digit"@ || name == "ctype_lower"@
            || name == "ctype_upper"@ || name == "ctype_punct"@ || name == "ctype_space"@ || name == "ctype_xdigit"@
            || name == "ctype_print"@ || name == "ctype_graph"@ || name == "ctype_cntrl"@ {
            Some(FnNarrowing::CtypeNonEmpty)
        } else if name == "method_exists"@ || name == "property_exists"@ {
            Some(FnNarrowing::ObjectOrString)
        } else {
            None
        },
    }
}

/// One atom of an argument that must have been an object or a string:
/// objects and strings stay, `mixed` becomes `object`, `scalar` becomes
/// `string`, all else goes.
pub open spec fn object_or_string_step(a: AtomView) -> Seq<AtomView> {
    if is_kind(TypeCheck::Object, a) || is_kind(TypeCheck::String, a) {
        seq![a]
    } else if a == AtomView::Mixed {
        seq![AtomView::Object]
    } else if a == AtomView::Scalar {
        seq![AtomView::String]
    } else {
        Seq::empty()
    }
}

/// The atoms once `name($x)` is known to be `is_true` (`name` lowercased);
/// `None` for a function that `type_fn_of` does not name (`is_numeric`,
/// `is_iterable`, `is_countable` and `is_resource` among them).
pub open spec fn type_fn_narrowed(ts: Seq<AtomView>, name: Seq<char>, is_true: bool) -> Option<Seq<AtomView>> {
    match type_fn_of(name) {
        Some(FnNarrowing::Check(k)) => Some(type_check_narrowed(ts, k, is_true)),
        Some(FnNarrowing::CtypeNonEmpty) => Some(
            if is_true {
                narrowed_by(ts, |a: AtomView| non_empty_step(a))
            } else {
                ts
            },
        ),
        Some(FnNarrowing::ObjectOrString) => Some(narrowed_by(ts, |a: AtomView| object_or_string_step(a))),
        None => None,
    }
}

fn is_kind_exec(k: TypeCheck, a: &Atom) -> (r: bool)
    ensures
        r == is_kind(k, atom_view(*a)),
{
    let string = match a {
        Atom::String | Atom::NonEmptyString | Atom::NumericString | Atom::CallableString | Atom::ClassString(_)
        | Atom::InterfaceString(_) | Atom::EnumString | Atom::TraitString | Atom::LiteralString(_) => true,
        _ => false,
    };
    let integer = match a {
        Atom::Int | Atom::PositiveInt | Atom::NonNegativeInt | Atom::NegativeInt | Atom::IntRange { .. }
        | Atom::LiteralInt(_) => true,
        _ => false,
    };
    let boolean = match a {
        Atom::Bool | Atom::True | Atom::False => true,
        _ => false,
    };
    let float = match a {
        Atom::Float => true,
        _ => false,
    };
    match k {
        TypeCheck::String => string,
        TypeCheck::Int => integer,
        TypeCheck::Float => float,
        TypeCheck::Bool => boolean,
        TypeCheck::Null => match a {
            Atom::Null => true,
            _ => false,
        },
        TypeCheck::Array => match a {
            Atom::Array | Atom::List => true,
            _ => false,
        },
        TypeCheck::List => match a {
            Atom::List => true,
            _ => false,
        },
        TypeCheck::Object => match a {
            Atom::Object | Atom::Named(_) | Atom::Intersection(_) | Atom::Closure => true,
            _ => false,
        },
        TypeCheck::Callable => match a {
            Atom::Callable | Atom::Closure | Atom::CallableString => true,
            _ => false,
        },
        TypeCheck::Scalar => string || integer || boolean || float || match a {
            Atom::Scalar | Atom::Numeric => true,
            _ => false,
        },
    }
}

fn base_atom(k: TypeCheck) -> (r: Atom)
    ensures
        atom_view(r) == base_of(k),
{
    match k {
        TypeCheck::String => Atom::String,
        TypeCheck::Int => Atom::Int,
        TypeCheck::Float => Atom::Float,
        TypeCheck::Bool => Atom::Bool,
        TypeCheck::Null => Atom::Null,
        TypeCheck::Array => Atom::Array,
        TypeCheck::List => Atom::List,
        TypeCheck::Object => Atom::Object,
        TypeCheck::Callable => Atom::Callable,
        TypeCheck::Scalar => Atom::Scalar,
    }
}

fn type_check_step_exec(out: &mut Vec<Atom>, a: &Atom, k: TypeCheck, passed: bool)
    ensures
        atoms_view(final(out)@) == atoms_view(old(out)@) + type_check_step(k, atom_view(*a), passed),
{
    let ghost o = atoms_view(out@);
    let ghost st = type_check_step(k, atom_view(*a), passed);
    let kind = is_kind_exec(k, a);
    if passed {
        if kind {
            let x = copy_atom(a);
            push_atom(out, x);
        } else {
            match a {
                Atom::Mixed => push_atom(out, base_atom(k)),
                Atom::Scalar => match k {
                    TypeCheck::String | TypeCheck::Int | TypeCheck::Float | TypeCheck::Bool => push_atom(out, base_atom(k)),
                    _ => {},
                },
                Atom::Numeric => match k {
                    TypeCheck::Int => push_atom(out, Atom::Int),
                    TypeCheck::Float => push_atom(out, Atom::Float),
                    TypeCheck::String => push_atom(out, Atom::NumericString),
                    _ => {},
                },
                Atom::Array => {
                    if k == TypeCheck::List {
                        push_atom(out, Atom::List);
                    }
                },
                _ => {},
            }
        }
    } else if !kind {
        let x = copy_atom(a);
        push_atom(out, x);
    }
    assert(atoms_view(out@) =~= o + st);
}

/// The type once the check `k` is known to have `passed` or failed; the
/// docblock mark is kept.
pub fn type_check_narrow(t: &AtomType, k: TypeCheck, passed: bool) -> (r: AtomType)
    ensures
        atoms_view(r.atoms@) == type_check_narrowed(atoms_view(t.atoms@), k, passed),
        r.from_docblock == t.from_docblock,
{
    let ghost tv = atoms_view(t.atoms@);
    let ghost step = |a: AtomView| type_check_step(k, a, passed);
    let mut out: Vec<Atom> = Vec::new();
    let mut i: usize = 0;
    while i < t.atoms.len()
        invariant
            i <= t.atoms@.len(),
            tv == atoms_view(t.atoms@),
            step == |a: AtomView| type_check_step(k, a, passed),
            atoms_view(out@) == narrowed_by(tv.take(i as int), step),
        decreases t.atoms.len() - i,
    {
        type_check_step_exec(&mut out, &t.atoms[i], k, passed);
        proof {
            assert(tv.take(i + 1).drop_last() =~= tv.take(i as int));
            assert(tv.take(i + 1).last() == atom_view(t.atoms@[i as int]));
        }
        i = i + 1;
    }
    assert(tv.take(t.atoms@.len() as int) =~= tv);
    AtomType { atoms: out, from_docblock: t.from_docblock }
}

fn name_is(l: &Vec<char>, lit: &str) -> (r: bool)
    ensures
        r == (l@ == lit@),
{
    let k = chars_of(lit);
    chars_eq(l.as_slice(), k.as_slice())
}

/// The check the function `fn_name` makes, by its name in any ASCII case.
pub fn type_check_named(fn_name: &str) -> (r: Option<TypeCheck>)
    ensures
        r == type_check_of(ascii_lower(fn_name@)),
{
    let l = ascii_lower_exec(fn_name);
    if name_is(&l, "is_string") {
        Some(TypeCheck::String)
    } else if name_is(&l, "is_int") || name_is(&l, "is_integer") || name_is(&l, "is_long") {
        Some(TypeCheck::Int)
    } else if name_is(&l, "is_float") || name_is(&l, "is_double") || name_is(&l, "is_real") {
        Some(TypeCheck::Float)
    } else if name_is(&l, "is_bool") {
        Some(TypeCheck::Bool)
    } else if name_is(&l, "is_null") {
        Some(TypeCheck::Null)
    } else if name_is(&l, "is_array") {
        Some(TypeCheck::Array)
    } else if name_is(&l, "array_is_list") {
        Some(TypeCheck::List)
    } else if name_is(&l, "is_object") {
        Some(TypeCheck::Object)
    } else if name_is(&l, "is_callable") {
        Some(TypeCheck::Callable)
    } else if name_is(&l, "is_scalar") {
        Some(TypeCheck::Scalar)
    } else {
        None
    }
}

fn object_or_string_narrow(t: &AtomType) -> (r: AtomType)
    ensures
        atoms_view(r.atoms@) == narrowed_by(atoms_view(t.atoms@), |a: AtomView| object_or_string_step(a)),
        r.from_docblock == t.from_docblock,
{
    let ghost tv = atoms_view(t.atoms@);
    let ghost step = |a: AtomView| object_or_string_step(a);
    let mut out: Vec<Atom> = Vec::new();
    let mut i: usize = 0;
    while i < t.atoms.len()
        invariant
            i <= t.atoms@.len(),
            tv == atoms_view(t.atoms@),
            step == |a: AtomView| object_or_string_step(a),
            atoms_view(out@) == narrowed_by(tv.take(i as int), step),
        decreases t.atoms.len() - i,
    {
        let a = &t.atoms[i];
        let ghost o = atoms_view(out@);
        if is_kind_exec(TypeCheck::Object, a) || is_kind_exec(TypeCheck::String, a) {
            let x = copy_atom(a);
            push_atom(&mut out, x);
        } else {
            match a {
                Atom::Mixed => push_atom(&mut out, Atom::Object),
                Atom::Scalar => push_atom(&mut out, Atom::String),
                _ => {},
            }
        }
        proof {
            assert(atoms_view(out@) =~= o + object_or_string_step(atom_view(*a)));
            assert(tv.take(i + 1).drop_last() =~= tv.take(i as int));
            assert(tv.take(i + 1).last() == atom_view(t.atoms@[i as int]));
        }
        i = i + 1;
    }
    assert(tv.take(t.atoms@.len() as int) =~= tv);
    AtomType { atoms: out, from_docblock: t.from_docblock }
}

fn is_ctype_name(l: &Vec<char>) -> (r: bool)
    ensures
        r == (l@ == "ctype_alpha"@ || l@ == "ctype_alnum"@ || l@ == "ctype_digit"@ || l@ == "ctype_lower"@
            || l@ == "ctype_upper"@ || l@ == "ctype_punct"@ || l@ == "ctype_space"@ || l@ == "ctype_xdigit"@
            || l@ == "ctype_print"@ || l@ == "ctype_graph"@ || l@ == "ctype_cntrl"@),
{
    name_is(l, "ctype_alpha") || name_is(l, "ctype_alnum") || name_is(l, "ctype_digit") || name_is(l, "ctype_lower")
        || name_is(l, "ctype_upper") || name_is(l, "ctype_punct") || name_is(l, "ctype_space") || name_is(
        l,
        "ctype_xdigit",
    ) || name_is(l, "ctype_print") || name_is(l, "ctype_graph") || name_is(l, "ctype_cntrl")
}

/// The narrowing the function `fn_name` gives, by its name in any ASCII
/// case.
pub fn type_fn_named(fn_name: &str) -> (r: Option<FnNarrowing>)
    ensures
        r == type_fn_of(ascii_lower(fn_name@)),
{
    match type_check_named(fn_name) {
        Some(k) => Some(FnNarrowing::Check(k)),
        None => {
            let l = ascii_lower_exec(fn_name);
            if is_ctype_name(&l) {
                Some(FnNarrowing::CtypeNonEmpty)
            } else if name_is(&l, "method_exists") || name_is(&l, "property_exists") {
                Some(FnNarrowing::ObjectOrString)
            } else {
                None
            }
        },
    }
}

/// The type once `fn_name($x)` is known to be `is_true`; `None` for a
/// function that `type_fn_of` does not name. The docblock mark is kept.
pub fn type_fn_narrow(t: &AtomType, fn_name: &str, is_true: bool) -> (r: Option<AtomType>)
    ensures
        match type_fn_narrowed(atoms_view(t.atoms@), ascii_lower(fn_name@), is_true) {
            Some(v) => r matches Some(n) && atoms_view(n.atoms@) == v && n.from_docblock == t.from_docblock,
            None => r is None,
        },
{
    match type_fn_named(fn_name) {
        Some(FnNarrowing::Check(k)) => Some(type_check_narrow(t, k, is_true)),
        Some(FnNarrowing::CtypeNonEmpty) => {
            if is_true {
                Some(narrow_string_length(t, true))
            } else {
                let x = copy_atoms(&t.atoms);
                Some(AtomType { atoms: x, from_docblock: t.from_docblock })
            }
        },
        Some(FnNarrowing::ObjectOrString) => Some(object_or_string_narrow(t)),
        None => None,
    }
}

fn copy_atoms(ts: &Vec<Atom>) -> (r: Vec<Atom>)
    ensures
        atoms_view(r@) == atoms_view(ts@),
{
    let mut out: Vec<Atom> = Vec::new();
    let mut i: usize = 0;
    while i < ts.len()
        invariant
            i <= ts@.len(),
            atoms_view(out@) == atoms_view(ts@.take(i as int)),
        decreases ts.len() - i,
    {
        let x = copy_atom(&ts[i]);
        push_atom(&mut out, x);
        assert(atoms_view(ts@.take(i + 1)) =~= atoms_view(ts@.take(i as int)).push(atom_view(ts@[i as int])));
        i = i + 1;
    }
    assert(ts@.take(ts@.len() as int) =~= ts@);
    out
}

/// How `fn_name($obj->prop)` having outcome `is_true` bears on the branch and
/// on the receiver `$obj`: `(may_diverge, receiver_non_null)`. A nullable
/// receiver can make the property read `null` by itself; only `is_null()`
/// holding is met by that `null`, so the check proves the property (and so
/// the receiver) non-null exactly when its outcome differs from being
/// `is_null()`, and an empty narrowed type may mark the branch unreachable
/// when the receiver is not nullable or that was proved.
pub fn prop_type_fn_effects(fn_name: &str, is_true: bool, receiver_nullable: bool) -> (r: (bool, bool))
    ensures
        r.1 == (is_true != (ascii_lower(fn_name@) == "is_null"@)),
        r.0 == (!receiver_nullable || r.1),
{
    let l = ascii_lower_exec(fn_name);
    let is_null_check = name_is(&l, "is_null");
    let proved_non_null = is_true != is_null_check;
    (!receiver_nullable || proved_non_null, proved_non_null)
}

/// The type once `$x === null` is known to be `is_null` (true) or not.
pub fn null_check_narrow(t: &AtomType, is_null: bool) -> (r: AtomType)
    ensures
        atoms_view(r.atoms@) == type_check_narrowed(atoms_view(t.atoms@), TypeCheck::Null, is_null),
        r.from_docblock == t.from_docblock,
{
    type_check_narrow(t, TypeCheck::Null, is_null)
}

// ----- integer comparisons -----

/// The atoms once `$x op n` is known to be `is_true`: the range the outcome
/// allows, without `null` when `null` could not have given it; `None` when
/// the operator bounds nothing.
pub open spec fn int_comparison_narrowed(ts: Seq<AtomView>, op: ComparisonOp, n: i64, is_true: bool) -> Option<
    Seq<AtomView>,
> {
    match comparison_bounds(op, n, is_true) {
        None => None,
        Some((min, max)) => {
            let ranged = int_range_narrowed(ts, min, max);
            Some(
                if comparison_excludes_null(op, n, is_true) {
                    type_check_narrowed(ranged, TypeCheck::Null, false)
                } else {
                    ranged
                },
            )
        },
    }
}

/// The type once `$x op n` is known to be `is_true`; `None` when the
/// operator bounds nothing. The docblock mark is kept.
pub fn int_comparison_narrow(t: &AtomType, op: ComparisonOp, n: i64, is_true: bool) -> (r: Option<AtomType>)
    ensures
        match int_comparison_narrowed(atoms_view(t.atoms@), op, n, is_true) {
            Some(v) => r matches Some(x) && atoms_view(x.atoms@) == v && x.from_docblock == t.from_docblock,
            None => r is None,
        },
{
    match int_comparison_bounds(op, n, is_true) {
        None => None,
        Some((min, max)) => {
            let ranged = narrow_to_int_range(t, min, max);
            if int_comparison_excludes_null(op, n, is_true) {
                Some(type_check_narrow(&ranged, TypeCheck::Null, false))
            } else {
                Some(ranged)
            }
        },
    }
}

// ----- one condition -----

/// A condition on one value that narrows its type.
pub enum LeafCondition {
    /// `$x === null`, or `$x !== null` when `negated`.
    NullCheck { negated: bool },
    /// `$x instanceof class`.
    InstanceOf { class: String },
    /// `name($x)`, a type-checking function.
    TypeFn { name: String },
    /// `$x op value`.
    IntCompare { op: ComparisonOp, value: i64 },
    /// `$x === value` for an integer.
    IntLiteral { value: i64 },
    /// `$x === value` for a boolean.
    BoolLiteral { value: bool },
    /// `$x === value` for a string; `numeric` says whether it is a PHP
    /// numeric string.
    StringLiteral { value: String, numeric: bool },
}

/// A leaf condition as plain values.
pub enum LeafView {
    NullCheck(bool),
    InstanceOf(Seq<char>),
    TypeFn(Seq<char>),
    IntCompare(ComparisonOp, i64),
    IntLiteral(i64),
    BoolLiteral(bool),
    StringLiteral(Seq<char>, bool),
}

pub open spec fn leaf_view(c: LeafCondition) -> LeafView {
    match c {
        LeafCondition::NullCheck { negated } => LeafView::NullCheck(negated),
        LeafCondition::InstanceOf { class } => LeafView::InstanceOf(class@),
        LeafCondition::TypeFn { name } => LeafView::TypeFn(name@),
        LeafCondition::IntCompare { op, value } => LeafView::IntCompare(op, value),
        LeafCondition::IntLiteral { value } => LeafView::IntLiteral(value),
        LeafCondition::BoolLiteral { value } => LeafView::BoolLiteral(value),
        LeafCondition::StringLiteral { value, numeric } => LeafView::StringLiteral(value@, numeric),
    }
}

/// A type as plain values: its atoms and its docblock mark.
pub type TypeView = (Seq<AtomView>, bool);

pub open spec fn type_view(t: AtomType) -> TypeView {
    (atoms_view(t.atoms@), t.from_docblock)
}

pub open spec fn opt_type_view(o: Option<AtomType>) -> Option<TypeView> {
    match o {
        Some(t) => Some(type_view(t)),
        None => None,
    }
}

/// The type `t` once the leaf condition `c` is known to be `is_true`;
/// `None` when the condition says nothing of the type (an unknown function,
/// a comparison that bounds nothing).
pub open spec fn leaf_narrowed(
    c: LeafView,
    is_true: bool,
    t: TypeView,
    anc: Seq<(Seq<char>, Seq<Seq<char>>)>,
    ifaces: Seq<Seq<char>>,
) -> Option<TypeView> {
    match c {
        LeafView::NullCheck(negated) => Some((type_check_narrowed(t.0, TypeCheck::Null, is_true != negated), t.1)),
        LeafView::InstanceOf(class) => Some(
            (instanceof_narrowed(t.0, class, anc, ifaces, is_true), t.1 && !(is_true && unconstrained(t.0))),
        ),
        LeafView::TypeFn(name) => match type_fn_narrowed(t.0, ascii_lower(name), is_true) {
            Some(v) => Some((v, t.1)),
            None => None,
        },
        LeafView::IntCompare(op, value) => match int_comparison_narrowed(t.0, op, value, is_true) {
            Some(v) => Some((v, t.1)),
            None => None,
        },
        LeafView::IntLiteral(value) => Some((literal_int_narrowed(t.0, value, is_true), t.1)),
        LeafView::BoolLiteral(value) => Some((bool_narrowed(t.0, value, is_true), t.1)),
        LeafView::StringLiteral(value, numeric) => Some((literal_string_narrowed(t.0, value, numeric, is_true), t.1)),
    }
}

/// The type once the condition `c` is known to be `is_true`, with the class
/// facts `ancestors` and `interfaces` for `instanceof`; `None` when the
/// condition says nothing of the type.
pub fn leaf_narrowing(
    c: &LeafCondition,
    is_true: bool,
    t: &AtomType,
    ancestors: &Vec<(String, Vec<String>)>,
    interfaces: &Vec<String>,
) -> (r: Option<AtomType>)
    ensures
        opt_type_view(r) == leaf_narrowed(
            leaf_view(*c),
            is_true,
            type_view(*t),
            ancestors_view(ancestors@),
            names_view(interfaces@),
        ),
{
    match c {
        LeafCondition::NullCheck { negated } => Some(null_check_narrow(t, is_true != *negated)),
        LeafCondition::InstanceOf { class } => Some(
            instanceof_narrow(t, class.as_str(), ancestors, interfaces, is_true),
        ),
        LeafCondition::TypeFn { name } => type_fn_narrow(t, name.as_str(), is_true),
        LeafCondition::IntCompare { op, value } => int_comparison_narrow(t, *op, *value, is_true),
        LeafCondition::IntLiteral { value } => Some(literal_int_narrow(t, *value, is_true)),
        LeafCondition::BoolLiteral { value } => Some(bool_narrow(t, *value, is_true)),
        LeafCondition::StringLiteral { value, numeric } => Some(
            literal_string_narrow(t, value.as_str(), *numeric, is_true),
        ),
    }
}

// ----- a whole condition -----

pub open spec fn leaves_view(ls: Seq<(u64, LeafCondition)>) -> Seq<(u64, LeafView)> {
    ls.map_values(|e: (u64, LeafCondition)| (e.0, leaf_view(e.1)))
}

/// The first leaf condition of `ls` from index `i` on that belongs to the
/// condition node `id`.
pub open spec fn leaf_at(ls: Seq<(u64, LeafView)>, id: u64, i: int) -> Option<LeafView>
    decreases ls.len() - i,
{
    if i < 0 || i >= ls.len() {
        None
    } else if ls[i].0 == id {
        Some(ls[i].1)
    } else {
        leaf_at(ls, id, i + 1)
    }
}

/// The classes of an `||` chain (through parentheses) of `instanceof`
/// leaves, in order; `None` when some disjunct is anything else.
pub open spec fn or_classes(c: Condition, ls: Seq<(u64, LeafView)>) -> Option<Seq<Seq<char>>>
    decreases c,
{
    match c.kind {
        CondKind::Parenthesized(inner) => or_classes(*inner, ls),
        CondKind::Or(l, r) => match (or_classes(*l, ls), or_classes(*r, ls)) {
            (Some(a), Some(b)) => Some(a + b),
            _ => None,
        },
        CondKind::Leaf => match leaf_at(ls, c.id, 0) {
            Some(LeafView::InstanceOf(class)) => Some(seq![class]),
            _ => None,
        },
        _ => None,
    }
}

/// The type `t` of one value once the condition `c` is known to be
/// `is_true`, where `ls` gives, by node id, the leaves that test this value:
/// parentheses are looked through, `!` flips the outcome, a held `&&` (or a
/// failed `||`) narrows by its left side and then its right, a held `||` of
/// `instanceof` checks narrows to one of the classes, and a leaf narrows by
/// its rule; anything else leaves the type as it is.
pub open spec fn cond_narrowed(
    c: Condition,
    is_true: bool,
    ls: Seq<(u64, LeafView)>,
    t: TypeView,
    anc: Seq<(Seq<char>, Seq<Seq<char>>)>,
    ifaces: Seq<Seq<char>>,
) -> TypeView
    decreases c,
{
    match c.kind {
        CondKind::Parenthesized(inner) => cond_narrowed(*inner, is_true, ls, t, anc, ifaces),
        CondKind::Not(inner) => cond_narrowed(*inner, !is_true, ls, t, anc, ifaces),
        CondKind::And(l, r) => if is_true {
            cond_narrowed(*r, true, ls, cond_narrowed(*l, true, ls, t, anc, ifaces), anc, ifaces)
        } else {
            t
        },
        CondKind::Or(l, r) => if !is_true {
            cond_narrowed(*r, false, ls, cond_narrowed(*l, false, ls, t, anc, ifaces), anc, ifaces)
        } else {
            match or_classes(c, ls) {
                Some(cs) => (instanceof_any_narrowed(t.0, cs, anc, ifaces), t.1 && !unconstrained(t.0)),
                None => t,
            }
        },
        CondKind::Leaf => match leaf_at(ls, c.id, 0) {
            Some(lc) => match leaf_narrowed(lc, is_true, t, anc, ifaces) {
                Some(n) => n,
                None => t,
            },
            None => t,
        },
    }
}

fn find_leaf(ls: &Vec<(u64, LeafCondition)>, id: u64) -> (r: Option<&LeafCondition>)
    ensures
        match r {
            Some(c) => leaf_at(leaves_view(ls@), id, 0) == Some(leaf_view(*c)),
            None => leaf_at(leaves_view(ls@), id, 0) is None,
        },
{
    let ghost lv = leaves_view(ls@);
    let mut i: usize = 0;
    while i < ls.len()
        invariant
            i <= ls@.len(),
            lv == leaves_view(ls@),
            leaf_at(lv, id, 0) == leaf_at(lv, id, i as int),
        decreases ls.len() - i,
    {
        if ls[i].0 == id {
            return Some(&ls[i].1);
        }
        i = i + 1;
    }
    None
}

fn or_classes_exec(c: &Condition, ls: &Vec<(u64, LeafCondition)>) -> (r: Option<Vec<String>>)
    ensures
        match or_classes(*c, leaves_view(ls@)) {
            Some(cs) => r matches Some(v) && names_view(v@) == cs,
            None => r is None,
        },
    decreases c,
{
    match &c.kind {
        CondKind::Parenthesized(inner) => or_classes_exec(inner, ls),
        CondKind::Or(l, r) => {
            let a = or_classes_exec(l, ls);
            let b = or_classes_exec(r, ls);
            match (a, b) {
                (Some(mut x), Some(y)) => {
                    let ghost xv = names_view(x@);
                    let ghost yv = names_view(y@);
                    let mut y = y;
                    x.append(&mut y);
                    assert(names_view(x@) =~= xv + yv);
                    Some(x)
                },
                _ => None,
            }
        },
        CondKind::Leaf => match find_leaf(ls, c.id) {
            Some(LeafCondition::InstanceOf { class }) => Some(one_name(class.as_str())),
            _ => None,
        },
        _ => None,
    }
}

/// The type `t` of one value once the condition `c` is known to be
/// `is_true`; `leaves` gives, by node id, the leaf conditions that test this
/// value, and `ancestors` and `interfaces` the class facts for `instanceof`.
pub fn narrow_on_condition(
    c: &Condition,
    is_true: bool,
    leaves: &Vec<(u64, LeafCondition)>,
    t: AtomType,
    ancestors: &Vec<(String, Vec<String>)>,
    interfaces: &Vec<String>,
) -> (r: AtomType)
    ensures
        type_view(r) == cond_narrowed(
            *c,
            is_true,
            leaves_view(leaves@),
            type_view(t),
            ancestors_view(ancestors@),
            names_view(interfaces@),
        ),
    decreases c,
{
    match &c.kind {
        CondKind::Parenthesized(inner) => narrow_on_condition(inner, is_true, leaves, t, ancestors, interfaces),
        CondKind::Not(inner) => narrow_on_condition(inner, !is_true, leaves, t, ancestors, interfaces),
        CondKind::And(l, r) => {
            if is_true {
                let m = narrow_on_condition(l, true, leaves, t, ancestors, interfaces);
                narrow_on_condition(r, true, leaves, m, ancestors, interfaces)
            } else {
                t
            }
        },
        CondKind::Or(l, r) => {
            if !is_true {
                let m = narrow_on_condition(l, false, leaves, t, ancestors, interfaces);
                narrow_on_condition(r, false, leaves, m, ancestors, interfaces)
            } else {
                match or_classes_exec(c, leaves) {
                    Some(cs) => instanceof_any_narrow(&t, &cs, ancestors, interfaces),
                    None => t,
                }
            }
        },
        CondKind::Leaf => match find_leaf(leaves, c.id) {
            Some(lc) => match leaf_narrowing(lc, is_true, &t, ancestors, interfaces) {
                Some(n) => n,
                None => t,
            },
            None => t,
        },
    }
}

// ----- laws -----

/// After a passed check every atom passes it whatever its value, and after a
/// failed one no atom does: `is_string($x)` leaves only strings, and its
/// failure leaves no string.
pub proof fn lemma_type_check_decides(ts: Seq<AtomView>, k: TypeCheck, passed: bool)
    ensures
        forall|j: int|
            0 <= j < type_check_narrowed(ts, k, passed).len() ==> is_kind(k, #[trigger] type_check_narrowed(ts, k, passed)[j])
                == passed,
{
    let step = |a: AtomView| type_check_step(k, a, passed);
    let p = |a: AtomView| is_kind(k, a) == passed;
    assert forall|a: AtomView, j: int| 0 <= j < step(a).len() implies p(#[trigger] step(a)[j]) by {
        if passed && !is_kind(k, a) {
            assert(step(a)[j] == base_of(k) || step(a)[j] == AtomView::Int || step(a)[j] == AtomView::Float
                || step(a)[j] == AtomView::NumericString || step(a)[j] == AtomView::List);
        }
    }
    crate::type_narrowing::lemma_narrowed_all(ts, step, p);
}

/// An instance of the class is no atom of the type once `instanceof` fails.
pub proof fn lemma_instanceof_false_excludes(
    ts: Seq<AtomView>,
    c: Seq<char>,
    anc: Seq<(Seq<char>, Seq<Seq<char>>)>,
    ifaces: Seq<Seq<char>>,
)
    ensures
        forall|j: int|
            0 <= j < instanceof_narrowed(ts, c, anc, ifaces, false).len() ==> !(#[trigger] instanceof_narrowed(
                ts,
                c,
                anc,
                ifaces,
                false,
            )[j] matches AtomView::Named(f) && instance_of(anc, f, c)),
{
    let step = |a: AtomView| instanceof_false_step(a, c, anc);
    let p = |a: AtomView| !(a matches AtomView::Named(f) && instance_of(anc, f, c));
    crate::type_narrowing::lemma_narrowed_all(ts, step, p);
}

/// Once `instanceof` holds, every class atom of the type is an instance of
/// the class, and so is every intersection.
pub proof fn lemma_instanceof_true_classes(
    ts: Seq<AtomView>,
    c: Seq<char>,
    anc: Seq<(Seq<char>, Seq<Seq<char>>)>,
    ifaces: Seq<Seq<char>>,
)
    ensures
        forall|j: int|
            0 <= j < instanceof_narrowed(ts, c, anc, ifaces, true).len() ==> match #[trigger] instanceof_narrowed(
                ts,
                c,
                anc,
                ifaces,
                true,
            )[j] {
                AtomView::Named(f) => instance_of(anc, f, c),
                AtomView::Intersection(ps) => any_instance_of(anc, ps, c),
                _ => true,
            },
{
    let step = |a: AtomView| instanceof_true_step(a, c, anc, ifaces);
    let p = |a: AtomView| match a {
        AtomView::Named(f) => instance_of(anc, f, c),
        AtomView::Intersection(ps) => any_instance_of(anc, ps, c),
        _ => true,
    };
    assert forall|a: AtomView, j: int| 0 <= j < step(a).len() implies p(#[trigger] step(a)[j]) by {
        let last: Seq<Seq<char>> = seq![c];
        assert(instance_of(anc, last[0], c));
        assert(part_instance_of(anc, last, c));
        match a {
            AtomView::Named(f) => {
                if !instance_of(anc, f, c) && !instance_of(anc, c, f) && can_coexist(ifaces, f, c) {
                    let ps: Seq<Seq<Seq<char>>> = seq![seq![f], last];
                    assert(ps[1] == last);
                    assert(any_instance_of(anc, ps, c));
                }
            },
            AtomView::Intersection(ps) => {
                if !any_instance_of(anc, ps, c) {
                    let qs = ps.push(last);
                    assert(qs[qs.len() - 1] == last);
                    assert(any_instance_of(anc, qs, c));
                }
            },
            _ => {},
        }
    }
    if ts.len() > 0 {
        crate::type_narrowing::lemma_narrowed_all(ts, step, p);
    }
}

/// Parentheses change nothing, `!` swaps the outcomes, a double `!` changes
/// nothing, a failed `&&` and a held `||` that is not all `instanceof`
/// leave the type as it was, and a held `&&` narrows by both sides in turn.
pub proof fn lemma_condition_connectives(
    c: Condition,
    other: Condition,
    id1: u64,
    id2: u64,
    is_true: bool,
    ls: Seq<(u64, LeafView)>,
    t: TypeView,
    anc: Seq<(Seq<char>, Seq<Seq<char>>)>,
    ifaces: Seq<Seq<char>>,
)
    ensures
        cond_narrowed(Condition { id: id1, kind: CondKind::Parenthesized(Box::new(c)) }, is_true, ls, t, anc, ifaces)
            == cond_narrowed(c, is_true, ls, t, anc, ifaces),
        cond_narrowed(Condition { id: id1, kind: CondKind::Not(Box::new(c)) }, is_true, ls, t, anc, ifaces)
            == cond_narrowed(c, !is_true, ls, t, anc, ifaces),
        cond_narrowed(
            Condition {
                id: id1,
                kind: CondKind::Not(Box::new(Condition { id: id2, kind: CondKind::Not(Box::new(c)) })),
            },
            is_true,
            ls,
            t,
            anc,
            ifaces,
        ) == cond_narrowed(c, is_true, ls, t, anc, ifaces),
        cond_narrowed(Condition { id: id1, kind: CondKind::And(Box::new(c), Box::new(other)) }, false, ls, t, anc, ifaces)
            == t,
        cond_narrowed(Condition { id: id1, kind: CondKind::And(Box::new(c), Box::new(other)) }, true, ls, t, anc, ifaces)
            == cond_narrowed(other, true, ls, cond_narrowed(c, true, ls, t, anc, ifaces), anc, ifaces),
        or_classes(Condition { id: id1, kind: CondKind::Or(Box::new(c), Box::new(other)) }, ls) is None ==> cond_narrowed(
            Condition { id: id1, kind: CondKind::Or(Box::new(c), Box::new(other)) },
            true,
            ls,
            t,
            anc,
            ifaces,
        ) == t,
{
    let inner = Condition { id: id2, kind: CondKind::Not(Box::new(c)) };
    assert(cond_narrowed(inner, !is_true, ls, t, anc, ifaces) == cond_narrowed(c, is_true, ls, t, anc, ifaces));
}

/// Each type-checking function name (lowercased) is read as the check it
/// names, and only by its name and aliases: `is_int`, `is_integer` and
/// `is_long` check for integers, `is_float`, `is_double` and `is_real` for
/// floats, `array_is_list` for lists, each `ctype_*` makes a string
/// non-empty, and so on.
pub proof fn lemma_type_fn_names(n: Seq<char>)
    ensures
        (type_fn_of(n) == Some(FnNarrowing::Check(TypeCheck::String))) <==> (n == "is_string"@),
        (type_fn_of(n) == Some(FnNarrowing::Check(TypeCheck::Int))) <==> (n == "is_int"@ || n == "is_integer"@ || n == "is_long"@),
        (type_fn_of(n) == Some(FnNarrowing::Check(TypeCheck::Float))) <==> (n == "is_float"@ || n == "is_double"@ || n == "is_real"@),
        (type_fn_of(n) == Some(FnNarrowing::Check(TypeCheck::Bool))) <==> (n == "is_bool"@),
        (type_fn_of(n) == Some(FnNarrowing::Check(TypeCheck::Null))) <==> (n == "is_null"@),
        (type_fn_of(n) == Some(FnNarrowing::Check(TypeCheck::Array))) <==> (n == "is_array"@),
        (type_fn_of(n) == Some(FnNarrowing::Check(TypeCheck::List))) <==> (n == "array_is_list"@),
        (type_fn_of(n) == Some(FnNarrowing::Check(TypeCheck::Object))) <==> (n == "is_object"@),
        (type_fn_of(n) == Some(FnNarrowing::Check(TypeCheck::Callable))) <==> (n == "is_callable"@),
        (type_fn_of(n) == Some(FnNarrowing::Check(TypeCheck::Scalar))) <==> (n == "is_scalar"@),
        (type_fn_of(n) == Some(FnNarrowing::CtypeNonEmpty)) <==> (n == "ctype_alpha"@ || n == "ctype_alnum"@ || n == "ctype_digit"@ || n == "ctype_lower"@ || n == "ctype_upper"@ || n == "ctype_punct"@ || n == "ctype_space"@ || n == "ctype_xdigit"@ || n == "ctype_print"@ || n == "ctype_graph"@ || n == "ctype_cntrl"@),
        (type_fn_of(n) == Some(FnNarrowing::ObjectOrString)) <==> (n == "method_exists"@ || n == "property_exists"@),
{
    reveal_strlit("is_string");
    assert("is_string"@.len() == 9);
    assert("is_string"@[3] == 's');
    assert("is_string"@[4] == 't');
    reveal_strlit("is_int");
    assert("is_int"@.len() == 6);
    reveal_strlit("is_integer");
    assert("is_integer"@.len() == 10);
    reveal_strlit("is_long");
    assert("is_long"@.len() == 7);
    assert("is_long"@[3] == 'l');
    reveal_strlit("is_float");
    assert("is_float"@.len() == 8);
    assert("is_float"@[3] == 'f');
    reveal_strlit("is_double");
    assert("is_double"@.len() == 9);
    assert("is_double"@[3] == 'd');
    reveal_strlit("is_real");
    assert("is_real"@.len() == 7);
    assert("is_real"@[3] == 'r');
    reveal_strlit("is_bool");
    assert("is_bool"@.len() == 7);
    assert("is_bool"@[3] == 'b');
    reveal_strlit("is_null");
    assert("is_null"@.len() == 7);
    assert("is_null"@[3] == 'n');
    reveal_strlit("is_array");
    assert("is_array"@.len() == 8);
    assert("is_array"@[3] == 'a');
    reveal_strlit("array_is_list");
    assert("array_is_list"@.len() == 13);
    assert("array_is_list"@[0] == 'a');
    reveal_strlit("is_object");
    assert("is_object"@.len() == 9);
    assert("is_object"@[3] == 'o');
    reveal_strlit("is_callable");
    assert("is_callable"@.len() == 11);
    assert("is_callable"@[0] == 'i');
    reveal_strlit("is_scalar");
    assert("is_scalar"@.len() == 9);
    assert("is_scalar"@[3] == 's');
    assert("is_scalar"@[4] == 'c');
    reveal_strlit("ctype_alpha");
    assert("ctype_alpha"@.len() == 11);
    assert("ctype_alpha"@[0] == 'c');
    assert("ctype_alpha"@[6] == 'a');
    assert("ctype_alpha"@[8] == 'p');
    reveal_strlit("ctype_alnum");
    assert("ctype_alnum"@.len() == 11);
    assert("ctype_alnum"@[0] == 'c');
    assert("ctype_alnum"@[6] == 'a');
    assert("ctype_alnum"@[8] == 'n');
    reveal_strlit("ctype_digit");
    assert("ctype_digit"@.len() == 11);
    assert("ctype_digit"@[0] == 'c');
    assert("ctype_digit"@[6] == 'd');
    reveal_strlit("ctype_lower");
    assert("ctype_lower"@.len() == 11);
    assert("ctype_lower"@[0] == 'c');
    assert("ctype_lower"@[6] == 'l');
    reveal_strlit("ctype_upper");
    assert("ctype_upper"@.len() == 11);
    assert("ctype_upper"@[0] == 'c');
    assert("ctype_upper"@[6] == 'u');
    reveal_strlit("ctype_punct");
    assert("ctype_punct"@.len() == 11);
    assert("ctype_punct"@[0] == 'c');
    assert("ctype_punct"@[6] == 'p');
    assert("ctype_punct"@[7] == 'u');
    reveal_strlit("ctype_space");
    assert("ctype_space"@.len() == 11);
    assert("ctype_space"@[0] == 'c');
    assert("ctype_space"@[6] == 's');
    reveal_strlit("ctype_xdigit");
    assert("ctype_xdigit"@.len() == 12);
    reveal_strlit("ctype_print");
    assert("ctype_print"@.len() == 11);
    assert("ctype_print"@[0] == 'c');
    assert("ctype_print"@[6] == 'p');
    assert("ctype_print"@[7] == 'r');
    reveal_strlit("ctype_graph");
    assert("ctype_graph"@.len() == 11);
    assert("ctype_graph"@[0] == 'c');
    assert("ctype_graph"@[6] == 'g');
    reveal_strlit("ctype_cntrl");
    assert("ctype_cntrl"@.len() == 11);
    assert("ctype_cntrl"@[0] == 'c');
    assert("ctype_cntrl"@[6] == 'c');
    reveal_strlit("method_exists");
    assert("method_exists"@.len() == 13);
    assert("method_exists"@[0] == 'm');
    reveal_strlit("property_exists");
    assert("property_exists"@.len() == 15);
}

/// Once `instanceof` fails, every atom that is no object stays, and so does
/// every class that is not an instance of the class; once it holds (on a
/// type about which something is known), every instance of the class
/// stays.
pub proof fn lemma_instanceof_keeps(
    ts: Seq<AtomView>,
    c: Seq<char>,
    anc: Seq<(Seq<char>, Seq<Seq<char>>)>,
    ifaces: Seq<Seq<char>>,
)
    ensures
        forall|j: int|
            0 <= j < ts.len() && !(#[trigger] ts[j] is Named || ts[j] is Intersection || ts[j] is Closure)
                ==> instanceof_narrowed(ts, c, anc, ifaces, false).contains(ts[j]),
        forall|j: int|
            0 <= j < ts.len() && (#[trigger] ts[j] matches AtomView::Named(f) && !instance_of(anc, f, c))
                ==> instanceof_narrowed(ts, c, anc, ifaces, false).contains(ts[j]),
        !unconstrained(ts) ==> forall|j: int|
            0 <= j < ts.len() && (#[trigger] ts[j] matches AtomView::Named(f) && instance_of(anc, f, c))
                ==> instanceof_narrowed(ts, c, anc, ifaces, true).contains(ts[j]),
{
    let fs = |a: AtomView| instanceof_false_step(a, c, anc);
    let p1 = |a: AtomView| !(a is Named || a is Intersection || a is Closure);
    let p2 = |a: AtomView| a matches AtomView::Named(f) && !instance_of(anc, f, c);
    assert forall|a: AtomView| #[trigger] p1(a) implies fs(a).contains(a) by {
        assert(fs(a)[0] == a);
    }
    lemma_narrowed_keeps(ts, fs, p1);
    assert forall|a: AtomView| #[trigger] p2(a) implies fs(a).contains(a) by {
        assert(fs(a)[0] == a);
    }
    lemma_narrowed_keeps(ts, fs, p2);
    let tstep = |a: AtomView| instanceof_true_step(a, c, anc, ifaces);
    let p3 = |a: AtomView| a matches AtomView::Named(f) && instance_of(anc, f, c);
    assert forall|a: AtomView| #[trigger] p3(a) implies tstep(a).contains(a) by {
        assert(tstep(a)[0] == a);
    }
    lemma_narrowed_keeps(ts, tstep, p3);
}

/// A passed `ctype_*()` check keeps every atom that is not a string.
pub proof fn lemma_ctype_keeps_non_strings(ts: Seq<AtomView>)
    ensures
        forall|j: int|
            0 <= j < ts.len() && !string_atom(#[trigger] ts[j]) ==> type_fn_narrowed(ts, "ctype_digit"@, true)->0.contains(
                ts[j],
            ),
{
    reveal_strlit("ctype_digit");
    lemma_type_fn_names("ctype_digit"@);
    let step = |a: AtomView| non_empty_step(a);
    let p = |a: AtomView| !string_atom(a);
    assert forall|a: AtomView| #[trigger] p(a) implies step(a).contains(a) by {
        assert(step(a)[0] == a);
    }
    lemma_narrowed_keeps(ts, step, p);
}

/// The atoms a check is about, by atom family: integers for `is_int`,
/// strings for `is_string`, booleans for `is_bool`, and so on.
pub open spec fn check_family(k: TypeCheck, a: AtomView) -> bool {
    match k {
        TypeCheck::String => string_atom(a),
        TypeCheck::Int => integer_atom(a),
        TypeCheck::Float => a is Float,
        TypeCheck::Bool => boolean_atom(a),
        TypeCheck::Null => a is Null,
        TypeCheck::Array => a is Array || a is List,
        TypeCheck::List => a is List,
        TypeCheck::Object => a is Object || a is Named || a is Intersection || a is Closure,
        TypeCheck::Callable => a is Callable || a is Closure || a is CallableString,
        TypeCheck::Scalar => string_atom(a) || integer_atom(a) || boolean_atom(a) || a is Float || a is Scalar
            || a is Numeric,
    }
}

/// A check holds of exactly the atoms of its family: once it passed, every
/// atom of that family in the type stays and every atom left is of it; once
/// it failed, every atom outside the family stays and none of it is left.
/// (`is_int($x)` keeps `positive-int` and drops `null`; its failure drops
/// `positive-int` and keeps `null`.)
pub proof fn lemma_type_check_families(ts: Seq<AtomView>, k: TypeCheck)
    ensures
        forall|j: int| 0 <= j < ts.len() && check_family(k, #[trigger] ts[j]) ==> type_check_narrowed(ts, k, true).contains(ts[j]),
        forall|j: int|
            0 <= j < type_check_narrowed(ts, k, true).len() ==> check_family(k, #[trigger] type_check_narrowed(ts, k, true)[j]),
        forall|j: int| 0 <= j < ts.len() && !check_family(k, #[trigger] ts[j]) ==> type_check_narrowed(ts, k, false).contains(ts[j]),
        forall|j: int|
            0 <= j < type_check_narrowed(ts, k, false).len() ==> !check_family(k, #[trigger] type_check_narrowed(ts, k, false)[j]),
{
    assert forall|a: AtomView| #[trigger] is_kind(k, a) == check_family(k, a) by {}
    let pass = |a: AtomView| type_check_step(k, a, true);
    let fail = |a: AtomView| type_check_step(k, a, false);
    let inf = |a: AtomView| check_family(k, a);
    let outf = |a: AtomView| !check_family(k, a);
    assert forall|a: AtomView| #[trigger] inf(a) implies pass(a).contains(a) by {
        assert(pass(a)[0] == a);
    }
    lemma_narrowed_keeps(ts, pass, inf);
    assert forall|a: AtomView| #[trigger] outf(a) implies fail(a).contains(a) by {
        assert(fail(a)[0] == a);
    }
    lemma_narrowed_keeps(ts, fail, outf);
    lemma_type_check_decides(ts, k, true);
    lemma_type_check_decides(ts, k, false);
}

/// A passed check on a type that holds `mixed` gives the plain type it
/// checks for: `is_int` gives `int`, `is_string` `string`, `is_null`
/// `null`, `array_is_list` `list`, and so on.
pub proof fn lemma_passed_check_on_mixed(ts: Seq<AtomView>, k: TypeCheck, j: int)
    requires
        0 <= j < ts.len(),
        ts[j] is Mixed,
    ensures
        type_check_narrowed(ts, k, true).contains(
            match k {
                TypeCheck::String => AtomView::String,
                TypeCheck::Int => AtomView::Int,
                TypeCheck::Float => AtomView::Float,
                TypeCheck::Bool => AtomView::Bool,
                TypeCheck::Null => AtomView::Null,
                TypeCheck::Array => AtomView::Array,
                TypeCheck::List => AtomView::List,
                TypeCheck::Object => AtomView::Object,
                TypeCheck::Callable => AtomView::Callable,
                TypeCheck::Scalar => AtomView::Scalar,
            },
        ),
{
    let step = |a: AtomView| type_check_step(k, a, true);
    assert(step(ts[j])[0] == base_of(k));
    crate::type_narrowing::lemma_narrowed_has(ts, step, j, base_of(k));
}

} // verus!

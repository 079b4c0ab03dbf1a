//! `int-mask<..>` and `int-mask-of<..>`: every OR-combination of a small set
//! of non-negative flags.
use vstd::prelude::*;
use crate::text::{
    chars_of, copy_range, eq_ignore_ascii_case, find_char, find_char_in, find_sub, find_sub_from,
    has_at, lemma_first_where_bounds, rfind_at, rfind_sub, same_ignoring_ascii_case, starts_at,
    trim, parse_i64,
};
use super::scan::split_pieces;

verus! {

/// Whether bit `i` of `subset` is set.
pub open spec fn bit_set(subset: u32, i: int) -> bool {
    subset & (1u32 << (i as u32)) != 0
}

/// The OR of the members `ms[j]`, `j < k`, whose bit is set in `subset`.
pub open spec fn mask_or(ms: Seq<i64>, subset: u32, k: int) -> i64
    decreases k,
{
    if k <= 0 {
        0
    } else {
        let acc = mask_or(ms, subset, k - 1);
        if bit_set(subset, k - 1) {
            acc | ms[k - 1]
        } else {
            acc
        }
    }
}

/// Every OR-combination of `ms`, the empty one (`0`) included.
pub open spec fn mask_values(ms: Seq<i64>) -> Set<i64> {
    Set::new(
        |v: i64|
            exists|s: u32| s < (1u32 << (ms.len() as u32)) && #[trigger] mask_or(ms, s, ms.len() as int) == v,
    )
}

/// The members can be expanded: at least one, at most eight, none negative.
pub open spec fn mask_expandable(ms: Seq<i64>) -> bool {
    &&& 0 < ms.len() <= 8
    &&& forall|i: int| 0 <= i < ms.len() ==> ms[i] >= 0
}

pub open spec fn strictly_increasing(s: Seq<i64>) -> bool {
    forall|i: int, j: int| 0 <= i < j < s.len() ==> s[i] < s[j]
}

fn or_of(ms: &[i64], subset: u32) -> (r: i64)
    requires
        ms@.len() <= 32,
    ensures
        r == mask_or(ms@, subset, ms@.len() as int),
{
    let mut acc: i64 = 0;
    let mut i: usize = 0;
    while i < ms.len()
        invariant
            i <= ms@.len() <= 32,
            acc == mask_or(ms@, subset, i as int),
        decreases ms.len() - i,
    {
        let bit: u32 = 1u32 << (i as u32);
        if subset & bit != 0 {
            acc = acc | ms[i];
        }
        i = i + 1;
    }
    acc
}

/// Adds `x` to the strictly increasing `v`, keeping it so.
fn insert_sorted(v: &mut Vec<i64>, x: i64)
    requires
        strictly_increasing(old(v)@),
    ensures
        strictly_increasing(final(v)@),
        final(v)@.to_set() == old(v)@.to_set().insert(x),
{
    let mut p: usize = 0;
    while p < v.len() && v[p] < x
        invariant
            p <= v@.len(),
            forall|k: int| 0 <= k < p ==> v@[k] < x,
        decreases v.len() - p,
    {
        p = p + 1;
    }
    if p < v.len() && v[p] == x {
        proof {
            assert(v@.to_set().insert(x) =~= v@.to_set()) by {
                assert(v@.to_set().contains(x)) by {
                    assert(v@[p as int] == x);
                }
            }
        }
        return;
    }
    let ghost old_v = v@;
    v.insert(p, x);
    proof {
        assert(v@ =~= old_v.subrange(0, p as int).push(x) + old_v.subrange(p as int, old_v.len() as int));
        assert forall|i: int, j: int| 0 <= i < j < v@.len() implies v@[i] < v@[j] by {
            if j < p {
            } else if j == p {
            } else if i < p {
                assert(v@[j] == old_v[j - 1]);
                assert(old_v[j - 1] >= x) by {
                    if j - 1 > p {
                        assert(old_v[p as int] < old_v[j - 1]);
                    }
                }
            } else if i == p {
                assert(v@[j] == old_v[j - 1]);
                if j - 1 > p {
                    assert(old_v[p as int] < old_v[j - 1]);
                }
            } else {
                assert(v@[i] == old_v[i - 1]);
                assert(v@[j] == old_v[j - 1]);
            }
        }
        assert forall|y: i64| v@.to_set().contains(y) <==> old_v.to_set().insert(x).contains(y) by {
            if v@.to_set().contains(y) {
                let k = choose|k: int| 0 <= k < v@.len() && v@[k] == y;
                if k < p {
                    assert(old_v[k] == y);
                } else if k > p {
                    assert(old_v[k - 1] == y);
                }
            }
            if old_v.to_set().contains(y) {
                let k = choose|k: int| 0 <= k < old_v.len() && old_v[k] == y;
                if k < p {
                    assert(v@[k] == y);
                } else {
                    assert(v@[k + 1] == y);
                }
            }
            if y == x {
                assert(v@[p as int] == x);
            }
        }
        assert(v@.to_set() =~= old_v.to_set().insert(x));
    }
}

/// Expands a small set of non-negative int flags into every OR-combination,
/// `0` (no flag set) included, in increasing order; `None` when there are no
/// members, more than eight, or a negative one.
pub fn expand_int_mask_members(members: &[i64]) -> (r: Option<Vec<i64>>)
    ensures
        r is Some <==> mask_expandable(members@),
        r matches Some(v) ==> strictly_increasing(v@) && v@.to_set() == mask_values(members@),
{
    let n = members.len();
    if n == 0 || n > 8 {
        return None;
    }
    let mut i: usize = 0;
    while i < n
        invariant
            i <= n == members@.len(),
            forall|k: int| 0 <= k < i ==> members@[k] >= 0,
        decreases n - i,
    {
        if members[i] < 0 {
            return None;
        }
        i = i + 1;
    }
    let ghost ms = members@;
    let limit: u32 = 1u32 << (n as u32);
    let mut values: Vec<i64> = Vec::new();
    let mut subset: u32 = 0;
    proof {
        assert(values@.to_set() =~= Set::<i64>::empty());
        assert(Set::new(|v: i64| exists|s: u32| s < 0 && #[trigger] mask_or(ms, s, n as int) == v) =~= Set::<i64>::empty());
    }
    while subset < limit
        invariant
            ms == members@,
            n == ms.len() <= 8,
            limit == 1u32 << (n as u32),
            subset <= limit,
            strictly_increasing(values@),
            values@.to_set() == Set::new(
                |v: i64| exists|s: u32| s < subset && #[trigger] mask_or(ms, s, n as int) == v,
            ),
        decreases limit - subset,
    {
        let x = or_of(members, subset);
        let ghost before = values@.to_set();
        insert_sorted(&mut values, x);
        proof {
            let now = Set::new(
                |v: i64| exists|s: u32| s < subset + 1 && #[trigger] mask_or(ms, s, n as int) == v,
            );
            assert forall|y: i64| now.contains(y) <==> before.insert(x).contains(y) by {
                if now.contains(y) {
                    let s = choose|s: u32| s < subset + 1 && #[trigger] mask_or(ms, s, n as int) == y;
                    if s < subset {
                        assert(before.contains(y));
                    }
                }
                if before.contains(y) {
                    let s = choose|s: u32| s < subset && #[trigger] mask_or(ms, s, n as int) == y;
                    assert(now.contains(y));
                }
                if y == x {
                    assert(mask_or(ms, subset, n as int) == y);
                    assert(now.contains(y));
                }
            }
            assert(values@.to_set() =~= now);
        }
        subset = subset + 1;
    }
    proof {
        assert(values@.to_set() =~= mask_values(members@));
    }
    Some(values)
}

/// With no flag chosen the combination is `0`.
proof fn lemma_mask_or_zero(ms: Seq<i64>, k: int)
    requires
        k <= 32,
    ensures
        mask_or(ms, 0, k) == 0,
    decreases k,
{
    if k > 0 {
        lemma_mask_or_zero(ms, k - 1);
        let b: u32 = (k - 1) as u32;
        assert(0u32 & (1u32 << b) == 0) by (bit_vector);
    }
}

/// With exactly flag `i` chosen the combination is `ms[i]`.
proof fn lemma_mask_or_single(ms: Seq<i64>, i: int, k: int)
    requires
        0 <= i < 32,
        k <= 32,
    ensures
        mask_or(ms, (1u32 << (i as u32)), k) == if k > i {
            ms[i]
        } else {
            0
        },
    decreases k,
{
    if k > 0 {
        lemma_mask_or_single(ms, i, k - 1);
        let a: u32 = i as u32;
        let b: u32 = (k - 1) as u32;
        assert(a < 32 && b < 32 ==> ((1u32 << a) & (1u32 << b) != 0 <==> a == b)) by (bit_vector);
        if k - 1 == i {
            let m = ms[i];
            assert(0i64 | m == m) by (bit_vector);
        }
    }
}

/// The expansion of an int mask holds `0` (no flag set) and every member on
/// its own.
pub proof fn lemma_mask_values_hold_zero_and_members(ms: Seq<i64>)
    requires
        mask_expandable(ms),
    ensures
        mask_values(ms).contains(0),
        forall|i: int| 0 <= i < ms.len() ==> mask_values(ms).contains(#[trigger] ms[i]),
{
    let n: u32 = ms.len() as u32;
    assert(n <= 8 ==> 0u32 < (1u32 << n)) by (bit_vector);
    lemma_mask_or_zero(ms, ms.len() as int);
    assert(mask_or(ms, 0, ms.len() as int) == 0);
    assert forall|i: int| 0 <= i < ms.len() implies mask_values(ms).contains(#[trigger] ms[i]) by {
        let a: u32 = i as u32;
        assert(a < n && n <= 8 ==> (1u32 << a) < (1u32 << n)) by (bit_vector);
        lemma_mask_or_single(ms, i, ms.len() as int);
        assert(mask_or(ms, (1u32 << a), ms.len() as int) == ms[i]);
    }
}

/// The literal-int constants of the class whose members are being read:
/// `int-mask-of<self::FLAG_*>` resolves against them.
pub struct SelfIntConstants {
    pub fqcn: String,
    /// `(constant name, value)`.
    pub constants: Vec<(String, i64)>,
}

pub open spec fn consts_view(c: Seq<(String, i64)>) -> Seq<(Seq<char>, i64)> {
    c.map_values(|x: (String, i64)| (x.0@, x.1))
}

/// `T::PREFIX*`: `(T, PREFIX)`.
pub open spec fn mask_target(inner: Seq<char>) -> Option<(Seq<char>, Seq<char>)> {
    let t = trim(inner);
    let k = find_sub(t, "::"@);
    if k >= t.len() {
        None
    } else {
        let pattern = trim(t.skip(k + 2));
        if pattern.len() > 0 && pattern.last() == '*' {
            Some((trim(t.take(k)), pattern.drop_last()))
        } else {
            None
        }
    }
}

/// `class_ref` names the class `fqcn` itself: `self`, `static`, `$this`,
/// its full name, or (unqualified) its short name, ASCII case ignored.
pub open spec fn names_self(class_ref: Seq<char>, fqcn: Seq<char>) -> bool {
    let short = fqcn.skip(rfind_sub(fqcn, "\\"@) + 1);
    ||| class_ref == "self"@
    ||| class_ref == "static"@
    ||| class_ref == "$this"@
    ||| eq_ignore_ascii_case(class_ref, fqcn)
    ||| (find_char(class_ref, '\\') >= class_ref.len() && eq_ignore_ascii_case(class_ref, short))
}

/// The values of the constants whose names start with `prefix`.
pub open spec fn members_of(consts: Seq<(Seq<char>, i64)>, prefix: Seq<char>) -> Set<i64> {
    Set::new(
        |v: i64|
            exists|i: int|
                0 <= i < consts.len() && starts_at(consts[i].0, 0, prefix) && #[trigger] consts[i].1 == v,
    )
}

/// The flags an `int-mask-of<..>` body names, when it can be resolved.
pub open spec fn int_mask_of_members(
    inner: Seq<char>,
    active: Option<(Seq<char>, Seq<(Seq<char>, i64)>)>,
) -> Option<Set<i64>> {
    match mask_target(inner) {
        None => None,
        Some((class_ref, prefix)) => match active {
            None => None,
            Some((fqcn, consts)) => if names_self(class_ref, fqcn) {
                Some(members_of(consts, prefix))
            } else {
                None
            },
        },
    }
}

/// The members of a set in increasing order.
pub open spec fn listing_of(s: Set<i64>) -> Seq<i64> {
    choose|q: Seq<i64>| strictly_increasing(q) && q.to_set() == s
}

/// A set has one increasing listing.
pub proof fn lemma_listing_unique(a: Seq<i64>, b: Seq<i64>)
    requires
        strictly_increasing(a),
        strictly_increasing(b),
        a.to_set() == b.to_set(),
    ensures
        a == b,
    decreases a.len(),
{
    if a.len() == 0 {
        if b.len() > 0 {
            assert(b.to_set().contains(b[0]));
        }
        assert(b.len() == 0);
        assert(a =~= b);
    } else {
        assert(a.to_set().contains(a[0]));
        assert(b.len() > 0) by {
            assert(b.to_set().contains(a[0]));
        }
        assert(b.to_set().contains(b[0]));
        assert(a[0] == b[0]) by {
            let i = choose|i: int| 0 <= i < a.len() && a[i] == b[0];
            let j = choose|j: int| 0 <= j < b.len() && b[j] == a[0];
            if i > 0 {
                assert(a[0] < a[i]);
            }
            if j > 0 {
                assert(b[0] < b[j]);
            }
        }
        let a1 = a.drop_first();
        let b1 = b.drop_first();
        assert forall|y: i64| a1.to_set().contains(y) <==> b1.to_set().contains(y) by {
            if a1.to_set().contains(y) {
                let i = choose|i: int| 0 <= i < a1.len() && a1[i] == y;
                assert(a[i + 1] == y);
                assert(a.to_set().contains(y));
                let j = choose|j: int| 0 <= j < b.len() && b[j] == y;
                assert(y != b[0]) by {
                    assert(a[0] < a[i + 1]);
                }
                assert(b1[j - 1] == y);
            }
            if b1.to_set().contains(y) {
                let j = choose|j: int| 0 <= j < b1.len() && b1[j] == y;
                assert(b[j + 1] == y);
                assert(b.to_set().contains(y));
                let i = choose|i: int| 0 <= i < a.len() && a[i] == y;
                assert(y != a[0]) by {
                    assert(b[0] < b[j + 1]);
                }
                assert(a1[i - 1] == y);
            }
        }
        assert(a1.to_set() =~= b1.to_set());
        lemma_listing_unique(a1, b1);
        assert(a =~= b) by {
            assert forall|k: int| 0 <= k < a.len() implies a[k] == b[k] by {
                if k > 0 {
                    assert(a[k] == a1[k - 1]);
                    assert(b[k] == b1[k - 1]);
                }
            }
        }
    }
}

fn trim_vec(s: &[char]) -> (r: Vec<char>)
    ensures
        r@ == trim(s@),
{
    let (a, b) = crate::text::trim_range(s, 0, s.len());
    proof {
        assert(s@.subrange(0, s@.len() as int) =~= s@);
    }
    copy_range(s, a, b)
}

fn lit_eq(s: &[char], l: &str) -> (r: bool)
    ensures
        r == (s@ == l@),
{
    let c = chars_of(l);
    super::validate::chars_eq(s, c.as_slice())
}

fn names_self_exec(class_ref: &[char], fqcn: &[char]) -> (r: bool)
    ensures
        r == names_self(class_ref@, fqcn@),
{
    if lit_eq(class_ref, "self") || lit_eq(class_ref, "static") || lit_eq(class_ref, "$this") {
        return true;
    }
    if same_ignoring_ascii_case(class_ref, fqcn) {
        return true;
    }
    let n = fqcn.len();
    let sep = chars_of("\\");
    proof {
        reveal_strlit("\\");
    }
    let start = match rfind_at(fqcn, n, sep.as_slice()) {
        Some(i) => {
            proof {
                crate::text::lemma_last_where(|j: int| starts_at(fqcn@.take(n as int), j, "\\"@), n as int);
            }
            i + 1
        },
        None => 0,
    };
    proof {
        assert(fqcn@.take(n as int) =~= fqcn@);
    }
    let short = copy_range(fqcn, start, n);
    proof {
        assert(short@ =~= fqcn@.skip(rfind_sub(fqcn@, "\\"@) + 1));
        assert(class_ref@.subrange(0, class_ref@.len() as int) =~= class_ref@);
    }
    let qualified = find_char_in(class_ref, 0, class_ref.len(), '\\') < class_ref.len();
    !qualified && same_ignoring_ascii_case(class_ref, short.as_slice())
}

/// Resolves `int-mask-of<T::PREFIX*>` against the constants of the class
/// being read (`active`), when `T` names that class: the OR-combinations of
/// the matching constants' distinct values, in increasing order. `None` when
/// there is no active class, `T` names another class, the body has another
/// shape, or the values cannot be expanded.
pub fn resolve_int_mask_of(inner: &str, active: Option<&SelfIntConstants>) -> (r: Option<Vec<i64>>)
    ensures
        match int_mask_of_members(
            inner@,
            match active {
                Some(a) => Some((a.fqcn@, consts_view(a.constants@))),
                None => None,
            },
        ) {
            None => r is None,
            Some(set) => (r is Some <==> mask_expandable(listing_of(set))) && (r matches Some(v)
                ==> strictly_increasing(v@) && v@.to_set() == mask_values(listing_of(set))),
        },
{
    let cs = chars_of(inner);
    let t = trim_vec(cs.as_slice());
    let colons = chars_of("::");
    proof {
        reveal_strlit("::");
        assert(t@.skip(0) =~= t@);
    }
    let k = match find_sub_from(t.as_slice(), 0, colons.as_slice()) {
        Some(k) => k,
        None => {
            return None;
        },
    };
    proof {
        lemma_first_where_bounds(t@.len() as int, |i: int| starts_at(t@, i, "::"@), 0);
        assert(starts_at(t@, k as int, "::"@));
        assert(k + 2 <= t@.len());
    }
    let class_ref = trim_vec(copy_range(t.as_slice(), 0, k).as_slice());
    let tn = t.len();
    let pattern = trim_vec(copy_range(t.as_slice(), k + 2, tn).as_slice());
    proof {
        assert(t@.subrange(0, k as int) =~= t@.take(k as int));
        assert(t@.subrange(k + 2, t@.len() as int) =~= t@.skip(k + 2));
    }
    if pattern.len() == 0 || pattern[pattern.len() - 1] != '*' {
        return None;
    }
    let prefix = copy_range(pattern.as_slice(), 0, pattern.len() - 1);
    proof {
        assert(prefix@ =~= pattern@.drop_last());
    }
    let a = match active {
        Some(a) => a,
        None => {
            return None;
        },
    };
    let fq = chars_of(a.fqcn.as_str());
    if !names_self_exec(class_ref.as_slice(), fq.as_slice()) {
        return None;
    }
    let ghost consts = consts_view(a.constants@);
    let ghost set = members_of(consts, prefix@);
    let mut members: Vec<i64> = Vec::new();
    let mut i: usize = 0;
    proof {
        assert(members@.to_set() =~= Set::<i64>::empty());
    }
    while i < a.constants.len()
        invariant
            i <= a.constants@.len(),
            consts == consts_view(a.constants@),
            strictly_increasing(members@),
            members@.to_set() == Set::new(
                |v: i64|
                    exists|j: int|
                        0 <= j < i && starts_at(consts[j].0, 0, prefix@) && #[trigger] consts[j].1 == v,
            ),
        decreases a.constants.len() - i,
    {
        let (name, value) = &a.constants[i];
        let nc = chars_of(name.as_str());
        let ghost before = members@.to_set();
        let hit = prefix.len() <= nc.len() && has_at(nc.as_slice(), 0, prefix.as_slice());
        proof {
            assert(consts[i as int] == (name@, *value));
            assert(hit == starts_at(consts[i as int].0, 0, prefix@));
        }
        if hit {
            insert_sorted(&mut members, *value);
        }
        proof {
            let now = Set::new(
                |v: i64|
                    exists|j: int|
                        0 <= j < i + 1 && starts_at(consts[j].0, 0, prefix@) && #[trigger] consts[j].1 == v,
            );
            assert forall|y: i64| members@.to_set().contains(y) <==> now.contains(y) by {
                if now.contains(y) {
                    let j = choose|j: int|
                        0 <= j < i + 1 && starts_at(consts[j].0, 0, prefix@) && #[trigger] consts[j].1 == y;
                    if j < i {
                        assert(before.contains(y));
                    }
                }
                if before.contains(y) {
                    let j = choose|j: int|
                        0 <= j < i && starts_at(consts[j].0, 0, prefix@) && #[trigger] consts[j].1 == y;
                    assert(now.contains(y));
                }
                if hit && y == *value {
                    assert(consts[i as int].1 == y);
                    assert(now.contains(y));
                }
            }
            assert(members@.to_set() =~= now);
        }
        i = i + 1;
    }
    proof {
        assert(members@.to_set() =~= set);
        assert(strictly_increasing(listing_of(set)) && listing_of(set).to_set() == set);
        lemma_listing_unique(members@, listing_of(set));
    }
    expand_int_mask_members(members.as_slice())
}

/// The integers of `int-mask<V1, V2, ...>` when every argument is an integer
/// literal.
pub open spec fn mask_literals(inner: Seq<char>) -> Option<Seq<i64>> {
    let parts = split_pieces(inner, ',', false);
    if parts.len() > 0 && forall|i: int| 0 <= i < parts.len() ==> parse_i64(trim(#[trigger] parts[i])) is Some {
        Some(parts.map_values(|p: Seq<char>| parse_i64(trim(p))->0))
    } else {
        None
    }
}

/// `int-mask<V1, V2, ...>`: the values it stands for, when every argument
/// is an integer literal and they expand (see `expand_int_mask_members`);
/// `None` where the type falls back to plain `int`.
pub fn expand_int_mask(inner: &str) -> (r: Option<Vec<i64>>)
    ensures
        match mask_literals(inner@) {
            None => r is None,
            Some(ms) => (r is Some <==> mask_expandable(ms)) && (r matches Some(v) ==> strictly_increasing(v@)
                && v@.to_set() == mask_values(ms)),
        },
{
    let parts = super::scan::split_generics(inner);
    let ghost pv = super::scan::strings_view(parts@);
    let mut members: Vec<i64> = Vec::new();
    let mut i: usize = 0;
    while i < parts.len()
        invariant
            i <= parts@.len(),
            pv == super::scan::strings_view(parts@),
            pv == split_pieces(inner@, ',', false),
            members@.len() == i,
            forall|k: int| 0 <= k < i ==> parse_i64(trim(#[trigger] pv[k])) == Some(members@[k]),
        decreases parts.len() - i,
    {
        let pc = chars_of(parts[i].as_str());
        let t = trim_vec(pc.as_slice());
        proof {
            assert(pv[i as int] == pc@);
            assert(t@.subrange(0, t@.len() as int) =~= t@);
        }
        match crate::text::parse_i64_at(t.as_slice(), 0, t.len()) {
            Some(v) => members.push(v),
            None => {
                proof {
                    assert(!(forall|j: int| 0 <= j < pv.len() ==> parse_i64(trim(#[trigger] pv[j])) is Some));
                }
                return None;
            },
        }
        i = i + 1;
    }
    if members.len() == 0 {
        return None;
    }
    proof {
        assert(members@ =~= pv.map_values(|p: Seq<char>| parse_i64(trim(p))->0));
    }
    expand_int_mask_members(members.as_slice())
}

} // verus!

//! `Name<...>` in a PHPDoc type: which generic form it is, and the texts of
//! its arguments.
use vstd::prelude::*;
use crate::text::{chars_of, copy_range, lowercase_of, parse_i64, string_of, to_lowercase, trim};
use super::int_mask::{
    consts_view, expand_int_mask, int_mask_of_members, listing_of, mask_expandable, mask_literals,
    mask_values, resolve_int_mask_of, strictly_increasing, SelfIntConstants,
};
use super::scan::{split_generics, split_pieces, strings_view};

verus! {

broadcast use vstd::string::group_string_axioms;

/// A generic type, its arguments as trimmed type texts.
pub enum GenericSyntax {
    /// `array<K, V>` / `non-empty-array<K, V>`: a missing key is `int|string`,
    /// a missing value `mixed`.
    Array { non_empty: bool, key: Option<String>, value: Option<String> },
    /// `list<T>` / `non-empty-list<T>`.
    List { non_empty: bool, value: String },
    /// `iterable<K, V>`: a missing key or value is `mixed`.
    Iterable { key: Option<String>, value: Option<String> },
    ClassString(String),
    InterfaceString(String),
    /// `int<min, max>`: `None` is unbounded on that side.
    IntRange { min: Option<i64>, max: Option<i64> },
    KeyOf(String),
    ValueOf(String),
    /// `int-mask<...>`: the values, or `None` for plain `int`.
    IntMask(Option<Vec<i64>>),
    /// `int-mask-of<...>`: the values, or `None` for plain `int`.
    IntMaskOf(Option<Vec<i64>>),
    /// `class-string-map<T, V>`: an array from class strings to the value
    /// type (`V`, or `T` when it is the only argument; `mixed` when neither).
    ClassStringMap(Option<String>),
    /// A class with type arguments.
    Named { fqcn: String, params: Vec<String> },
}

pub enum GenericView {
    Array(bool, Option<Seq<char>>, Option<Seq<char>>),
    List(bool, Seq<char>),
    Iterable(Option<Seq<char>>, Option<Seq<char>>),
    ClassString(Seq<char>),
    InterfaceString(Seq<char>),
    IntRange(Option<i64>, Option<i64>),
    KeyOf(Seq<char>),
    ValueOf(Seq<char>),
    IntMask,
    IntMaskOf,
    ClassStringMap(Option<Seq<char>>),
    Named(Seq<char>, Seq<Seq<char>>),
}

pub open spec fn opt_view(o: Option<String>) -> Option<Seq<char>> {
    match o {
        Some(s) => Some(s@),
        None => None,
    }
}

pub open spec fn generic_view(g: GenericSyntax) -> GenericView {
    match g {
        GenericSyntax::Array { non_empty, key, value } => GenericView::Array(
            non_empty,
            opt_view(key),
            opt_view(value),
        ),
        GenericSyntax::List { non_empty, value } => GenericView::List(non_empty, value@),
        GenericSyntax::Iterable { key, value } => GenericView::Iterable(opt_view(key), opt_view(value)),
        GenericSyntax::ClassString(s) => GenericView::ClassString(s@),
        GenericSyntax::InterfaceString(s) => GenericView::InterfaceString(s@),
        GenericSyntax::IntRange { min, max } => GenericView::IntRange(min, max),
        GenericSyntax::KeyOf(s) => GenericView::KeyOf(s@),
        GenericSyntax::ValueOf(s) => GenericView::ValueOf(s@),
        GenericSyntax::IntMask(_) => GenericView::IntMask,
        GenericSyntax::IntMaskOf(_) => GenericView::IntMaskOf,
        GenericSyntax::ClassStringMap(v) => GenericView::ClassStringMap(opt_view(v)),
        GenericSyntax::Named { fqcn, params } => GenericView::Named(fqcn@, strings_view(params@)),
    }
}

/// The trimmed key and value arguments: two or more give both, one gives
/// the value alone.
pub open spec fn key_value(params: Seq<Seq<char>>) -> (Option<Seq<char>>, Option<Seq<char>>) {
    if params.len() >= 2 {
        (Some(trim(params[0])), Some(trim(params[1])))
    } else if params.len() == 1 {
        (None, Some(trim(params[0])))
    } else {
        (None, None)
    }
}

/// A bound of `int<..>`: `min`, `max` or a garbled number leave that side open.
pub open spec fn int_bound(b: Seq<char>) -> Option<i64> {
    let t = trim(b);
    if t == "min"@ || t == "max"@ {
        None
    } else {
        parse_i64(t)
    }
}

pub open spec fn trim_all(params: Seq<Seq<char>>) -> Seq<Seq<char>> {
    params.map_values(|p: Seq<char>| trim(p))
}

/// Which generic form `name<inner>` is.
pub open spec fn generic_of(name: Seq<char>, inner: Seq<char>) -> GenericView {
    let l = lowercase_of(name);
    let params = split_pieces(inner, ',', false);
    let (key, value) = key_value(params);
    if l == "array"@ || l == "non-empty-array"@ {
        GenericView::Array(l == "non-empty-array"@, key, value)
    } else if l == "list"@ || l == "non-empty-list"@ {
        GenericView::List(l == "non-empty-list"@, trim(inner))
    } else if l == "iterable"@ {
        GenericView::Iterable(key, value)
    } else if l == "class-string"@ {
        GenericView::ClassString(trim(inner))
    } else if l == "interface-string"@ {
        GenericView::InterfaceString(trim(inner))
    } else if l == "int"@ {
        if params.len() == 2 {
            GenericView::IntRange(int_bound(params[0]), int_bound(params[1]))
        } else {
            GenericView::IntRange(None, None)
        }
    } else if l == "key-of"@ {
        GenericView::KeyOf(trim(inner))
    } else if l == "value-of"@ {
        GenericView::ValueOf(trim(inner))
    } else if l == "int-mask"@ {
        GenericView::IntMask
    } else if l == "int-mask-of"@ {
        GenericView::IntMaskOf
    } else if l == "class-string-map"@ {
        GenericView::ClassStringMap(
            if params.len() >= 2 {
                Some(trim(params[1]))
            } else if params.len() == 1 {
                Some(trim(params[0]))
            } else {
                None
            },
        )
    } else {
        GenericView::Named(name, trim_all(params))
    }
}

/// Each generic name (in any case) is read as the generic it names, and
/// only by that name: `array<..>` and `non-empty-array<..>` (non-empty
/// exactly for the latter), `list<..>` and `non-empty-list<..>`,
/// `iterable`, `class-string`, `interface-string`, `int<..>` ranges,
/// `key-of`, `value-of`, `int-mask`, `int-mask-of` and `class-string-map`;
/// any other name is a class with the trimmed arguments.
pub proof fn lemma_generic_names(name: Seq<char>, inner: Seq<char>)
    ensures
        ({
            let l = lowercase_of(name);
            let g = generic_of(name, inner);
            &&& (g is Array <==> (l == "array"@ || l == "non-empty-array"@))
            &&& (g matches GenericView::Array(ne, _, _) ==> ne == (l == "non-empty-array"@))
            &&& (g is List <==> (l == "list"@ || l == "non-empty-list"@))
            &&& (g matches GenericView::List(ne, v) ==> ne == (l == "non-empty-list"@) && v == trim(inner))
            &&& (g is Iterable <==> l == "iterable"@)
            &&& (g is ClassString <==> l == "class-string"@)
            &&& (g is InterfaceString <==> l == "interface-string"@)
            &&& (g is IntRange <==> l == "int"@)
            &&& (g is KeyOf <==> l == "key-of"@)
            &&& (g is ValueOf <==> l == "value-of"@)
            &&& (g matches GenericView::KeyOf(x) ==> x == trim(inner))
            &&& (g matches GenericView::ValueOf(x) ==> x == trim(inner))
            &&& (g is IntMask <==> l == "int-mask"@)
            &&& (g is IntMaskOf <==> l == "int-mask-of"@)
            &&& (g is ClassStringMap <==> l == "class-string-map"@)
            &&& (g is Named <==> !(l == "array"@ || l == "non-empty-array"@ || l == "list"@ || l == "non-empty-list"@ || l == "iterable"@ || l == "class-string"@ || l == "interface-string"@ || l == "int"@ || l == "key-of"@ || l == "value-of"@ || l == "int-mask"@ || l == "int-mask-of"@ || l == "class-string-map"@))
            &&& (g matches GenericView::Named(n, ps) ==> n == name)
        }),
{
    reveal_strlit("array");
    assert("array"@.len() == 5);
    reveal_strlit("non-empty-array");
    assert("non-empty-array"@.len() == 15);
    reveal_strlit("list");
    assert("list"@.len() == 4);
    reveal_strlit("non-empty-list");
    assert("non-empty-list"@.len() == 14);
    reveal_strlit("iterable");
    assert("iterable"@.len() == 8);
    assert("iterable"@[0] == 'i');
    assert("iterable"@[1] == 't');
    reveal_strlit("class-string");
    assert("class-string"@.len() == 12);
    reveal_strlit("interface-string");
    assert("interface-string"@.len() == 16);
    assert("interface-string"@[0] == 'i');
    reveal_strlit("int");
    assert("int"@.len() == 3);
    reveal_strlit("key-of");
    assert("key-of"@.len() == 6);
    reveal_strlit("value-of");
    assert("value-of"@.len() == 8);
    assert("value-of"@[0] == 'v');
    reveal_strlit("int-mask");
    assert("int-mask"@.len() == 8);
    assert("int-mask"@[0] == 'i');
    assert("int-mask"@[1] == 'n');
    reveal_strlit("int-mask-of");
    assert("int-mask-of"@.len() == 11);
    reveal_strlit("class-string-map");
    assert("class-string-map"@.len() == 16);
    assert("class-string-map"@[0] == 'c');
}

/// What `expand_int_mask` promises of its result.
pub open spec fn int_mask_result(inner: Seq<char>, r: Option<Seq<i64>>) -> bool {
    match mask_literals(inner) {
        None => r is None,
        Some(ms) => (r is Some <==> mask_expandable(ms)) && (r matches Some(v) ==> strictly_increasing(v)
            && v.to_set() == mask_values(ms)),
    }
}

/// The class being read, as `resolve_int_mask_of` sees it.
pub open spec fn active_view(active: Option<&SelfIntConstants>) -> Option<(Seq<char>, Seq<(Seq<char>, i64)>)> {
    match active {
        Some(a) => Some((a.fqcn@, consts_view(a.constants@))),
        None => None,
    }
}

/// What `resolve_int_mask_of` promises of its result.
pub open spec fn int_mask_of_result(
    inner: Seq<char>,
    active: Option<(Seq<char>, Seq<(Seq<char>, i64)>)>,
    r: Option<Seq<i64>>,
) -> bool {
    match int_mask_of_members(inner, active) {
        None => r is None,
        Some(set) => (r is Some <==> mask_expandable(listing_of(set))) && (r matches Some(v)
            ==> strictly_increasing(v) && v.to_set() == mask_values(listing_of(set))),
    }
}

pub open spec fn vec_opt_view(o: Option<Vec<i64>>) -> Option<Seq<i64>> {
    match o {
        Some(v) => Some(v@),
        None => None,
    }
}

fn trimmed(s: &str) -> (r: String)
    ensures
        r@ == trim(s@),
{
    let cs = chars_of(s);
    let (a, b) = crate::text::trim_range(cs.as_slice(), 0, cs.len());
    proof {
        assert(cs@.subrange(0, cs@.len() as int) =~= cs@);
    }
    string_of(&copy_range(cs.as_slice(), a, b))
}

fn is_lit(s: &String, l: &str) -> (r: bool)
    ensures
        r == (s@ == l@),
{
    let a = chars_of(s.as_str());
    let b = chars_of(l);
    super::validate::chars_eq(a.as_slice(), b.as_slice())
}

fn key_value_exec(params: &Vec<String>) -> (r: (Option<String>, Option<String>))
    ensures
        (opt_view(r.0), opt_view(r.1)) == key_value(strings_view(params@)),
{
    let ghost pv = strings_view(params@);
    if params.len() >= 2 {
        assert(pv[0] == params@[0]@ && pv[1] == params@[1]@);
        (Some(trimmed(params[0].as_str())), Some(trimmed(params[1].as_str())))
    } else if params.len() == 1 {
        assert(pv[0] == params@[0]@);
        (None, Some(trimmed(params[0].as_str())))
    } else {
        (None, None)
    }
}

fn int_bound_exec(b: &String) -> (r: Option<i64>)
    ensures
        r == int_bound(b@),
{
    let t = trimmed(b.as_str());
    proof {
        reveal_strlit("min");
        reveal_strlit("max");
    }
    if is_lit(&t, "min") || is_lit(&t, "max") {
        return None;
    }
    let cs = chars_of(t.as_str());
    proof {
        assert(cs@.subrange(0, cs@.len() as int) =~= cs@);
    }
    crate::text::parse_i64_at(cs.as_slice(), 0, cs.len())
}

fn trim_each_param(params: &Vec<String>) -> (r: Vec<String>)
    ensures
        strings_view(r@) == trim_all(strings_view(params@)),
{
    let ghost pv = strings_view(params@);
    let mut out: Vec<String> = Vec::new();
    let mut i: usize = 0;
    while i < params.len()
        invariant
            i <= params@.len(),
            pv == strings_view(params@),
            out@.len() == i,
            forall|k: int| 0 <= k < i ==> (#[trigger] out@[k])@ == trim(pv[k]),
        decreases params.len() - i,
    {
        assert(pv[i as int] == params@[i as int]@);
        out.push(trimmed(params[i].as_str()));
        i = i + 1;
    }
    assert(strings_view(out@) =~= trim_all(pv));
    out
}

fn class_string_map_value(params: &Vec<String>) -> (r: Option<String>)
    ensures
        opt_view(r) == (if params@.len() >= 2 {
            Some(trim(strings_view(params@)[1]))
        } else if params@.len() == 1 {
            Some(trim(strings_view(params@)[0]))
        } else {
            None::<Seq<char>>
        }),
{
    let ghost pv = strings_view(params@);
    if params.len() >= 2 {
        assert(pv[1] == params@[1]@);
        Some(trimmed(params[1].as_str()))
    } else if params.len() == 1 {
        assert(pv[0] == params@[0]@);
        Some(trimmed(params[0].as_str()))
    } else {
        None
    }
}

/// Which generic form `name<inner>` is, with its arguments; `int-mask-of`
/// is resolved against the class being read (`active`).
pub fn generic_syntax(name: &str, inner: &str, active: Option<&SelfIntConstants>) -> (r: GenericSyntax)
    ensures
        generic_view(r) == generic_of(name@, inner@),
        r matches GenericSyntax::IntMask(v) ==> int_mask_result(inner@, vec_opt_view(v)),
        r matches GenericSyntax::IntMaskOf(v) ==> int_mask_of_result(inner@, active_view(active), vec_opt_view(v)),
{
    let l = to_lowercase(name);
    let params = split_generics(inner);
    let (key, value) = key_value_exec(&params);
    proof {
        reveal_strlit("array");
        reveal_strlit("non-empty-array");
        reveal_strlit("list");
        reveal_strlit("non-empty-list");
        reveal_strlit("iterable");
        reveal_strlit("class-string");
        reveal_strlit("interface-string");
        reveal_strlit("int");
        reveal_strlit("key-of");
        reveal_strlit("value-of");
        reveal_strlit("int-mask");
        reveal_strlit("int-mask-of");
        reveal_strlit("class-string-map");
    }
    if is_lit(&l, "array") || is_lit(&l, "non-empty-array") {
        let non_empty = is_lit(&l, "non-empty-array");
        return GenericSyntax::Array { non_empty, key, value };
    }
    if is_lit(&l, "list") || is_lit(&l, "non-empty-list") {
        let non_empty = is_lit(&l, "non-empty-list");
        return GenericSyntax::List { non_empty, value: trimmed(inner) };
    }
    if is_lit(&l, "iterable") {
        return GenericSyntax::Iterable { key, value };
    }
    if is_lit(&l, "class-string") {
        return GenericSyntax::ClassString(super::validate::normalize_fqcn(trimmed(inner).as_str()));
    }
    if is_lit(&l, "interface-string") {
        return GenericSyntax::InterfaceString(super::validate::normalize_fqcn(trimmed(inner).as_str()));
    }
    if is_lit(&l, "int") {
        if params.len() == 2 {
            let min = int_bound_exec(&params[0]);
            let max = int_bound_exec(&params[1]);
            return GenericSyntax::IntRange { min, max };
        }
        return GenericSyntax::IntRange { min: None, max: None };
    }
    if is_lit(&l, "key-of") {
        return GenericSyntax::KeyOf(trimmed(inner));
    }
    if is_lit(&l, "value-of") {
        return GenericSyntax::ValueOf(trimmed(inner));
    }
    if is_lit(&l, "int-mask") {
        return GenericSyntax::IntMask(expand_int_mask(inner));
    }
    if is_lit(&l, "int-mask-of") {
        return GenericSyntax::IntMaskOf(resolve_int_mask_of(inner, active));
    }
    if is_lit(&l, "class-string-map") {
        return GenericSyntax::ClassStringMap(class_string_map_value(&params));
    }
    GenericSyntax::Named {
        fqcn: super::validate::normalize_fqcn(name),
        params: trim_each_param(&params),
    }
}

} // verus!

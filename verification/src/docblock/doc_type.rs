//! A PHPDoc type expression read all the way down into a type tree: each
//! level is read by `type_syntax` (and `generic_syntax` for `Name<...>`),
//! and the type texts of its parts are read in turn.
use vstd::prelude::*;
use crate::text::{
    chars_of, copy_range, ends_with, find_char, first_where, is_ws, lead_ws, lemma_find_char, lemma_first_where_bounds,
    lemma_lead_ws_bound, lemma_lead_ws_char, lemma_trail_ws_bound, lemma_trail_ws_char, trail_ws, trim, trim_end, trim_start,
};
use super::generic_syntax::{
    active_view, generic_of, generic_syntax, int_mask_of_result, int_mask_result, opt_view, trim_all,
    vec_opt_view, GenericSyntax, GenericView,
};
use super::int_mask::{
    int_mask_of_members, lemma_listing_unique, listing_of, mask_expandable, mask_literals, mask_values,
    strictly_increasing, SelfIntConstants,
};
use super::scan::{first_top_sep, lemma_first_top_sep_bounds, split_pieces, split_top, strings_view, top_char_at, top_char_pos};
use super::syntax::{
    callable_view, conditional_view, entry_has_key, parse_keyed_array, shape_entries_view, shape_insert, shape_key_of, shape_key_view, shape_keys_readable,
    shape_keys_readable_exec, shape_state, CallableParts, CallableSpec, ConditionalParts, ConditionalSpec, ShapeEntrySpec,
    ShapeKey, ShapeKeySpec,
};
use super::type_syntax::{angle_split, brace_split, lone_quote, syntax_of, syntax_view, type_syntax, SyntaxView, TypeKeyword, TypeSyntax, WordSyntax, WordView};

verus! {

broadcast use vstd::string::group_string_axioms;

/// A PHPDoc type.
pub enum DocType {
    Keyword(TypeKeyword),
    IntLiteral(i64),
    StringLiteral(String),
    /// Float-shaped text (`3.14`); reading the number is the caller's.
    FloatText(String),
    /// A class, with its type arguments.
    Named { fqcn: String, params: Vec<DocType> },
    /// `?T`: `T` or `null`.
    Nullable(Box<DocType>),
    Union(Vec<DocType>),
    Intersection(Vec<DocType>),
    /// `T[]`: an int-keyed array of `T`.
    ArrayOf(Box<DocType>),
    /// A missing key is `int|string`, a missing value `mixed`.
    Array { non_empty: bool, key: Option<Box<DocType>>, value: Option<Box<DocType>> },
    List { non_empty: bool, value: Box<DocType> },
    /// A missing key or value is `mixed`.
    Iterable { key: Option<Box<DocType>>, value: Option<Box<DocType>> },
    ClassString(String),
    InterfaceString(String),
    IntRange { min: Option<i64>, max: Option<i64> },
    /// `int-mask<...>`: its values, or `None` for plain `int`.
    IntMask(Option<Vec<i64>>),
    /// `int-mask-of<...>`: its values, or `None` for plain `int`.
    IntMaskOf(Option<Vec<i64>>),
    /// An array from class strings to the value type (`mixed` when missing).
    ClassStringMap(Option<Box<DocType>>),
    Callable(CallableParts),
    Conditional(ConditionalParts),
    /// `array{...}` / `list{...}`: the entries `(key, type, optional)` in
    /// key order of first appearance, and whether `...` leaves it open.
    Shape { entries: Vec<(ShapeKey, DocType, bool)>, is_open: bool, is_list: bool },
    Mixed,
}

pub enum DocTypeView {
    Keyword(TypeKeyword),
    IntLiteral(i64),
    StringLiteral(Seq<char>),
    FloatText(Seq<char>),
    Named(Seq<char>, Seq<DocTypeView>),
    Nullable(Box<DocTypeView>),
    Union(Seq<DocTypeView>),
    Intersection(Seq<DocTypeView>),
    ArrayOf(Box<DocTypeView>),
    Array(bool, Option<Box<DocTypeView>>, Option<Box<DocTypeView>>),
    List(bool, Box<DocTypeView>),
    Iterable(Option<Box<DocTypeView>>, Option<Box<DocTypeView>>),
    ClassString(Seq<char>),
    InterfaceString(Seq<char>),
    IntRange(Option<i64>, Option<i64>),
    IntMask(Option<Seq<i64>>),
    IntMaskOf(Option<Seq<i64>>),
    ClassStringMap(Option<Box<DocTypeView>>),
    Callable(CallableSpec),
    Conditional(ConditionalSpec),
    Shape(Seq<(ShapeKeySpec, DocTypeView, bool)>, bool, bool),
    Mixed,
}

pub open spec fn doc_type_view(t: DocType) -> DocTypeView
    decreases t,
{
    match t {
        DocType::Keyword(k) => DocTypeView::Keyword(k),
        DocType::IntLiteral(n) => DocTypeView::IntLiteral(n),
        DocType::StringLiteral(s) => DocTypeView::StringLiteral(s@),
        DocType::FloatText(s) => DocTypeView::FloatText(s@),
        DocType::Named { fqcn, params } => DocTypeView::Named(fqcn@, doc_types_view(params@)),
        DocType::Nullable(b) => DocTypeView::Nullable(Box::new(doc_type_view(*b))),
        DocType::Union(v) => DocTypeView::Union(doc_types_view(v@)),
        DocType::Intersection(v) => DocTypeView::Intersection(doc_types_view(v@)),
        DocType::ArrayOf(b) => DocTypeView::ArrayOf(Box::new(doc_type_view(*b))),
        DocType::Array { non_empty, key, value } => DocTypeView::Array(
            non_empty,
            match key {
                Some(b) => Some(Box::new(doc_type_view(*b))),
                None => None,
            },
            match value {
                Some(b) => Some(Box::new(doc_type_view(*b))),
                None => None,
            },
        ),
        DocType::List { non_empty, value } => DocTypeView::List(non_empty, Box::new(doc_type_view(*value))),
        DocType::Iterable { key, value } => DocTypeView::Iterable(
            match key {
                Some(b) => Some(Box::new(doc_type_view(*b))),
                None => None,
            },
            match value {
                Some(b) => Some(Box::new(doc_type_view(*b))),
                None => None,
            },
        ),
        DocType::ClassString(s) => DocTypeView::ClassString(s@),
        DocType::InterfaceString(s) => DocTypeView::InterfaceString(s@),
        DocType::IntRange { min, max } => DocTypeView::IntRange(min, max),
        DocType::IntMask(v) => DocTypeView::IntMask(vec_opt_view(v)),
        DocType::IntMaskOf(v) => DocTypeView::IntMaskOf(vec_opt_view(v)),
        DocType::ClassStringMap(o) => DocTypeView::ClassStringMap(
            match o {
                Some(b) => Some(Box::new(doc_type_view(*b))),
                None => None,
            },
        ),
        DocType::Callable(c) => DocTypeView::Callable(callable_view(c)),
        DocType::Conditional(c) => DocTypeView::Conditional(conditional_view(c)),
        DocType::Shape { entries, is_open, is_list } => DocTypeView::Shape(
            shape_entries_doc_view(entries@),
            is_open,
            is_list,
        ),
        DocType::Mixed => DocTypeView::Mixed,
    }
}

pub open spec fn doc_types_view(v: Seq<DocType>) -> Seq<DocTypeView>
    decreases v,
{
    if v.len() == 0 {
        Seq::empty()
    } else {
        doc_types_view(v.drop_last()).push(doc_type_view(v.last()))
    }
}

pub open spec fn shape_entries_doc_view(es: Seq<(ShapeKey, DocType, bool)>) -> Seq<(ShapeKeySpec, DocTypeView, bool)>
    decreases es,
{
    if es.len() == 0 {
        Seq::empty()
    } else {
        let e = es.last();
        shape_entries_doc_view(es.drop_last()).push((shape_key_view(e.0), doc_type_view(e.1), e.2))
    }
}

pub open spec fn opt_doc_view(o: Option<DocType>) -> Option<DocTypeView> {
    match o {
        Some(t) => Some(doc_type_view(t)),
        None => None,
    }
}

/// The class being read, as `int-mask-of` resolves against it.
pub type ActiveView = Option<(Seq<char>, Seq<(Seq<char>, i64)>)>;

/// The values of `int-mask<inner>`, in increasing order, or `None` for
/// plain `int`.
pub open spec fn int_mask_value(inner: Seq<char>) -> Option<Seq<i64>> {
    match mask_literals(inner) {
        None => None,
        Some(ms) => if mask_expandable(ms) {
            Some(listing_of(mask_values(ms)))
        } else {
            None
        },
    }
}

/// The values of `int-mask-of<inner>`, in increasing order, or `None` for
/// plain `int`.
pub open spec fn int_mask_of_value(inner: Seq<char>, active: ActiveView) -> Option<Seq<i64>> {
    match int_mask_of_members(inner, active) {
        None => None,
        Some(set) => if mask_expandable(listing_of(set)) {
            Some(listing_of(mask_values(listing_of(set))))
        } else {
            None
        },
    }
}

pub open spec fn wrap(o: Option<DocTypeView>, f: spec_fn(DocTypeView) -> DocTypeView) -> Option<DocTypeView> {
    match o {
        Some(t) => Some(f(t)),
        None => None,
    }
}

pub open spec fn boxed(t: DocTypeView) -> Box<DocTypeView> {
    Box::new(t)
}

/// A keyword as a type: bare `array` is an array keyed by `int|string`
/// (no key given) of `mixed` (no value given), bare `list` a list of
/// `mixed`; other keywords stand as they are.
pub open spec fn keyword_doc(k: TypeKeyword) -> DocTypeView {
    match k {
        TypeKeyword::Array => DocTypeView::Array(false, None, None),
        TypeKeyword::List => DocTypeView::List(false, boxed(DocTypeView::Mixed)),
        _ => DocTypeView::Keyword(k),
    }
}

/// The atoms of a type: the parts of a union (flattened), `T` and `null`
/// for `?T`, else the type itself.
pub open spec fn flat_atoms(t: DocTypeView) -> Seq<DocTypeView>
    decreases t,
{
    match t {
        DocTypeView::Union(ps) => flat_all(ps),
        DocTypeView::Nullable(x) => flat_atoms(*x).push(DocTypeView::Keyword(TypeKeyword::Null)),
        _ => seq![t],
    }
}

pub open spec fn flat_all(ps: Seq<DocTypeView>) -> Seq<DocTypeView>
    decreases ps,
{
    if ps.len() == 0 {
        Seq::empty()
    } else {
        flat_all(ps.drop_last()) + flat_atoms(ps.last())
    }
}

/// A shape key as a literal type.
pub open spec fn key_literal(k: ShapeKeySpec) -> DocTypeView {
    match k.0 {
        Some(n) => DocTypeView::IntLiteral(n),
        None => DocTypeView::StringLiteral(k.1),
    }
}

pub open spec fn shape_keys(es: Seq<(ShapeKeySpec, DocTypeView, bool)>) -> Seq<DocTypeView>
    decreases es.len(),
{
    if es.len() == 0 {
        Seq::empty()
    } else {
        shape_keys(es.drop_last()).push(key_literal(es.last().0))
    }
}

pub open spec fn shape_values(es: Seq<(ShapeKeySpec, DocTypeView, bool)>) -> Seq<DocTypeView>
    decreases es.len(),
{
    if es.len() == 0 {
        Seq::empty()
    } else {
        shape_values(es.drop_last()) + flat_atoms(es.last().1)
    }
}

/// The key types of one atom, when it is an array of some form.
pub open spec fn atom_keys(a: DocTypeView) -> Option<Seq<DocTypeView>> {
    match a {
        DocTypeView::Array(_, Some(k), _) => Some(flat_atoms(*k)),
        DocTypeView::Array(_, None, _) => Some(
            seq![DocTypeView::Keyword(TypeKeyword::Int), DocTypeView::Keyword(TypeKeyword::String)],
        ),
        DocTypeView::List(_, _) => Some(seq![DocTypeView::Keyword(TypeKeyword::Int)]),
        DocTypeView::ArrayOf(_) => Some(seq![DocTypeView::Keyword(TypeKeyword::Int)]),
        DocTypeView::ClassStringMap(_) => Some(seq![DocTypeView::Keyword(TypeKeyword::ClassString)]),
        DocTypeView::Shape(es, _, _) => Some(shape_keys(es)),
        _ => None,
    }
}

/// The value types of one atom, when it is an array of some form.
pub open spec fn atom_values(a: DocTypeView) -> Option<Seq<DocTypeView>> {
    match a {
        DocTypeView::Array(_, _, Some(v)) => Some(flat_atoms(*v)),
        DocTypeView::Array(_, _, None) => Some(seq![DocTypeView::Mixed]),
        DocTypeView::List(_, v) => Some(flat_atoms(*v)),
        DocTypeView::ArrayOf(v) => Some(flat_atoms(*v)),
        DocTypeView::ClassStringMap(Some(v)) => Some(flat_atoms(*v)),
        DocTypeView::ClassStringMap(None) => Some(seq![DocTypeView::Mixed]),
        DocTypeView::Shape(es, _, _) => Some(shape_values(es)),
        _ => None,
    }
}

/// The keys (`keys`) or values of every atom, or `None` when some atom is
/// not an array.
pub open spec fn collect_parts(atoms: Seq<DocTypeView>, keys: bool) -> Option<Seq<DocTypeView>>
    decreases atoms.len(),
{
    if atoms.len() == 0 {
        Some(Seq::empty())
    } else {
        let part = if keys {
            atom_keys(atoms.last())
        } else {
            atom_values(atoms.last())
        };
        match (collect_parts(atoms.drop_last(), keys), part) {
            (Some(v), Some(p)) => Some(v + p),
            _ => None,
        }
    }
}

/// The type a list of atoms makes: the atom itself when there is one.
pub open spec fn as_type(atoms: Seq<DocTypeView>) -> DocTypeView {
    if atoms.len() == 1 {
        atoms[0]
    } else {
        DocTypeView::Union(atoms)
    }
}

/// `key-of<T>` (`keys`) or `value-of<T>`: the keys or values of every
/// array atom of `T`; `mixed` when an atom is not an array or there are
/// none.
pub open spec fn resolved_part(t: DocTypeView, keys: bool) -> DocTypeView {
    match collect_parts(flat_atoms(t), keys) {
        Some(v) => if v.len() > 0 {
            as_type(v)
        } else {
            DocTypeView::Mixed
        },
        None => DocTypeView::Mixed,
    }
}

/// The type the text `s` is, read at most `depth` levels deep (deeper text
/// reads as `mixed`); `None` when a part is a lone quote, which no type
/// reading can open.
pub open spec fn doc_type_of(s: Seq<char>, depth: nat, active: ActiveView) -> Option<DocTypeView>
    decreases depth, 0int,
{
    if depth == 0 {
        Some(DocTypeView::Mixed)
    } else if lone_quote(trim(s)) {
        None
    } else {
        let d = (depth - 1) as nat;
        match syntax_of(s) {
            SyntaxView::Nullable(x) => wrap(doc_type_of(x, d, active), |t: DocTypeView| DocTypeView::Nullable(boxed(t))),
            SyntaxView::Conditional(c) => Some(DocTypeView::Conditional(c)),
            SyntaxView::Parenthesized(x) => doc_type_of(x, d, active),
            SyntaxView::Union(ps) => match doc_types_of(ps, d, active) {
                Some(v) => Some(DocTypeView::Union(v)),
                None => None,
            },
            SyntaxView::Intersection(ps) => match doc_types_of(ps, d, active) {
                Some(v) => Some(DocTypeView::Intersection(v)),
                None => None,
            },
            SyntaxView::ArrayOf(x) => wrap(doc_type_of(x, d, active), |t: DocTypeView| DocTypeView::ArrayOf(boxed(t))),
            SyntaxView::Callable(c) => Some(DocTypeView::Callable(c)),
            SyntaxView::Shape(inner, is_list) => {
                let items = split_pieces(inner, ',', false);
                if !shape_keys_readable(items) {
                    None
                } else {
                    match shape_docs_of(shape_state(items).0, d, active) {
                        Some(es) => Some(DocTypeView::Shape(es, shape_state(items).1, is_list)),
                        None => None,
                    }
                }
            },
            SyntaxView::ObjectShape => Some(DocTypeView::Keyword(TypeKeyword::Object)),
            SyntaxView::Generic(name, inner) => generic_doc_of(name, inner, d, active),
            SyntaxView::MaybeFloat(x) => Some(DocTypeView::FloatText(x)),
            SyntaxView::Word(w) => Some(
                match w {
                    WordView::Keyword(k) => keyword_doc(k),
                    WordView::IntLiteral(n) => DocTypeView::IntLiteral(n),
                    WordView::NamedClass(n) => DocTypeView::Named(n, Seq::empty()),
                    WordView::StringLiteral(t) => DocTypeView::StringLiteral(t),
                    WordView::Mixed => DocTypeView::Mixed,
                },
            ),
        }
    }
}

/// Each text of `ps` read as a type.
pub open spec fn doc_types_of(ps: Seq<Seq<char>>, depth: nat, active: ActiveView) -> Option<Seq<DocTypeView>>
    decreases depth, ps.len() + 1,
{
    if ps.len() == 0 {
        Some(Seq::empty())
    } else {
        match (doc_types_of(ps.drop_last(), depth, active), doc_type_of(ps.last(), depth, active)) {
            (Some(v), Some(t)) => Some(v.push(t)),
            _ => None,
        }
    }
}

/// Each shape entry's type text read as a type.
pub open spec fn shape_docs_of(es: Seq<ShapeEntrySpec>, depth: nat, active: ActiveView) -> Option<
    Seq<(ShapeKeySpec, DocTypeView, bool)>,
>
    decreases depth, es.len() + 1,
{
    if es.len() == 0 {
        Some(Seq::empty())
    } else {
        let e = es.last();
        match (shape_docs_of(es.drop_last(), depth, active), doc_type_of(e.1, depth, active)) {
            (Some(v), Some(t)) => Some(v.push((e.0, t, e.2))),
            _ => None,
        }
    }
}

/// An optional argument text read as a type (outer `None` when it cannot
/// be read).
pub open spec fn opt_doc_of(o: Option<Seq<char>>, depth: nat, active: ActiveView) -> Option<
    Option<Box<DocTypeView>>,
>
    decreases depth, 1int,
{
    match o {
        None => Some(None),
        Some(x) => match doc_type_of(x, depth, active) {
            Some(t) => Some(Some(boxed(t))),
            None => None,
        },
    }
}

/// `name<inner>` read as a type.
pub open spec fn generic_doc_of(name: Seq<char>, inner: Seq<char>, depth: nat, active: ActiveView) -> Option<
    DocTypeView,
>
    decreases depth, split_pieces(inner, ',', false).len() + 2,
{
    match generic_of(name, inner) {
        GenericView::Array(ne, k, v) => match (opt_doc_of(k, depth, active), opt_doc_of(v, depth, active)) {
            (Some(kt), Some(vt)) => Some(DocTypeView::Array(ne, kt, vt)),
            _ => None,
        },
        GenericView::List(ne, v) => wrap(doc_type_of(v, depth, active), |t: DocTypeView| DocTypeView::List(ne, boxed(t))),
        GenericView::Iterable(k, v) => match (opt_doc_of(k, depth, active), opt_doc_of(v, depth, active)) {
            (Some(kt), Some(vt)) => Some(DocTypeView::Iterable(kt, vt)),
            _ => None,
        },
        GenericView::ClassString(x) => Some(DocTypeView::ClassString(x)),
        GenericView::InterfaceString(x) => Some(DocTypeView::InterfaceString(x)),
        GenericView::IntRange(lo, hi) => Some(DocTypeView::IntRange(lo, hi)),
        GenericView::KeyOf(x) => wrap(doc_type_of(x, depth, active), |t: DocTypeView| resolved_part(t, true)),
        GenericView::ValueOf(x) => wrap(doc_type_of(x, depth, active), |t: DocTypeView| resolved_part(t, false)),
        GenericView::IntMask => Some(DocTypeView::IntMask(int_mask_value(inner))),
        GenericView::IntMaskOf => Some(DocTypeView::IntMaskOf(int_mask_of_value(inner, active))),
        GenericView::ClassStringMap(o) => match opt_doc_of(o, depth, active) {
            Some(x) => Some(DocTypeView::ClassStringMap(x)),
            None => None,
        },
        GenericView::Named(n, ps) => match doc_types_of(ps, depth, active) {
            Some(v) => Some(DocTypeView::Named(n, v)),
            None => None,
        },
    }
}

/// The type the text `s` is: every level reads a strictly shorter text, so
/// one level per character is enough, and any more levels give the same
/// type (`lemma_depth_enough`).
pub open spec fn doc_type(s: Seq<char>, active: ActiveView) -> Option<DocTypeView> {
    doc_type_of(s, s.len() + 1, active)
}


proof fn lemma_trim_len(s: Seq<char>)
    ensures
        trim(s).len() <= s.len(),
{
    lemma_lead_ws_bound(s);
    lemma_trail_ws_bound(trim_start(s));
}

/// No piece is longer than the text, and when there are several pieces
/// each is shorter.
proof fn lemma_split_top_lens(s: Seq<char>, sep: char, quotes: bool)
    ensures
        forall|i: int| 0 <= i < split_top(s, sep, quotes).len() ==> (#[trigger] split_top(s, sep, quotes)[i]).len() <= s.len(),
        split_top(s, sep, quotes).len() > 1 ==> forall|i: int|
            0 <= i < split_top(s, sep, quotes).len() ==> (#[trigger] split_top(s, sep, quotes)[i]).len() < s.len(),
    decreases s.len(),
{
    let j = first_top_sep(s, sep, quotes, 0);
    lemma_first_top_sep_bounds(s, sep, quotes, 0);
    if j < s.len() {
        let rest = s.skip(j + 1);
        lemma_split_top_lens(rest, sep, quotes);
        let p = split_top(s, sep, quotes);
        assert(p == seq![s.take(j)] + split_top(rest, sep, quotes));
        assert forall|i: int| 0 <= i < p.len() implies (#[trigger] p[i]).len() < s.len() by {
            if i > 0 {
                assert(p[i] == split_top(rest, sep, quotes)[i - 1]);
            }
        }
    }
}

proof fn lemma_split_pieces_lens(s: Seq<char>, sep: char, quotes: bool)
    ensures
        forall|i: int| 0 <= i < split_pieces(s, sep, quotes).len() ==> (#[trigger] split_pieces(s, sep, quotes)[i]).len() <= s.len(),
        split_pieces(s, sep, quotes).len() > 1 ==> forall|i: int|
            0 <= i < split_pieces(s, sep, quotes).len() ==> (#[trigger] split_pieces(s, sep, quotes)[i]).len() < s.len(),
{
    let p = split_top(s, sep, quotes);
    lemma_split_top_lens(s, sep, quotes);
    super::scan::lemma_split_top_len(s, sep, quotes);
    let q = split_pieces(s, sep, quotes);
    assert(q.len() <= p.len());
    assert forall|i: int| 0 <= i < q.len() implies (#[trigger] q[i]).len() <= p[i].len() by {
        lemma_trim_len(p[i]);
        if i < p.len() - 1 {
            assert(q[i] == trim(p.drop_last()[i]));
        } else {
            assert(q[i] == trim(p.last()));
        }
    }
}

/// Reading a text with more levels than it has characters gives the same
/// type however many more there are.
pub proof fn lemma_depth_enough(s: Seq<char>, d1: nat, d2: nat, active: ActiveView)
    requires
        s.len() < d1,
        s.len() < d2,
    ensures
        doc_type_of(s, d1, active) == doc_type_of(s, d2, active),
    decreases s.len(), 3int,
{
    let t = trim(s);
    lemma_trim_len(s);
    if !lone_quote(t) {
        let e1 = (d1 - 1) as nat;
        let e2 = (d2 - 1) as nat;
        match syntax_of(s) {
            SyntaxView::Nullable(x) => {
                lemma_depth_enough(x, e1, e2, active);
            },
            SyntaxView::Parenthesized(x) => {
                lemma_trim_len(t.subrange(1, t.len() - 1));
                lemma_depth_enough(x, e1, e2, active);
            },
            SyntaxView::Union(ps) => {
                lemma_split_pieces_lens(t, '|', true);
                lemma_docs_depth(ps, s.len(), e1, e2, active);
            },
            SyntaxView::Intersection(ps) => {
                lemma_split_pieces_lens(t, '&', false);
                lemma_docs_depth(ps, s.len(), e1, e2, active);
            },
            SyntaxView::ArrayOf(x) => {
                reveal_strlit("[]");
                lemma_depth_enough(x, e1, e2, active);
            },
            SyntaxView::Generic(name, inner) => {
                lemma_find_char(t, '<');
                assert(angle_split(t) == Some((name, inner)));
                lemma_generic_depth(name, inner, s.len(), e1, e2, active);
            },
            SyntaxView::Shape(inner, _) => {
                lemma_find_char(t, '{');
                assert(brace_split(t) is Some);
                assert(inner.len() < s.len());
                let items = split_pieces(inner, ',', false);
                lemma_split_pieces_lens(inner, ',', false);
                lemma_shape_texts(items, s.len());
                lemma_shapes_depth(shape_state(items).0, s.len(), e1, e2, active);
            },
            _ => {},
        }
    }
}

/// The type texts of a shape's entries are no longer than its items.
proof fn lemma_shape_texts(items: Seq<Seq<char>>, bound: nat)
    requires
        forall|i: int| 0 <= i < items.len() ==> (#[trigger] items[i]).len() < bound,
    ensures
        forall|j: int|
            0 <= j < shape_state(items).0.len() ==> (#[trigger] shape_state(items).0[j]).1.len() < bound,
    decreases items.len(),
{
    if items.len() > 0 {
        let pre = items.drop_last();
        lemma_shape_texts(pre, bound);
        let es = shape_state(pre).0;
        let it = trim(items.last());
        lemma_trim_len(items.last());
        assert(items.last() == items[items.len() - 1]);
        if it.len() > 0 && it != "..."@ {
            let c = top_char_pos(it, ':');
            lemma_first_where_bounds(it.len() as int, top_char_at(it, ':'), 0);
            let txt = if c < it.len() {
                lemma_trim_len(it.skip(c + 1));
                trim(it.skip(c + 1))
            } else {
                it
            };
            assert(txt.len() < bound);
            let k = if c < it.len() {
                shape_key_of(trim(it.take(c))).0
            } else {
                (Some(shape_state(pre).2 as i64), seq![])
            };
            let opt = if c < it.len() {
                shape_key_of(trim(it.take(c))).1
            } else {
                false
            };
            let r = shape_insert(es, k, txt, opt);
            let i = first_where(es.len() as int, entry_has_key(es, k), 0);
            lemma_first_where_bounds(es.len() as int, entry_has_key(es, k), 0);
            assert forall|j: int| 0 <= j < r.len() implies (#[trigger] r[j]).1.len() < bound by {
                if i < es.len() {
                    assert(r == es.update(i, (k, txt, opt)));
                    if j != i {
                        assert(r[j] == es[j]);
                    }
                } else {
                    assert(r == es.push((k, txt, opt)));
                    if j < es.len() {
                        assert(r[j] == es[j]);
                    }
                }
            }
            assert(shape_state(items).0 == r);
        }
    }
}

proof fn lemma_shapes_depth(es: Seq<ShapeEntrySpec>, bound: nat, d1: nat, d2: nat, active: ActiveView)
    requires
        forall|i: int| 0 <= i < es.len() ==> (#[trigger] es[i]).1.len() < bound,
        bound <= d1,
        bound <= d2,
    ensures
        shape_docs_of(es, d1, active) == shape_docs_of(es, d2, active),
    decreases bound, 1int, es.len(),
{
    if es.len() > 0 {
        lemma_shapes_depth(es.drop_last(), bound, d1, d2, active);
        assert(es.last() == es[es.len() - 1]);
        lemma_depth_enough(es.last().1, d1, d2, active);
    }
}

/// A text that is the bare `array` keyword (and not a lone quote, which no
/// reading opens) reads as an array whose key is `int|string` and whose
/// value is `mixed`: `key-of` it gives `int|string` and `value-of` it
/// `mixed`.
pub proof fn lemma_bare_array_is_array_key(s: Seq<char>, active: ActiveView)
    requires
        syntax_of(s) == SyntaxView::Word(WordView::Keyword(TypeKeyword::Array)),
        !lone_quote(trim(s)),
    ensures
        doc_type(s, active) == Some(DocTypeView::Array(false, None, None)),
        resolved_part(DocTypeView::Array(false, None, None), true) == DocTypeView::Union(
            seq![DocTypeView::Keyword(TypeKeyword::Int), DocTypeView::Keyword(TypeKeyword::String)],
        ),
        resolved_part(DocTypeView::Array(false, None, None), false) == DocTypeView::Mixed,
{
    let a = DocTypeView::Array(false, None, None);
    assert(flat_atoms(a) == seq![a]);
    let ks = seq![DocTypeView::Keyword(TypeKeyword::Int), DocTypeView::Keyword(TypeKeyword::String)];
    assert(collect_parts(Seq::<DocTypeView>::empty(), true) == Some(Seq::<DocTypeView>::empty()));
    assert(collect_parts(Seq::<DocTypeView>::empty(), false) == Some(Seq::<DocTypeView>::empty()));
    assert(seq![a].last() == a);
    assert(atom_keys(a) == Some(ks));
    assert(collect_parts(seq![a], true) == Some(Seq::<DocTypeView>::empty() + ks)) by {
        assert(seq![a].drop_last() =~= Seq::<DocTypeView>::empty());
    }
    assert(Seq::<DocTypeView>::empty() + ks =~= ks);
    assert(collect_parts(seq![a], false) == Some(Seq::<DocTypeView>::empty() + seq![DocTypeView::Mixed])) by {
        assert(seq![a].drop_last() =~= Seq::<DocTypeView>::empty());
    }
    assert(Seq::<DocTypeView>::empty() + seq![DocTypeView::Mixed] =~= seq![DocTypeView::Mixed]);
}

/// Dropping trailing whitespace first leaves the same trimmed text.
proof fn lemma_trim_end_trim(s: Seq<char>)
    ensures
        trim(trim_end(s)) == trim(s),
{
    let n = s.len();
    let a = lead_ws(s);
    let b = trail_ws(s);
    lemma_lead_ws_bound(s);
    lemma_trail_ws_bound(s);
    if a == n {
        lemma_trail_ws_char(s, n as int);
        assert(trim_end(s) =~= Seq::<char>::empty());
        lemma_lead_ws_char(Seq::<char>::empty(), 0);
        lemma_trail_ws_char(Seq::<char>::empty(), 0);
        assert(trim(s) =~= Seq::<char>::empty());
        assert(trim(trim_end(s)) =~= Seq::<char>::empty());
    } else {
        assert(a < n - b) by {
            if a >= n - b {
                assert(is_ws(s[a as int]));
            }
        }
        let e = s.take(n - b);
        lemma_lead_ws_char(e, a as int);
        let mid = s.subrange(a as int, n - b);
        assert(e.skip(a as int) =~= mid);
        lemma_trail_ws_char(mid, 0);
        assert(trim(e) =~= mid);
        let ts = s.skip(a as int);
        lemma_trail_ws_char(ts, b as int);
        assert(trim(s) =~= mid);
    }
}

/// A text reads as its trimmed form does.
proof fn lemma_doc_type_trim(x: Seq<char>, y: Seq<char>, depth: nat, active: ActiveView)
    requires
        trim(x) == trim(y),
    ensures
        doc_type_of(x, depth, active) == doc_type_of(y, depth, active),
{
    assert(syntax_of(x) == syntax_of(y));
}

/// `?T` reads as `T` or `null`: the text `?` followed by `s` is the
/// nullable form of whatever `s` reads as, and cannot be read exactly when
/// `s` cannot.
pub proof fn lemma_question_mark_reads_nullable(s: Seq<char>, active: ActiveView)
    ensures
        match doc_type(s, active) {
            Some(t) => doc_type(seq!['?'] + s, active) == Some(DocTypeView::Nullable(boxed(t))),
            None => doc_type(seq!['?'] + s, active) is None,
        },
{
    let q = seq!['?'] + s;
    let b = trail_ws(s);
    lemma_trail_ws_bound(s);
    assert(!is_ws(q[0]));
    lemma_lead_ws_char(q, 0);
    assert forall|i: int| q.len() - b <= i < q.len() implies is_ws(#[trigger] q[i]) by {
        assert(q[i] == s[i - 1]);
    }
    if b < s.len() {
        assert(q[q.len() - b - 1] == s[s.len() - b - 1]);
    }
    lemma_trail_ws_char(q, b as int);
    let te = trim_end(s);
    assert(trim_start(q) =~= q);
    assert(trim(q) == q.take(q.len() - b));
    assert(q.take(q.len() - b) =~= seq!['?'] + te);
    assert(trim(q).drop_first() =~= te);
    assert(syntax_of(q) == SyntaxView::Nullable(te));
    assert(!lone_quote(trim(q)));
    lemma_trim_end_trim(s);
    lemma_doc_type_trim(te, s, s.len() + 1, active);
    assert(doc_type(q, active) == wrap(
        doc_type_of(te, s.len() + 1, active),
        |t: DocTypeView| DocTypeView::Nullable(boxed(t)),
    ));
}

proof fn lemma_docs_depth(ps: Seq<Seq<char>>, bound: nat, d1: nat, d2: nat, active: ActiveView)
    requires
        forall|i: int| 0 <= i < ps.len() ==> (#[trigger] ps[i]).len() < bound,
        bound <= d1,
        bound <= d2,
    ensures
        doc_types_of(ps, d1, active) == doc_types_of(ps, d2, active),
    decreases bound, 1int, ps.len(),
{
    if ps.len() > 0 {
        lemma_docs_depth(ps.drop_last(), bound, d1, d2, active);
        lemma_depth_enough(ps.last(), d1, d2, active);
    }
}

proof fn lemma_generic_depth(name: Seq<char>, inner: Seq<char>, bound: nat, d1: nat, d2: nat, active: ActiveView)
    requires
        inner.len() < bound,
        bound <= d1,
        bound <= d2,
    ensures
        generic_doc_of(name, inner, d1, active) == generic_doc_of(name, inner, d2, active),
    decreases bound, 2int, 0int,
{
    let params = split_pieces(inner, ',', false);
    lemma_split_pieces_lens(inner, ',', false);
    lemma_trim_len(inner);
    lemma_depth_enough(trim(inner), d1, d2, active);
    if params.len() >= 1 {
        lemma_trim_len(params[0]);
        lemma_depth_enough(trim(params[0]), d1, d2, active);
    }
    if params.len() >= 2 {
        lemma_trim_len(params[1]);
        lemma_depth_enough(trim(params[1]), d1, d2, active);
    }
    let tp = trim_all(params);
    assert forall|i: int| 0 <= i < tp.len() implies (#[trigger] tp[i]).len() < bound by {
        lemma_trim_len(params[i]);
    }
    lemma_docs_depth(tp, bound, d1, d2, active);
}

proof fn lemma_mask_value(inner: Seq<char>, r: Option<Seq<i64>>)
    requires
        int_mask_result(inner, r),
    ensures
        r == int_mask_value(inner),
{
    if let Some(ms) = mask_literals(inner) {
        if let Some(v) = r {
            let q = listing_of(mask_values(ms));
            assert(strictly_increasing(q) && q.to_set() == mask_values(ms));
            lemma_listing_unique(v, q);
        }
    }
}

proof fn lemma_mask_of_value(inner: Seq<char>, active: ActiveView, r: Option<Seq<i64>>)
    requires
        int_mask_of_result(inner, active, r),
    ensures
        r == int_mask_of_value(inner, active),
{
    if let Some(set) = int_mask_of_members(inner, active) {
        if let Some(v) = r {
            let q = listing_of(mask_values(listing_of(set)));
            assert(strictly_increasing(q) && q.to_set() == mask_values(listing_of(set)));
            lemma_listing_unique(v, q);
        }
    }
}

fn read_opt(o: Option<String>, depth: usize, active: Option<&SelfIntConstants>) -> (r: Option<Option<Box<DocType>>>)
    ensures
        match opt_doc_of(opt_view(o), depth as nat, active_view(active)) {
            None => r is None,
            Some(x) => r matches Some(y) && x == match y {
                Some(b) => Some(boxed(doc_type_view(*b))),
                None => None,
            },
        },
    decreases depth, 1int,
{
    match o {
        None => Some(None),
        Some(x) => match read_doc_type(x.as_str(), depth, active) {
            Some(t) => Some(Some(Box::new(t))),
            None => None,
        },
    }
}

fn read_doc_types(ps: &Vec<String>, depth: usize, active: Option<&SelfIntConstants>) -> (r: Option<Vec<DocType>>)
    ensures
        match doc_types_of(strings_view(ps@), depth as nat, active_view(active)) {
            None => r is None,
            Some(v) => r matches Some(w) && doc_types_view(w@) == v,
        },
    decreases depth, ps@.len() + 1,
{
    let ghost pv = strings_view(ps@);
    let ghost av = active_view(active);
    let mut out: Vec<DocType> = Vec::new();
    let mut i: usize = 0;
    while i < ps.len()
        invariant
            i <= ps@.len(),
            pv == strings_view(ps@),
            av == active_view(active),
            doc_types_of(pv.take(i as int), depth as nat, av) == Some(doc_types_view(out@)),
        decreases ps.len() - i,
    {
        proof {
            assert(pv.take(i + 1).drop_last() =~= pv.take(i as int));
            assert(pv.take(i + 1).last() == ps@[i as int]@);
        }
        match read_doc_type(ps[i].as_str(), depth, active) {
            Some(t) => {
                let ghost before = out@;
                out.push(t);
                proof {
                    assert(out@.drop_last() =~= before);
                }
            },
            None => {
                proof {
                    lemma_none_stays(pv, (i + 1) as int, depth as nat, av);
                }
                return None;
            },
        }
        i = i + 1;
    }
    assert(pv.take(ps@.len() as int) =~= pv);
    Some(out)
}

/// Once a prefix cannot be read, neither can the whole list.
proof fn lemma_none_stays(ps: Seq<Seq<char>>, k: int, depth: nat, active: ActiveView)
    requires
        0 <= k <= ps.len(),
        doc_types_of(ps.take(k), depth, active) is None,
    ensures
        doc_types_of(ps, depth, active) is None,
    decreases ps.len() - k,
{
    if k < ps.len() {
        assert(ps.take(k + 1).drop_last() =~= ps.take(k));
        lemma_none_stays(ps, k + 1, depth, active);
    } else {
        assert(ps.take(k) =~= ps);
    }
}

fn read_generic(
    name: String,
    inner: String,
    depth: usize,
    active: Option<&SelfIntConstants>,
) -> (r: Option<DocType>)
    ensures
        opt_doc_view(r) == generic_doc_of(name@, inner@, depth as nat, active_view(active)),
    decreases depth, split_pieces(inner@, ',', false).len() + 2,
{
    let g = generic_syntax(name.as_str(), inner.as_str(), active);
    let ghost pl = split_pieces(inner@, ',', false).len();
    match g {
        GenericSyntax::Array { non_empty, key, value } => {
            let k = read_opt(key, depth, active);
            let v = read_opt(value, depth, active);
            match (k, v) {
                (Some(kt), Some(vt)) => Some(DocType::Array { non_empty, key: kt, value: vt }),
                _ => None,
            }
        },
        GenericSyntax::List { non_empty, value } => match read_doc_type(value.as_str(), depth, active) {
            Some(t) => Some(DocType::List { non_empty, value: Box::new(t) }),
            None => None,
        },
        GenericSyntax::Iterable { key, value } => {
            let k = read_opt(key, depth, active);
            let v = read_opt(value, depth, active);
            match (k, v) {
                (Some(kt), Some(vt)) => Some(DocType::Iterable { key: kt, value: vt }),
                _ => None,
            }
        },
        GenericSyntax::ClassString(x) => Some(DocType::ClassString(x)),
        GenericSyntax::InterfaceString(x) => Some(DocType::InterfaceString(x)),
        GenericSyntax::IntRange { min, max } => Some(DocType::IntRange { min, max }),
        GenericSyntax::KeyOf(x) => match read_doc_type(x.as_str(), depth, active) {
            Some(t) => Some(resolve_part(t, true)),
            None => None,
        },
        GenericSyntax::ValueOf(x) => match read_doc_type(x.as_str(), depth, active) {
            Some(t) => Some(resolve_part(t, false)),
            None => None,
        },
        GenericSyntax::IntMask(v) => {
            proof {
                lemma_mask_value(inner@, vec_opt_view(v));
            }
            Some(DocType::IntMask(v))
        },
        GenericSyntax::IntMaskOf(v) => {
            proof {
                lemma_mask_of_value(inner@, active_view(active), vec_opt_view(v));
            }
            Some(DocType::IntMaskOf(v))
        },
        GenericSyntax::ClassStringMap(o) => match read_opt(o, depth, active) {
            Some(x) => Some(DocType::ClassStringMap(x)),
            None => None,
        },
        GenericSyntax::Named { fqcn, params } => {
            proof {
                assert(strings_view(params@).len() == pl);
            }
            match read_doc_types(&params, depth, active) {
                Some(v) => Some(DocType::Named { fqcn, params: v }),
                None => None,
            }
        },
    }
}


fn read_shape(inner: String, is_list: bool, depth: usize, active: Option<&SelfIntConstants>) -> (r: Option<DocType>)
    ensures
        opt_doc_view(r) == ({
            let items = split_pieces(inner@, ',', false);
            if !shape_keys_readable(items) {
                None
            } else {
                match shape_docs_of(shape_state(items).0, depth as nat, active_view(active)) {
                    Some(es) => Some(DocTypeView::Shape(es, shape_state(items).1, is_list)),
                    None => None,
                }
            }
        }),
    decreases depth, 1int,
{
    if !shape_keys_readable_exec(inner.as_str()) {
        return None;
    }
    let parts = parse_keyed_array(inner.as_str(), is_list);
    let ghost ev = shape_entries_view(parts.entries@);
    let ghost av = active_view(active);
    let is_open = parts.is_open;
    let mut src = parts.entries;
    let n = src.len();
    let mut out: Vec<(ShapeKey, DocType, bool)> = Vec::new();
    let mut i: usize = 0;
    while i < n
        invariant
            n == src@.len() == ev.len(),
            i <= n,
            av == active_view(active),
            shape_keys_readable(split_pieces(inner@, ',', false)),
            ev == shape_state(split_pieces(inner@, ',', false)).0,
            is_open == shape_state(split_pieces(inner@, ',', false)).1,
            forall|k: int| i <= k < n ==> (#[trigger] shape_entries_view(src@)[k]) == ev[k],
            shape_docs_of(ev.take(i as int), depth as nat, av) == Some(shape_entries_doc_view(out@)),
        decreases n - i,
    {
        let mut e: (ShapeKey, String, bool) = (ShapeKey::Int(0), String::new(), false);
        let ghost before_src = src@;
        assert(shape_entries_view(before_src)[i as int] == (shape_key_view(before_src[i as int].0), before_src[i as int].1@, before_src[i as int].2));
        std::mem::swap(&mut e, &mut src[i]);
        proof {
            assert(e == before_src[i as int]);
            assert forall|k: int| i < k < n implies (#[trigger] shape_entries_view(src@)[k]) == ev[k] by {
                assert(src@[k] == before_src[k]);
                assert(shape_entries_view(before_src)[k] == ev[k]);
            }
            assert(ev.take(i + 1).drop_last() =~= ev.take(i as int));
            assert(ev.take(i + 1).last() == ev[i as int]);
        }
        match read_doc_type(e.1.as_str(), depth, active) {
            Some(t) => {
                let ghost before = out@;
                out.push((e.0, t, e.2));
                proof {
                    assert(out@.drop_last() =~= before);
                }
            },
            None => {
                proof {
                    lemma_shape_none_stays(ev, (i + 1) as int, depth as nat, av);
                }
                return None;
            },
        }
        i = i + 1;
    }
    assert(ev.take(n as int) =~= ev);
    Some(DocType::Shape { entries: out, is_open, is_list })
}

/// Once a prefix of the entries cannot be read, neither can the whole shape.
proof fn lemma_shape_none_stays(es: Seq<ShapeEntrySpec>, k: int, depth: nat, active: ActiveView)
    requires
        0 <= k <= es.len(),
        shape_docs_of(es.take(k), depth, active) is None,
    ensures
        shape_docs_of(es, depth, active) is None,
    decreases es.len() - k,
{
    if k < es.len() {
        assert(es.take(k + 1).drop_last() =~= es.take(k));
        lemma_shape_none_stays(es, k + 1, depth, active);
    } else {
        assert(es.take(k) =~= es);
    }
}

#[verifier::spinoff_prover]
fn flatten(t: DocType) -> (r: Vec<DocType>)
    ensures
        doc_types_view(r@) == flat_atoms(doc_type_view(t)),
    decreases t,
{
    match t {
        DocType::Union(v) => {
            let ghost vf = v;
            let ghost orig = doc_types_view(v@);
            let mut v = v;
            let n = v.len();
            let mut out: Vec<DocType> = Vec::new();
            let mut i: usize = 0;
            proof {
                lemma_views_len(vf@);
            }
            while i < n
                invariant
                    n == v@.len() == vf@.len(),
                    i <= n,
                    t == DocType::Union(vf),
                    orig == doc_types_view(vf@),
                    orig.len() == n,
                    forall|k: int| i <= k < n ==> v@[k] == vf@[k],
                    doc_types_view(out@) == flat_all(orig.take(i as int)),
                decreases n - i,
            {
                let mut x = DocType::Mixed;
                std::mem::swap(&mut x, &mut v[i]);
                proof {
                    assert(x == vf@[i as int]);
                    assert(t->Union_0 == vf);
                    assert(decreases_to!(t => t->Union_0));
                    assert(decreases_to!(vf => vf@));
                    assert(decreases_to!(vf@ => vf@[i as int]));
                    lemma_view_at(vf@, i as int);
                    assert(orig.take(i + 1).drop_last() =~= orig.take(i as int));
                    assert(orig.take(i + 1).last() == doc_type_view(x));
                }
                let part = flatten(x);
                let ghost before = out@;
                let ghost pv = part@;
                let mut part = part;
                out.append(&mut part);
                proof {
                    assert(out@.take(before.len() as int) =~= before);
                    lemma_views_concat(before, pv.len() as int, out@);
                    assert(out@.skip(before.len() as int) =~= pv);
                }
                i = i + 1;
            }
            assert(orig.take(n as int) =~= orig);
            assert(doc_type_view(t) == DocTypeView::Union(orig));
            assert(flat_atoms(DocTypeView::Union(orig)) == flat_all(orig));
            out
        },
        DocType::Nullable(b) => {
            let mut out = flatten(*b);
            let ghost before = out@;
            out.push(DocType::Keyword(TypeKeyword::Null));
            proof {
                assert(out@.drop_last() =~= before);
                lemma_views_push(before, out@);
                assert(doc_type_view(DocType::Keyword(TypeKeyword::Null)) == DocTypeView::Keyword(TypeKeyword::Null));
            }
            out
        },
        _ => {
            let ghost tv = doc_type_view(t);
            let mut out: Vec<DocType> = Vec::new();
            out.push(t);
            proof {
                assert(out@.drop_last() =~= Seq::<DocType>::empty());
                lemma_views_push(Seq::<DocType>::empty(), out@);
                assert(doc_types_view(out@) =~= seq![tv]);
            }
            out
        },
    }
}

/// The view of `a` with one more type is the view of `a` with that type's view.
proof fn lemma_views_push(a: Seq<DocType>, whole: Seq<DocType>)
    requires
        whole.len() == a.len() + 1,
        whole.drop_last() == a,
    ensures
        doc_types_view(whole) == doc_types_view(a).push(doc_type_view(whole.last())),
{
    assert(whole.drop_last() =~= a);
    if a.len() == 0 {
        assert(doc_types_view(a) == Seq::<DocTypeView>::empty());
    }
}

proof fn lemma_views_len(v: Seq<DocType>)
    ensures
        doc_types_view(v).len() == v.len(),
    decreases v.len(),
{
    if v.len() > 0 {
        lemma_views_len(v.drop_last());
    }
}

proof fn lemma_view_at(v: Seq<DocType>, i: int)
    requires
        0 <= i < v.len(),
    ensures
        doc_types_view(v)[i] == doc_type_view(v[i]),
    decreases v.len(),
{
    lemma_views_len(v.drop_last());
    if i < v.len() - 1 {
        lemma_view_at(v.drop_last(), i);
    }
}

/// The view of `a + b` is the views of `a` then of `b`.
proof fn lemma_views_concat(a: Seq<DocType>, nb: int, whole: Seq<DocType>)
    requires
        0 <= nb <= whole.len(),
        whole.len() == a.len() + nb,
        whole.take(a.len() as int) == a,
    ensures
        doc_types_view(whole) == doc_types_view(a) + doc_types_view(whole.skip(a.len() as int)),
    decreases nb,
{
    if nb == 0 {
        assert(whole =~= a);
        assert(whole.skip(a.len() as int) =~= Seq::<DocType>::empty());
        assert(doc_types_view(a) + doc_types_view(Seq::<DocType>::empty()) =~= doc_types_view(a));
    } else {
        let w = whole.drop_last();
        assert(w.take(a.len() as int) =~= a);
        lemma_views_concat(a, nb - 1, w);
        assert(whole.skip(a.len() as int).drop_last() =~= w.skip(a.len() as int));
        assert(whole.skip(a.len() as int).last() == whole.last());
    }
}

fn one(t: DocType) -> (r: Vec<DocType>)
    ensures
        doc_types_view(r@) == seq![doc_type_view(t)],
{
    let ghost tv = doc_type_view(t);
    let mut out: Vec<DocType> = Vec::new();
    out.push(t);
    proof {
        assert(out@.drop_last() =~= Seq::<DocType>::empty());
        lemma_views_push(Seq::<DocType>::empty(), out@);
        assert(doc_types_view(out@) =~= seq![tv]);
    }
    out
}

fn two(a: DocType, b: DocType) -> (r: Vec<DocType>)
    ensures
        doc_types_view(r@) == seq![doc_type_view(a), doc_type_view(b)],
{
    let ghost av = doc_type_view(a);
    let ghost bv = doc_type_view(b);
    let mut out = one(a);
    let ghost before = out@;
    out.push(b);
    proof {
        assert(out@.drop_last() =~= before);
        assert(doc_types_view(out@) =~= seq![av, bv]);
    }
    out
}

/// The keys or values of the entries of a shape.
fn shape_part(entries: Vec<(ShapeKey, DocType, bool)>, keys: bool) -> (r: Vec<DocType>)
    ensures
        doc_types_view(r@) == if keys {
            shape_keys(shape_entries_doc_view(entries@))
        } else {
            shape_values(shape_entries_doc_view(entries@))
        },
{
    let ghost orig = shape_entries_doc_view(entries@);
    let ghost eo = entries@;
    let mut src = entries;
    let n = src.len();
    proof {
        lemma_entries_len(eo);
    }
    let mut out: Vec<DocType> = Vec::new();
    let mut i: usize = 0;
    while i < n
        invariant
            n == src@.len() == eo.len() == orig.len(),
            i <= n,
            orig == shape_entries_doc_view(eo),
            forall|k: int| i <= k < n ==> src@[k] == eo[k],
            doc_types_view(out@) == if keys {
                shape_keys(orig.take(i as int))
            } else {
                shape_values(orig.take(i as int))
            },
        decreases n - i,
    {
        let mut e: (ShapeKey, DocType, bool) = (ShapeKey::Int(0), DocType::Mixed, false);
        std::mem::swap(&mut e, &mut src[i]);
        proof {
            assert(e == eo[i as int]);
            lemma_entry_at(eo, i as int);
            assert(orig.take(i + 1).drop_last() =~= orig.take(i as int));
            assert(orig.take(i + 1).last() == orig[i as int]);
        }
        let ghost before = out@;
        if keys {
            let lit = match e.0 {
                ShapeKey::Int(k) => DocType::IntLiteral(k),
                ShapeKey::Str(k) => DocType::StringLiteral(k),
            };
            out.push(lit);
            proof {
                assert(out@.drop_last() =~= before);
                lemma_views_push(before, out@);
            }
        } else {
            let part = flatten(e.1);
            let ghost pv = part@;
            let mut part = part;
            out.append(&mut part);
            proof {
                assert(out@.take(before.len() as int) =~= before);
                    lemma_views_concat(before, pv.len() as int, out@);
                assert(out@.skip(before.len() as int) =~= pv);
            }
        }
        i = i + 1;
    }
    assert(orig.take(n as int) =~= orig);
    out
}

proof fn lemma_entries_len(v: Seq<(ShapeKey, DocType, bool)>)
    ensures
        shape_entries_doc_view(v).len() == v.len(),
    decreases v.len(),
{
    if v.len() > 0 {
        lemma_entries_len(v.drop_last());
    }
}

proof fn lemma_entry_at(v: Seq<(ShapeKey, DocType, bool)>, i: int)
    requires
        0 <= i < v.len(),
    ensures
        shape_entries_doc_view(v)[i] == (shape_key_view(v[i].0), doc_type_view(v[i].1), v[i].2),
    decreases v.len(),
{
    lemma_entries_len(v.drop_last());
    if i < v.len() - 1 {
        lemma_entry_at(v.drop_last(), i);
    }
}

/// The keys (`keys`) or values of one atom, when it is an array of some
/// form.
fn atom_part(a: DocType, keys: bool) -> (r: Option<Vec<DocType>>)
    ensures
        match (if keys {
            atom_keys(doc_type_view(a))
        } else {
            atom_values(doc_type_view(a))
        }) {
            Some(v) => r matches Some(w) && doc_types_view(w@) == v,
            None => r is None,
        },
{
    match a {
        DocType::Array { key, value, .. } => {
            if keys {
                match key {
                    Some(k) => Some(flatten(*k)),
                    None => Some(two(DocType::Keyword(TypeKeyword::Int), DocType::Keyword(TypeKeyword::String))),
                }
            } else {
                match value {
                    Some(v) => Some(flatten(*v)),
                    None => Some(one(DocType::Mixed)),
                }
            }
        },
        DocType::List { value, .. } => {
            if keys {
                Some(one(DocType::Keyword(TypeKeyword::Int)))
            } else {
                Some(flatten(*value))
            }
        },
        DocType::ArrayOf(v) => {
            if keys {
                Some(one(DocType::Keyword(TypeKeyword::Int)))
            } else {
                Some(flatten(*v))
            }
        },
        DocType::ClassStringMap(v) => {
            if keys {
                Some(one(DocType::Keyword(TypeKeyword::ClassString)))
            } else {
                match v {
                    Some(b) => Some(flatten(*b)),
                    None => Some(one(DocType::Mixed)),
                }
            }
        },
        DocType::Shape { entries, .. } => Some(shape_part(entries, keys)),
        _ => None,
    }
}

/// Once the parts of a prefix of the atoms cannot be collected, neither
/// can those of all of them.
proof fn lemma_collect_none_stays(atoms: Seq<DocTypeView>, k: int, keys: bool)
    requires
        0 <= k <= atoms.len(),
        collect_parts(atoms.take(k), keys) is None,
    ensures
        collect_parts(atoms, keys) is None,
    decreases atoms.len() - k,
{
    if k < atoms.len() {
        assert(atoms.take(k + 1).drop_last() =~= atoms.take(k));
        lemma_collect_none_stays(atoms, k + 1, keys);
    } else {
        assert(atoms.take(k) =~= atoms);
    }
}

/// `key-of<T>` (`keys`) or `value-of<T>` of the type `t`.
fn resolve_part(t: DocType, keys: bool) -> (r: DocType)
    ensures
        doc_type_view(r) == resolved_part(doc_type_view(t), keys),
{
    let ghost tv = doc_type_view(t);
    let ghost atoms_v = flat_atoms(tv);
    let atoms = flatten(t);
    let ghost ao = atoms@;
    let mut src = atoms;
    let n = src.len();
    proof {
        lemma_views_len(ao);
    }
    let mut out: Vec<DocType> = Vec::new();
    let mut i: usize = 0;
    while i < n
        invariant
            n == src@.len() == ao.len() == atoms_v.len(),
            i <= n,
            atoms_v == doc_types_view(ao),
            atoms_v == flat_atoms(tv),
            tv == doc_type_view(t),
            forall|k: int| i <= k < n ==> src@[k] == ao[k],
            collect_parts(atoms_v.take(i as int), keys) == Some(doc_types_view(out@)),
        decreases n - i,
    {
        let mut a = DocType::Mixed;
        std::mem::swap(&mut a, &mut src[i]);
        proof {
            assert(a == ao[i as int]);
            lemma_view_at(ao, i as int);
            assert(atoms_v.take(i + 1).drop_last() =~= atoms_v.take(i as int));
            assert(atoms_v.take(i + 1).last() == doc_type_view(a));
        }
        match atom_part(a, keys) {
            Some(part) => {
                let ghost before = out@;
                let ghost pv = part@;
                let mut part = part;
                out.append(&mut part);
                proof {
                    assert(out@.take(before.len() as int) =~= before);
                    lemma_views_concat(before, pv.len() as int, out@);
                    assert(out@.skip(before.len() as int) =~= pv);
                }
            },
            None => {
                proof {
                    lemma_collect_none_stays(atoms_v, (i + 1) as int, keys);
                }
                return DocType::Mixed;
            },
        }
        i = i + 1;
    }
    assert(atoms_v.take(n as int) =~= atoms_v);
    proof {
        lemma_views_len(out@);
    }
    if out.len() == 0 {
        DocType::Mixed
    } else if out.len() == 1 {
        let mut x = DocType::Mixed;
        let ghost o = out@;
        std::mem::swap(&mut x, &mut out[0]);
        proof {
            lemma_view_at(o, 0);
        }
        x
    } else {
        DocType::Union(out)
    }
}

fn read_word(w: WordSyntax) -> (r: DocType)
    ensures
        doc_type_view(r) == match word_view_of(w) {
            WordView::Keyword(k) => keyword_doc(k),
            WordView::IntLiteral(n) => DocTypeView::IntLiteral(n),
            WordView::NamedClass(n) => DocTypeView::Named(n, Seq::empty()),
            WordView::StringLiteral(t) => DocTypeView::StringLiteral(t),
            WordView::Mixed => DocTypeView::Mixed,
        },
{
    match w {
        WordSyntax::Keyword(k) => {
            if k == TypeKeyword::Array {
                DocType::Array { non_empty: false, key: None, value: None }
            } else if k == TypeKeyword::List {
                let r = DocType::List { non_empty: false, value: Box::new(DocType::Mixed) };
                assert(doc_type_view(DocType::Mixed) == DocTypeView::Mixed);
                assert(doc_type_view(r) == DocTypeView::List(false, boxed(DocTypeView::Mixed)));
                r
            } else {
                DocType::Keyword(k)
            }
        },
        WordSyntax::IntLiteral(n) => DocType::IntLiteral(n),
        WordSyntax::NamedClass(n) => {
            let r = DocType::Named { fqcn: n, params: Vec::new() };
            assert(doc_types_view(Seq::<DocType>::empty()) == Seq::<DocTypeView>::empty());
            r
        },
        WordSyntax::StringLiteral(t) => DocType::StringLiteral(t),
        WordSyntax::Mixed => DocType::Mixed,
    }
}

pub open spec fn word_view_of(w: WordSyntax) -> WordView {
    super::type_syntax::word_view(w)
}

#[verifier::rlimit(50)]
fn read_doc_type(s: &str, depth: usize, active: Option<&SelfIntConstants>) -> (r: Option<DocType>)
    ensures
        opt_doc_view(r) == doc_type_of(s@, depth as nat, active_view(active)),
    decreases depth, 0int,
{
    if depth == 0 {
        return Some(DocType::Mixed);
    }
    let cs = chars_of(s);
    let (a, b) = crate::text::trim_range(cs.as_slice(), 0, cs.len());
    proof {
        assert(cs@.subrange(0, cs@.len() as int) =~= cs@);
    }
    let t = copy_range(cs.as_slice(), a, b);
    if t.len() == 1 && (t[0] == '\'' || t[0] == '"') {
        return None;
    }
    let d = depth - 1;
    match type_syntax(s) {
        TypeSyntax::Nullable(x) => match read_doc_type(x.as_str(), d, active) {
            Some(t) => Some(DocType::Nullable(Box::new(t))),
            None => None,
        },
        TypeSyntax::Conditional(c) => Some(DocType::Conditional(c)),
        TypeSyntax::Parenthesized(x) => read_doc_type(x.as_str(), d, active),
        TypeSyntax::Union(ps) => match read_doc_types(&ps, d, active) {
            Some(v) => Some(DocType::Union(v)),
            None => None,
        },
        TypeSyntax::Intersection(ps) => match read_doc_types(&ps, d, active) {
            Some(v) => Some(DocType::Intersection(v)),
            None => None,
        },
        TypeSyntax::ArrayOf(x) => match read_doc_type(x.as_str(), d, active) {
            Some(t) => Some(DocType::ArrayOf(Box::new(t))),
            None => None,
        },
        TypeSyntax::Callable(c) => Some(DocType::Callable(c)),
        TypeSyntax::Shape { inner, is_list } => read_shape(inner, is_list, d, active),
        TypeSyntax::ObjectShape => Some(DocType::Keyword(TypeKeyword::Object)),
        TypeSyntax::Generic { name, inner } => read_generic(name, inner, d, active),
        TypeSyntax::MaybeFloat(x) => Some(DocType::FloatText(x)),
        TypeSyntax::Word(w) => Some(read_word(w)),
    }
}

/// Reads the type text `s` into a type tree, resolving `int-mask-of`
/// against the class being read (`active`). `None` when a part of the text
/// is a lone quote, which no type reading can open.
pub fn parse_type(s: &str, active: Option<&SelfIntConstants>) -> (r: Option<DocType>)
    requires
        s@.len() < usize::MAX,
    ensures
        opt_doc_view(r) == doc_type(s@, active_view(active)),
{
    let n = s.unicode_len();
    read_doc_type(s, n + 1, active)
}

} // verus!

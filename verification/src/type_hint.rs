//! The type a declared PHP type hint stands for, one name or keyword at a
//! time; `self`, `parent` and `static` resolve against the class the hint
//! appears in.
use vstd::prelude::*;
use crate::text::{chars_of, copy_range, lowercase_of, string_of, to_lowercase};

verus! {

broadcast use vstd::string::group_string_axioms;

/// The keywords a type hint can be.
#[derive(Debug, Clone, Copy, PartialEq, Eq, Structural)]
pub enum BuiltinHint {
    Int,
    Integer,
    Float,
    Double,
    String,
    Bool,
    Boolean,
    Void,
    Never,
    Mixed,
    Object,
    Array,
    Callable,
    Iterable,
    Null,
    True,
    False,
    SelfType,
    ParentType,
    Static,
}

/// What a single hint resolves to.
pub enum HintType {
    Int,
    Float,
    String,
    Bool,
    Void,
    Never,
    Mixed,
    /// `object`, and `self`/`parent`/`static` outside a class.
    Object,
    /// An array of `mixed` keyed by `mixed` (also what `iterable` reads as).
    Array,
    Callable,
    Null,
    True,
    False,
    SelfClass(String),
    ParentClass(String),
    StaticClass(String),
    /// A class, its name without leading `\`.
    Named(String),
}

pub enum HintView {
    Int,
    Float,
    String,
    Bool,
    Void,
    Never,
    Mixed,
    Object,
    Array,
    Callable,
    Null,
    True,
    False,
    SelfClass(Seq<char>),
    ParentClass(Seq<char>),
    StaticClass(Seq<char>),
    Named(Seq<char>),
}

pub open spec fn hint_view(h: HintType) -> HintView {
    match h {
        HintType::Int => HintView::Int,
        HintType::Float => HintView::Float,
        HintType::String => HintView::String,
        HintType::Bool => HintView::Bool,
        HintType::Void => HintView::Void,
        HintType::Never => HintView::Never,
        HintType::Mixed => HintView::Mixed,
        HintType::Object => HintView::Object,
        HintType::Array => HintView::Array,
        HintType::Callable => HintView::Callable,
        HintType::Null => HintView::Null,
        HintType::True => HintView::True,
        HintType::False => HintView::False,
        HintType::SelfClass(s) => HintView::SelfClass(s@),
        HintType::ParentClass(s) => HintView::ParentClass(s@),
        HintType::StaticClass(s) => HintView::StaticClass(s@),
        HintType::Named(s) => HintView::Named(s@),
    }
}

pub open spec fn context_view(c: Option<&str>) -> Option<Seq<char>> {
    match c {
        Some(s) => Some(s@),
        None => None,
    }
}

/// `self`, `parent` or `static` inside class `context`, or plain `object`
/// outside any class.
pub open spec fn relative_hint(which: BuiltinHint, context: Option<Seq<char>>) -> HintView {
    match context {
        None => HintView::Object,
        Some(c) => match which {
            BuiltinHint::SelfType => HintView::SelfClass(c),
            BuiltinHint::ParentType => HintView::ParentClass(c),
            _ => HintView::StaticClass(c),
        },
    }
}

/// The type a keyword hint stands for.
pub open spec fn builtin_hint_of(b: BuiltinHint, context: Option<Seq<char>>) -> HintView {
    match b {
        BuiltinHint::Int | BuiltinHint::Integer => HintView::Int,
        BuiltinHint::Float | BuiltinHint::Double => HintView::Float,
        BuiltinHint::String => HintView::String,
        BuiltinHint::Bool | BuiltinHint::Boolean => HintView::Bool,
        BuiltinHint::Void => HintView::Void,
        BuiltinHint::Never => HintView::Never,
        BuiltinHint::Mixed => HintView::Mixed,
        BuiltinHint::Object => HintView::Object,
        BuiltinHint::Array | BuiltinHint::Iterable => HintView::Array,
        BuiltinHint::Callable => HintView::Callable,
        BuiltinHint::Null => HintView::Null,
        BuiltinHint::True => HintView::True,
        BuiltinHint::False => HintView::False,
        BuiltinHint::SelfType | BuiltinHint::ParentType | BuiltinHint::Static => relative_hint(b, context),
    }
}

fn relative_hint_exec(which: BuiltinHint, context: Option<&str>) -> (r: HintType)
    ensures
        hint_view(r) == relative_hint(which, context_view(context)),
{
    match context {
        None => HintType::Object,
        Some(c) => match which {
            BuiltinHint::SelfType => HintType::SelfClass(String::from_str(c)),
            BuiltinHint::ParentType => HintType::ParentClass(String::from_str(c)),
            _ => HintType::StaticClass(String::from_str(c)),
        },
    }
}

/// The type a keyword hint stands for, inside class `context` (if any).
pub fn builtin_hint(b: BuiltinHint, context: Option<&str>) -> (r: HintType)
    ensures
        hint_view(r) == builtin_hint_of(b, context_view(context)),
{
    match b {
        BuiltinHint::Int | BuiltinHint::Integer => HintType::Int,
        BuiltinHint::Float | BuiltinHint::Double => HintType::Float,
        BuiltinHint::String => HintType::String,
        BuiltinHint::Bool | BuiltinHint::Boolean => HintType::Bool,
        BuiltinHint::Void => HintType::Void,
        BuiltinHint::Never => HintType::Never,
        BuiltinHint::Mixed => HintType::Mixed,
        BuiltinHint::Object => HintType::Object,
        BuiltinHint::Array | BuiltinHint::Iterable => HintType::Array,
        BuiltinHint::Callable => HintType::Callable,
        BuiltinHint::Null => HintType::Null,
        BuiltinHint::True => HintType::True,
        BuiltinHint::False => HintType::False,
        BuiltinHint::SelfType | BuiltinHint::ParentType | BuiltinHint::Static => relative_hint_exec(b, context),
    }
}

/// `s` without its leading backslashes.
pub open spec fn strip_backslashes(s: Seq<char>) -> Seq<char>
    decreases s.len(),
{
    if s.len() > 0 && s[0] == '\\' {
        strip_backslashes(s.drop_first())
    } else {
        s
    }
}

/// The type a class-name hint stands for: `self`, `parent` and `static`
/// (any case) resolve against `context`; any other name is a class.
pub open spec fn named_hint_of(name: Seq<char>, context: Option<Seq<char>>) -> HintView {
    let l = lowercase_of(name);
    if l == "self"@ {
        relative_hint(BuiltinHint::SelfType, context)
    } else if l == "parent"@ {
        relative_hint(BuiltinHint::ParentType, context)
    } else if l == "static"@ {
        relative_hint(BuiltinHint::Static, context)
    } else {
        HintView::Named(strip_backslashes(name))
    }
}

fn strip_backslashes_exec(s: &str) -> (r: String)
    ensures
        r@ == strip_backslashes(s@),
{
    let cs = chars_of(s);
    let mut i: usize = 0;
    assert(cs@.skip(0) =~= cs@);
    while i < cs.len() && cs[i] == '\\'
        invariant
            i <= cs@.len(),
            strip_backslashes(cs@.skip(i as int)) == strip_backslashes(cs@),
        decreases cs.len() - i,
    {
        assert(cs@.skip(i as int).drop_first() =~= cs@.skip(i + 1));
        i = i + 1;
    }
    let rest = copy_range(cs.as_slice(), i, cs.len());
    assert(rest@ =~= cs@.skip(i as int));
    string_of(&rest)
}

fn is_word(s: &String, w: &str) -> (r: bool)
    ensures
        r == (s@ == w@),
{
    let a = chars_of(s.as_str());
    let b = chars_of(w);
    crate::docblock::validate::chars_eq(a.as_slice(), b.as_slice())
}

/// The type a class-name hint stands for, inside class `context` (if any).
pub fn named_hint(name: &str, context: Option<&str>) -> (r: HintType)
    ensures
        hint_view(r) == named_hint_of(name@, context_view(context)),
{
    let l = to_lowercase(name);
    proof {
        reveal_strlit("self");
        reveal_strlit("parent");
        reveal_strlit("static");
    }
    if is_word(&l, "self") {
        relative_hint_exec(BuiltinHint::SelfType, context)
    } else if is_word(&l, "parent") {
        relative_hint_exec(BuiltinHint::ParentType, context)
    } else if is_word(&l, "static") {
        relative_hint_exec(BuiltinHint::Static, context)
    } else {
        HintType::Named(strip_backslashes_exec(name))
    }
}

/// A declared type hint: a keyword, a class name, or a combination.
pub enum TypeHintNode {
    Keyword(BuiltinHint),
    Named(String),
    /// `?T`.
    Nullable(Box<TypeHintNode>),
    /// `A|B`.
    Union(Vec<TypeHintNode>),
    /// `A&B`.
    Intersection(Vec<TypeHintNode>),
}

/// The type a hint stands for.
pub enum HintTree {
    Single(HintType),
    /// `T` or `null`.
    Nullable(Box<HintTree>),
    /// Any of the parts.
    Union(Vec<HintTree>),
    /// All of the parts.
    Intersection(Vec<HintTree>),
}

pub enum HintTreeView {
    Single(HintView),
    Nullable(Box<HintTreeView>),
    Union(Seq<HintTreeView>),
    Intersection(Seq<HintTreeView>),
}

pub open spec fn hint_tree_view(t: HintTree) -> HintTreeView
    decreases t,
{
    match t {
        HintTree::Single(h) => HintTreeView::Single(hint_view(h)),
        HintTree::Nullable(b) => HintTreeView::Nullable(Box::new(hint_tree_view(*b))),
        HintTree::Union(v) => HintTreeView::Union(hint_trees_view(v@)),
        HintTree::Intersection(v) => HintTreeView::Intersection(hint_trees_view(v@)),
    }
}

pub open spec fn hint_trees_view(v: Seq<HintTree>) -> Seq<HintTreeView>
    decreases v,
{
    if v.len() == 0 {
        Seq::empty()
    } else {
        hint_trees_view(v.drop_last()).push(hint_tree_view(v.last()))
    }
}

/// The type hint `h` stands for inside class `context` (if any): keywords
/// and names as `builtin_hint_of` / `named_hint_of` read them, `?T` as `T`
/// or `null`, unions and intersections part by part, and an intersection
/// of no parts as `mixed`.
pub open spec fn hint_tree_of(h: TypeHintNode, context: Option<Seq<char>>) -> HintTreeView
    decreases h,
{
    match h {
        TypeHintNode::Keyword(b) => HintTreeView::Single(builtin_hint_of(b, context)),
        TypeHintNode::Named(n) => HintTreeView::Single(named_hint_of(n@, context)),
        TypeHintNode::Nullable(inner) => HintTreeView::Nullable(Box::new(hint_tree_of(*inner, context))),
        TypeHintNode::Union(parts) => HintTreeView::Union(hint_trees_of(parts@, context)),
        TypeHintNode::Intersection(parts) => if parts@.len() == 0 {
            HintTreeView::Single(HintView::Mixed)
        } else {
            HintTreeView::Intersection(hint_trees_of(parts@, context))
        },
    }
}

pub open spec fn hint_trees_of(parts: Seq<TypeHintNode>, context: Option<Seq<char>>) -> Seq<HintTreeView>
    decreases parts,
{
    if parts.len() == 0 {
        Seq::empty()
    } else {
        hint_trees_of(parts.drop_last(), context).push(hint_tree_of(parts.last(), context))
    }
}

fn hint_trees(parts: &Vec<TypeHintNode>, context: Option<&str>) -> (r: Vec<HintTree>)
    ensures
        hint_trees_view(r@) == hint_trees_of(parts@, context_view(context)),
    decreases parts,
{
    let mut out: Vec<HintTree> = Vec::new();
    let mut i: usize = 0;
    while i < parts.len()
        invariant
            i <= parts@.len(),
            hint_trees_view(out@) == hint_trees_of(parts@.take(i as int), context_view(context)),
        decreases parts.len() - i,
    {
        proof {
            assert(parts@.take(i + 1).drop_last() =~= parts@.take(i as int));
            assert(parts@.take(i + 1).last() == parts@[i as int]);
        }
        let t = hint_tree(&parts[i], context);
        let ghost before = out@;
        out.push(t);
        proof {
            assert(out@.drop_last() =~= before);
        }
        i = i + 1;
    }
    assert(parts@.take(parts@.len() as int) =~= parts@);
    out
}

/// The type the hint `h` stands for, inside class `context` (if any).
pub fn hint_tree(h: &TypeHintNode, context: Option<&str>) -> (r: HintTree)
    ensures
        hint_tree_view(r) == hint_tree_of(*h, context_view(context)),
    decreases h,
{
    match h {
        TypeHintNode::Keyword(b) => HintTree::Single(builtin_hint(*b, context)),
        TypeHintNode::Named(n) => HintTree::Single(named_hint(n.as_str(), context)),
        TypeHintNode::Nullable(inner) => HintTree::Nullable(Box::new(hint_tree(inner, context))),
        TypeHintNode::Union(parts) => HintTree::Union(hint_trees(parts, context)),
        TypeHintNode::Intersection(parts) => {
            if parts.len() == 0 {
                HintTree::Single(HintType::Mixed)
            } else {
                HintTree::Intersection(hint_trees(parts, context))
            }
        },
    }
}

/// Each keyword hint resolves to the type it names, and only its aliases
/// resolve to the same type: `int`/`integer` to `int`, `float`/`double` to
/// `float`, `string` to `string`, `bool`/`boolean` to `bool`,
/// `array`/`iterable` to `array`, and each other keyword to its own type;
/// `self`, `parent` and `static` become the class they name inside a class
/// and `object` outside one.
pub proof fn lemma_keyword_hints(b: BuiltinHint, context: Option<Seq<char>>)
    ensures
        (builtin_hint_of(b, context) == HintView::Int) <==> (b is Int || b is Integer),
        (builtin_hint_of(b, context) == HintView::Float) <==> (b is Float || b is Double),
        (builtin_hint_of(b, context) == HintView::String) <==> b is String,
        (builtin_hint_of(b, context) == HintView::Bool) <==> (b is Bool || b is Boolean),
        (builtin_hint_of(b, context) == HintView::Void) <==> b is Void,
        (builtin_hint_of(b, context) == HintView::Never) <==> b is Never,
        (builtin_hint_of(b, context) == HintView::Mixed) <==> b is Mixed,
        (builtin_hint_of(b, context) == HintView::Array) <==> (b is Array || b is Iterable),
        (builtin_hint_of(b, context) == HintView::Callable) <==> b is Callable,
        (builtin_hint_of(b, context) == HintView::Null) <==> b is Null,
        (builtin_hint_of(b, context) == HintView::True) <==> b is True,
        (builtin_hint_of(b, context) == HintView::False) <==> b is False,
        (builtin_hint_of(b, context) == HintView::Object) <==> (b is Object || (context is None && (b is SelfType
            || b is ParentType || b is Static))),
        context matches Some(c) ==> ((b is SelfType ==> builtin_hint_of(b, context) == HintView::SelfClass(c)) && (
        b is ParentType ==> builtin_hint_of(b, context) == HintView::ParentClass(c)) && (b is Static
            ==> builtin_hint_of(b, context) == HintView::StaticClass(c))),
{
}

/// Leading backslashes are all that `strip_backslashes` removes: what is
/// left does not start with one, and the removed prefix is only
/// backslashes.
pub proof fn lemma_strip_backslashes(s: Seq<char>)
    ensures
        strip_backslashes(s).len() <= s.len(),
        strip_backslashes(s).len() == 0 || strip_backslashes(s)[0] != '\\',
        s.skip(s.len() - strip_backslashes(s).len()) == strip_backslashes(s),
        forall|i: int| 0 <= i < s.len() - strip_backslashes(s).len() ==> #[trigger] s[i] == '\\',
    decreases s.len(),
{
    if s.len() > 0 && s[0] == '\\' {
        lemma_strip_backslashes(s.drop_first());
        let r = strip_backslashes(s.drop_first());
        assert(s.skip(s.len() - r.len()) =~= s.drop_first().skip(s.drop_first().len() - r.len()));
        assert forall|i: int| 0 <= i < s.len() - r.len() implies #[trigger] s[i] == '\\' by {
            if i > 0 {
                assert(s[i] == s.drop_first()[i - 1]);
            }
        }
    } else {
        assert(s.skip(0) =~= s);
    }
}

/// A class-name hint of `self`, `parent` or `static` (in any case) reads as
/// the keyword hint of that name does; any other name is that class, with
/// its leading backslashes removed.
pub proof fn lemma_named_hints(name: Seq<char>, context: Option<Seq<char>>)
    ensures
        lowercase_of(name) == "self"@ ==> named_hint_of(name, context) == builtin_hint_of(BuiltinHint::SelfType, context),
        lowercase_of(name) == "parent"@ ==> named_hint_of(name, context) == builtin_hint_of(BuiltinHint::ParentType, context),
        lowercase_of(name) == "static"@ ==> named_hint_of(name, context) == builtin_hint_of(BuiltinHint::Static, context),
        !(lowercase_of(name) == "self"@ || lowercase_of(name) == "parent"@ || lowercase_of(name) == "static"@)
            ==> named_hint_of(name, context) == HintView::Named(strip_backslashes(name)),
{
    reveal_strlit("self");
    assert("self"@.len() == 4);
    reveal_strlit("parent");
    assert("parent"@.len() == 6);
    assert("parent"@[0] == 'p');
    reveal_strlit("static");
    assert("static"@.len() == 6);
    assert("static"@[0] == 's');
}

} // verus!

//! Which construct a PHPDoc type expression is, one level deep, with the
//! texts of its parts: the dispatch of the type-expression reader. Turning
//! the parts into types is the type model's work.
use vstd::prelude::*;
use crate::text::{
    all_digits, chars_of, copy_range, ends_with, find_char, lowercase_of, numeric, alphabetic,
    parse_i64, starts_at, string_of, to_lowercase, trim,
};
use super::lines::quoted;
use super::scan::{one_paren_group, split_pieces, strings_view, unbalanced};
use super::syntax::{
    callable_of, callable_view, conditional_of, conditional_view, parse_callable_syntax,
    parse_conditional_type, CallableParts, ConditionalParts,
};

verus! {

broadcast use vstd::string::group_string_axioms;

/// A PHPDoc type keyword, by the type it stands for.
#[derive(Debug, Clone, Copy, PartialEq, Eq, Structural)]
pub enum TypeKeyword {
    /// `string` and the case-constrained string refinements.
    String,
    /// `non-empty-string`, `truthy-string`, `non-falsy-string`.
    NonEmptyString,
    NumericString,
    ClassString,
    InterfaceString,
    Int,
    PositiveInt,
    NegativeInt,
    NonNegativeInt,
    Float,
    Bool,
    True,
    False,
    Null,
    Void,
    Never,
    /// `mixed`.
    Mixed,
    Object,
    Array,
    List,
    Callable,
    /// `pure-closure`: the `Closure` class.
    PureClosure,
    CallableString,
    /// `iterable`: arrays and `Traversable`.
    Iterable,
    Scalar,
    Numeric,
    /// `empty`: the union of the falsy literals.
    Empty,
    /// `array-key`: `int|string`.
    ArrayKey,
    /// `resource`, read as `mixed`.
    Resource,
    Static,
    /// `self` / `$this`, the class being declared.
    SelfRef,
    Parent,
}

/// The keyword a lowercased type text names, if any.
pub open spec fn keyword_of(l: Seq<char>) -> Option<TypeKeyword> {
    if l == "string"@ {
        Some(TypeKeyword::String)
    } else if l == "non-empty-string"@ {
        Some(TypeKeyword::NonEmptyString)
    } else if l == "numeric-string"@ {
        Some(TypeKeyword::NumericString)
    } else if l == "truthy-string"@ || l == "non-falsy-string"@ {
        Some(TypeKeyword::NonEmptyString)
    } else if l == "lowercase-string"@ || l == "uppercase-string"@ || l == "non-empty-lowercase-string"@ || l == "non-empty-uppercase-string"@ {
        Some(TypeKeyword::String)
    } else if l == "class-string"@ {
        Some(TypeKeyword::ClassString)
    } else if l == "interface-string"@ {
        Some(TypeKeyword::InterfaceString)
    } else if l == "int"@ || l == "integer"@ {
        Some(TypeKeyword::Int)
    } else if l == "positive-int"@ {
        Some(TypeKeyword::PositiveInt)
    } else if l == "negative-int"@ {
        Some(TypeKeyword::NegativeInt)
    } else if l == "non-negative-int"@ {
        Some(TypeKeyword::NonNegativeInt)
    } else if l == "float"@ || l == "double"@ {
        Some(TypeKeyword::Float)
    } else if l == "bool"@ || l == "boolean"@ {
        Some(TypeKeyword::Bool)
    } else if l == "true"@ {
        Some(TypeKeyword::True)
    } else if l == "false"@ {
        Some(TypeKeyword::False)
    } else if l == "null"@ {
        Some(TypeKeyword::Null)
    } else if l == "void"@ {
        Some(TypeKeyword::Void)
    } else if l == "never"@ || l == "never-return"@ || l == "no-return"@ || l == "never-returns"@ {
        Some(TypeKeyword::Never)
    } else if l == "mixed"@ {
        Some(TypeKeyword::Mixed)
    } else if l == "object"@ {
        Some(TypeKeyword::Object)
    } else if l == "array"@ {
        Some(TypeKeyword::Array)
    } else if l == "list"@ {
        Some(TypeKeyword::List)
    } else if l == "callable"@ || l == "pure-callable"@ {
        Some(TypeKeyword::Callable)
    } else if l == "pure-closure"@ {
        Some(TypeKeyword::PureClosure)
    } else if l == "callable-string"@ {
        Some(TypeKeyword::CallableString)
    } else if l == "iterable"@ {
        Some(TypeKeyword::Iterable)
    } else if l == "scalar"@ {
        Some(TypeKeyword::Scalar)
    } else if l == "numeric"@ {
        Some(TypeKeyword::Numeric)
    } else if l == "empty"@ {
        Some(TypeKeyword::Empty)
    } else if l == "array-key"@ {
        Some(TypeKeyword::ArrayKey)
    } else if l == "resource"@ {
        Some(TypeKeyword::Resource)
    } else if l == "static"@ {
        Some(TypeKeyword::Static)
    } else if l == "self"@ || l == "$this"@ {
        Some(TypeKeyword::SelfRef)
    } else if l == "parent"@ {
        Some(TypeKeyword::Parent)
    } else {
        None
    }
}

/// The keyword table reads each keyword name as the keyword it names, and
/// only those names: `int`/`integer` read as `int`, `positive-int` as
/// `positive-int`, `negative-int` as `negative-int`, `non-negative-int` as
/// `non-negative-int`, and so on for every keyword, so distinct keywords
/// never share a name.
pub proof fn lemma_keyword_names(l: Seq<char>)
    ensures
        (keyword_of(l) == Some(TypeKeyword::String)) <==> (l == "string"@ || l == "lowercase-string"@ || l == "uppercase-string"@ || l == "non-empty-lowercase-string"@ || l == "non-empty-uppercase-string"@),
        (keyword_of(l) == Some(TypeKeyword::NonEmptyString)) <==> (l == "non-empty-string"@ || l == "truthy-string"@ || l == "non-falsy-string"@),
        (keyword_of(l) == Some(TypeKeyword::NumericString)) <==> (l == "numeric-string"@),
        (keyword_of(l) == Some(TypeKeyword::ClassString)) <==> (l == "class-string"@),
        (keyword_of(l) == Some(TypeKeyword::InterfaceString)) <==> (l == "interface-string"@),
        (keyword_of(l) == Some(TypeKeyword::Int)) <==> (l == "int"@ || l == "integer"@),
        (keyword_of(l) == Some(TypeKeyword::PositiveInt)) <==> (l == "positive-int"@),
        (keyword_of(l) == Some(TypeKeyword::NegativeInt)) <==> (l == "negative-int"@),
        (keyword_of(l) == Some(TypeKeyword::NonNegativeInt)) <==> (l == "non-negative-int"@),
        (keyword_of(l) == Some(TypeKeyword::Float)) <==> (l == "float"@ || l == "double"@),
        (keyword_of(l) == Some(TypeKeyword::Bool)) <==> (l == "bool"@ || l == "boolean"@),
        (keyword_of(l) == Some(TypeKeyword::True)) <==> (l == "true"@),
        (keyword_of(l) == Some(TypeKeyword::False)) <==> (l == "false"@),
        (keyword_of(l) == Some(TypeKeyword::Null)) <==> (l == "null"@),
        (keyword_of(l) == Some(TypeKeyword::Void)) <==> (l == "void"@),
        (keyword_of(l) == Some(TypeKeyword::Never)) <==> (l == "never"@ || l == "never-return"@ || l == "no-return"@ || l == "never-returns"@),
        (keyword_of(l) == Some(TypeKeyword::Mixed)) <==> (l == "mixed"@),
        (keyword_of(l) == Some(TypeKeyword::Object)) <==> (l == "object"@),
        (keyword_of(l) == Some(TypeKeyword::Array)) <==> (l == "array"@),
        (keyword_of(l) == Some(TypeKeyword::List)) <==> (l == "list"@),
        (keyword_of(l) == Some(TypeKeyword::Callable)) <==> (l == "callable"@ || l == "pure-callable"@),
        (keyword_of(l) == Some(TypeKeyword::PureClosure)) <==> (l == "pure-closure"@),
        (keyword_of(l) == Some(TypeKeyword::CallableString)) <==> (l == "callable-string"@),
        (keyword_of(l) == Some(TypeKeyword::Iterable)) <==> (l == "iterable"@),
        (keyword_of(l) == Some(TypeKeyword::Scalar)) <==> (l == "scalar"@),
        (keyword_of(l) == Some(TypeKeyword::Numeric)) <==> (l == "numeric"@),
        (keyword_of(l) == Some(TypeKeyword::Empty)) <==> (l == "empty"@),
        (keyword_of(l) == Some(TypeKeyword::ArrayKey)) <==> (l == "array-key"@),
        (keyword_of(l) == Some(TypeKeyword::Resource)) <==> (l == "resource"@),
        (keyword_of(l) == Some(TypeKeyword::Static)) <==> (l == "static"@),
        (keyword_of(l) == Some(TypeKeyword::SelfRef)) <==> (l == "self"@ || l == "$this"@),
        (keyword_of(l) == Some(TypeKeyword::Parent)) <==> (l == "parent"@),
{
    reveal_strlit("string");
    assert("string"@.len() == 6);
    assert("string"@[0] == 's');
    assert("string"@[1] == 't');
    assert("string"@[2] == 'r');
    reveal_strlit("non-empty-string");
    assert("non-empty-string"@.len() == 16);
    assert("non-empty-string"@[0] == 'n');
    assert("non-empty-string"@[4] == 'e');
    reveal_strlit("numeric-string");
    assert("numeric-string"@.len() == 14);
    reveal_strlit("truthy-string");
    assert("truthy-string"@.len() == 13);
    assert("truthy-string"@[0] == 't');
    reveal_strlit("non-falsy-string");
    assert("non-falsy-string"@.len() == 16);
    assert("non-falsy-string"@[0] == 'n');
    assert("non-falsy-string"@[4] == 'f');
    reveal_strlit("lowercase-string");
    assert("lowercase-string"@.len() == 16);
    assert("lowercase-string"@[0] == 'l');
    reveal_strlit("uppercase-string");
    assert("uppercase-string"@.len() == 16);
    assert("uppercase-string"@[0] == 'u');
    reveal_strlit("non-empty-lowercase-string");
    assert("non-empty-lowercase-string"@.len() == 26);
    assert("non-empty-lowercase-string"@[10] == 'l');
    reveal_strlit("non-empty-uppercase-string");
    assert("non-empty-uppercase-string"@.len() == 26);
    assert("non-empty-uppercase-string"@[10] == 'u');
    reveal_strlit("class-string");
    assert("class-string"@.len() == 12);
    assert("class-string"@[0] == 'c');
    reveal_strlit("interface-string");
    assert("interface-string"@.len() == 16);
    assert("interface-string"@[0] == 'i');
    reveal_strlit("int");
    assert("int"@.len() == 3);
    reveal_strlit("integer");
    assert("integer"@.len() == 7);
    assert("integer"@[0] == 'i');
    reveal_strlit("positive-int");
    assert("positive-int"@.len() == 12);
    assert("positive-int"@[0] == 'p');
    assert("positive-int"@[1] == 'o');
    reveal_strlit("negative-int");
    assert("negative-int"@.len() == 12);
    assert("negative-int"@[0] == 'n');
    assert("negative-int"@[2] == 'g');
    reveal_strlit("non-negative-int");
    assert("non-negative-int"@.len() == 16);
    assert("non-negative-int"@[0] == 'n');
    assert("non-negative-int"@[4] == 'n');
    reveal_strlit("float");
    assert("float"@.len() == 5);
    assert("float"@[0] == 'f');
    assert("float"@[1] == 'l');
    reveal_strlit("double");
    assert("double"@.len() == 6);
    assert("double"@[0] == 'd');
    reveal_strlit("bool");
    assert("bool"@.len() == 4);
    assert("bool"@[0] == 'b');
    reveal_strlit("boolean");
    assert("boolean"@.len() == 7);
    assert("boolean"@[0] == 'b');
    reveal_strlit("true");
    assert("true"@.len() == 4);
    assert("true"@[0] == 't');
    reveal_strlit("false");
    assert("false"@.len() == 5);
    assert("false"@[0] == 'f');
    assert("false"@[1] == 'a');
    reveal_strlit("null");
    assert("null"@.len() == 4);
    assert("null"@[0] == 'n');
    reveal_strlit("void");
    assert("void"@.len() == 4);
    assert("void"@[0] == 'v');
    reveal_strlit("never");
    assert("never"@.len() == 5);
    assert("never"@[0] == 'n');
    reveal_strlit("never-return");
    assert("never-return"@.len() == 12);
    assert("never-return"@[0] == 'n');
    assert("never-return"@[2] == 'v');
    reveal_strlit("no-return");
    assert("no-return"@.len() == 9);
    assert("no-return"@[0] == 'n');
    reveal_strlit("never-returns");
    assert("never-returns"@.len() == 13);
    assert("never-returns"@[0] == 'n');
    reveal_strlit("mixed");
    assert("mixed"@.len() == 5);
    assert("mixed"@[0] == 'm');
    reveal_strlit("object");
    assert("object"@.len() == 6);
    assert("object"@[0] == 'o');
    reveal_strlit("array");
    assert("array"@.len() == 5);
    assert("array"@[0] == 'a');
    reveal_strlit("list");
    assert("list"@.len() == 4);
    assert("list"@[0] == 'l');
    reveal_strlit("callable");
    assert("callable"@.len() == 8);
    assert("callable"@[0] == 'c');
    reveal_strlit("pure-callable");
    assert("pure-callable"@.len() == 13);
    assert("pure-callable"@[0] == 'p');
    reveal_strlit("pure-closure");
    assert("pure-closure"@.len() == 12);
    assert("pure-closure"@[0] == 'p');
    assert("pure-closure"@[1] == 'u');
    reveal_strlit("callable-string");
    assert("callable-string"@.len() == 15);
    reveal_strlit("iterable");
    assert("iterable"@.len() == 8);
    assert("iterable"@[0] == 'i');
    reveal_strlit("scalar");
    assert("scalar"@.len() == 6);
    assert("scalar"@[0] == 's');
    assert("scalar"@[1] == 'c');
    reveal_strlit("numeric");
    assert("numeric"@.len() == 7);
    assert("numeric"@[0] == 'n');
    reveal_strlit("empty");
    assert("empty"@.len() == 5);
    assert("empty"@[0] == 'e');
    reveal_strlit("array-key");
    assert("array-key"@.len() == 9);
    assert("array-key"@[0] == 'a');
    reveal_strlit("resource");
    assert("resource"@.len() == 8);
    assert("resource"@[0] == 'r');
    reveal_strlit("static");
    assert("static"@.len() == 6);
    assert("static"@[0] == 's');
    assert("static"@[1] == 't');
    assert("static"@[2] == 'a');
    reveal_strlit("self");
    assert("self"@.len() == 4);
    assert("self"@[0] == 's');
    reveal_strlit("$this");
    assert("$this"@.len() == 5);
    assert("$this"@[0] == '$');
    reveal_strlit("parent");
    assert("parent"@.len() == 6);
    assert("parent"@[0] == 'p');
}

/// `array{..}` reads as a keyed array and `list{..}` as a list shape, by
/// their lowercased prefix, and no other prefix makes a shape.
pub proof fn lemma_shape_kinds(prefix: Seq<char>)
    ensures
        (shape_kind(prefix) == Some(false)) <==> lowercase_of(prefix) == "array"@,
        (shape_kind(prefix) == Some(true)) <==> lowercase_of(prefix) == "list"@,
{
    reveal_strlit("array");
    assert("array"@.len() == 5);
    reveal_strlit("list");
    assert("list"@.len() == 4);
}

fn lit(n: &[char], l: &str) -> (r: bool)
    ensures
        r == (n@ == l@),
{
    let c = chars_of(l);
    super::validate::chars_eq(n, c.as_slice())
}

/// The keyword that lowercased type text `l` names, if any.
pub fn type_keyword(l: &[char]) -> (r: Option<TypeKeyword>)
    ensures
        r == keyword_of(l@),
{
    if lit(l, "string") {
        Some(TypeKeyword::String)
    } else if lit(l, "non-empty-string") {
        Some(TypeKeyword::NonEmptyString)
    } else if lit(l, "numeric-string") {
        Some(TypeKeyword::NumericString)
    } else if lit(l, "truthy-string") || lit(l, "non-falsy-string") {
        Some(TypeKeyword::NonEmptyString)
    } else if lit(l, "lowercase-string") || lit(l, "uppercase-string") || lit(l, "non-empty-lowercase-string") || lit(l, "non-empty-uppercase-string") {
        Some(TypeKeyword::String)
    } else if lit(l, "class-string") {
        Some(TypeKeyword::ClassString)
    } else if lit(l, "interface-string") {
        Some(TypeKeyword::InterfaceString)
    } else if lit(l, "int") || lit(l, "integer") {
        Some(TypeKeyword::Int)
    } else if lit(l, "positive-int") {
        Some(TypeKeyword::PositiveInt)
    } else if lit(l, "negative-int") {
        Some(TypeKeyword::NegativeInt)
    } else if lit(l, "non-negative-int") {
        Some(TypeKeyword::NonNegativeInt)
    } else if lit(l, "float") || lit(l, "double") {
        Some(TypeKeyword::Float)
    } else if lit(l, "bool") || lit(l, "boolean") {
        Some(TypeKeyword::Bool)
    } else if lit(l, "true") {
        Some(TypeKeyword::True)
    } else if lit(l, "false") {
        Some(TypeKeyword::False)
    } else if lit(l, "null") {
        Some(TypeKeyword::Null)
    } else if lit(l, "void") {
        Some(TypeKeyword::Void)
    } else if lit(l, "never") || lit(l, "never-return") || lit(l, "no-return") || lit(l, "never-returns") {
        Some(TypeKeyword::Never)
    } else if lit(l, "mixed") {
        Some(TypeKeyword::Mixed)
    } else if lit(l, "object") {
        Some(TypeKeyword::Object)
    } else if lit(l, "array") {
        Some(TypeKeyword::Array)
    } else if lit(l, "list") {
        Some(TypeKeyword::List)
    } else if lit(l, "callable") || lit(l, "pure-callable") {
        Some(TypeKeyword::Callable)
    } else if lit(l, "pure-closure") {
        Some(TypeKeyword::PureClosure)
    } else if lit(l, "callable-string") {
        Some(TypeKeyword::CallableString)
    } else if lit(l, "iterable") {
        Some(TypeKeyword::Iterable)
    } else if lit(l, "scalar") {
        Some(TypeKeyword::Scalar)
    } else if lit(l, "numeric") {
        Some(TypeKeyword::Numeric)
    } else if lit(l, "empty") {
        Some(TypeKeyword::Empty)
    } else if lit(l, "array-key") {
        Some(TypeKeyword::ArrayKey)
    } else if lit(l, "resource") {
        Some(TypeKeyword::Resource)
    } else if lit(l, "static") {
        Some(TypeKeyword::Static)
    } else if lit(l, "self") || lit(l, "$this") {
        Some(TypeKeyword::SelfRef)
    } else if lit(l, "parent") {
        Some(TypeKeyword::Parent)
    } else {
        None
    }
}

/// A type text that is a single word (no brackets or operators at the top).
pub enum WordSyntax {
    Keyword(TypeKeyword),
    IntLiteral(i64),
    /// A class name, as written.
    NamedClass(String),
    /// The text between the quotes of `'…'` or `"…"`.
    StringLiteral(String),
    /// Anything else, read as `mixed`.
    Mixed,
}

pub enum WordView {
    Keyword(TypeKeyword),
    IntLiteral(i64),
    NamedClass(Seq<char>),
    StringLiteral(Seq<char>),
    Mixed,
}

pub open spec fn word_view(w: WordSyntax) -> WordView {
    match w {
        WordSyntax::Keyword(k) => WordView::Keyword(k),
        WordSyntax::IntLiteral(n) => WordView::IntLiteral(n),
        WordSyntax::NamedClass(t) => WordView::NamedClass(t@),
        WordSyntax::StringLiteral(t) => WordView::StringLiteral(t@),
        WordSyntax::Mixed => WordView::Mixed,
    }
}

/// The word `s` (already trimmed): a keyword (by its lowercase form), an
/// integer literal, a class name (starting with a letter, digit, `\` or
/// `_`), a negative integer, a quoted string, or `mixed`.
pub open spec fn word_of(s: Seq<char>) -> WordView {
    match keyword_of(lowercase_of(s)) {
        Some(k) => WordView::Keyword(k),
        None => if s.len() > 0 && (alphabetic(s[0]) || numeric(s[0]) || s[0] == '\\' || s[0] == '_') {
            match parse_i64(s) {
                Some(n) => WordView::IntLiteral(n),
                None => WordView::NamedClass(s),
            }
        } else if s.len() > 1 && s[0] == '-' && all_digits(s.drop_first()) {
            match parse_i64(s) {
                Some(n) => WordView::IntLiteral(n),
                None => WordView::Mixed,
            }
        } else if quoted(s) {
            WordView::StringLiteral(s.subrange(1, s.len() - 1))
        } else {
            WordView::Mixed
        },
    }
}

/// A lone quote character, which the string-literal reader cannot open.
pub open spec fn lone_quote(s: Seq<char>) -> bool {
    s.len() == 1 && (s[0] == '\'' || s[0] == '"')
}

/// Read a one-word type text (trimmed).
pub fn word_syntax(s: &[char]) -> (r: WordSyntax)
    requires
        !lone_quote(s@),
    ensures
        word_view(r) == word_of(s@),
{
    let text = string_of(&copy_range(s, 0, s.len()));
    proof {
        assert(s@.subrange(0, s@.len() as int) =~= s@);
    }
    let lower = to_lowercase(text.as_str());
    let lc = chars_of(lower.as_str());
    if let Some(k) = type_keyword(lc.as_slice()) {
        return WordSyntax::Keyword(k);
    }
    let n = s.len();
    if n > 0 && (crate::text::is_alphanumeric(s[0]) || s[0] == '\\' || s[0] == '_') {
        proof {
            assert(alphabetic(s@[0]) || numeric(s@[0]) || s@[0] == '\\' || s@[0] == '_');
        }
        match crate::text::parse_i64_at(s, 0, n) {
            Some(v) => {
                return WordSyntax::IntLiteral(v);
            },
            None => {
                return WordSyntax::NamedClass(text);
            },
        }
    }
    proof {
        if n > 0 {
            assert(!(alphabetic(s@[0]) || numeric(s@[0])) || !(n > 0));
        }
    }
    if n > 1 && s[0] == '-' {
        let mut i: usize = 1;
        while i < n && '0' <= s[i] && s[i] <= '9'
            invariant
                1 <= i <= n == s@.len(),
                forall|k: int| 1 <= k < i ==> crate::text::is_digit(#[trigger] s@[k]),
            decreases n - i,
        {
            i = i + 1;
        }
        proof {
            let d = s@.drop_first();
            if i == n {
                assert forall|k: int| 0 <= k < d.len() implies crate::text::is_digit(#[trigger] d[k]) by {
                    assert(d[k] == s@[k + 1]);
                }
            } else {
                assert(d[i - 1] == s@[i as int]);
                assert(!crate::text::is_digit(d[i - 1]));
            }
        }
        if i == n {
            match crate::text::parse_i64_at(s, 0, n) {
                Some(v) => {
                    return WordSyntax::IntLiteral(v);
                },
                None => {
                    return WordSyntax::Mixed;
                },
            }
        }
    }
    if n >= 1 && ((s[0] == '\'' && s[n - 1] == '\'') || (s[0] == '"' && s[n - 1] == '"')) {
        let inner = copy_range(s, 1, n - 1);
        return WordSyntax::StringLiteral(string_of(&inner));
    }
    WordSyntax::Mixed
}

/// One level of a type expression.
pub enum TypeSyntax {
    /// `?T`: `T` or `null`.
    Nullable(String),
    /// `($param is T ? A : B)`.
    Conditional(ConditionalParts),
    /// `(T)`: the text inside.
    Parenthesized(String),
    /// `A|B|...`, split at its top-level bars.
    Union(Vec<String>),
    /// `A&B&...`, split at its top-level ampersands.
    Intersection(Vec<String>),
    /// `T[]`: an int-keyed array of `T`.
    ArrayOf(String),
    /// `callable(..): R`, `Closure(..): R`.
    Callable(CallableParts),
    /// `array{...}` (or `list{...}` with `is_list`): the text inside the braces.
    Shape { inner: String, is_list: bool },
    /// `object{...}`: read as plain `object`.
    ObjectShape,
    /// `Name<...>`: the name and the text inside the angle brackets.
    Generic { name: String, inner: String },
    /// A float literal when the text parses as a float, else the word it is.
    MaybeFloat(String),
    Word(WordSyntax),
}

pub enum SyntaxView {
    Nullable(Seq<char>),
    Conditional(super::syntax::ConditionalSpec),
    Parenthesized(Seq<char>),
    Union(Seq<Seq<char>>),
    Intersection(Seq<Seq<char>>),
    ArrayOf(Seq<char>),
    Callable(super::syntax::CallableSpec),
    Shape(Seq<char>, bool),
    ObjectShape,
    Generic(Seq<char>, Seq<char>),
    MaybeFloat(Seq<char>),
    Word(WordView),
}

pub open spec fn syntax_view(t: TypeSyntax) -> SyntaxView {
    match t {
        TypeSyntax::Nullable(x) => SyntaxView::Nullable(x@),
        TypeSyntax::Conditional(c) => SyntaxView::Conditional(conditional_view(c)),
        TypeSyntax::Parenthesized(x) => SyntaxView::Parenthesized(x@),
        TypeSyntax::Union(v) => SyntaxView::Union(strings_view(v@)),
        TypeSyntax::Intersection(v) => SyntaxView::Intersection(strings_view(v@)),
        TypeSyntax::ArrayOf(x) => SyntaxView::ArrayOf(x@),
        TypeSyntax::Callable(c) => SyntaxView::Callable(callable_view(c)),
        TypeSyntax::Shape { inner, is_list } => SyntaxView::Shape(inner@, is_list),
        TypeSyntax::ObjectShape => SyntaxView::ObjectShape,
        TypeSyntax::Generic { name, inner } => SyntaxView::Generic(name@, inner@),
        TypeSyntax::MaybeFloat(x) => SyntaxView::MaybeFloat(x@),
        TypeSyntax::Word(w) => SyntaxView::Word(word_view(w)),
    }
}

/// `s` is wrapped in `(` … `)`.
pub open spec fn in_parens(s: Seq<char>) -> bool {
    s.len() > 0 && s[0] == '(' && s.last() == ')'
}

/// `prefix{inner}`: the prefix before the first `{` and the text inside.
pub open spec fn brace_split(s: Seq<char>) -> Option<(Seq<char>, Seq<char>)> {
    let open = find_char(s, '{');
    if s.len() > 0 && s.last() == '}' && open < s.len() {
        Some((s.take(open as int), s.subrange(open as int + 1, s.len() - 1)))
    } else {
        None
    }
}

/// The shape kind a brace prefix names (lowercased): `Some(false)` for
/// `array`, `Some(true)` for `list`.
pub open spec fn shape_kind(prefix: Seq<char>) -> Option<bool> {
    if lowercase_of(prefix) == "array"@ {
        Some(false)
    } else if lowercase_of(prefix) == "list"@ {
        Some(true)
    } else {
        None
    }
}

/// `name<inner>`.
pub open spec fn angle_split(s: Seq<char>) -> Option<(Seq<char>, Seq<char>)> {
    let open = find_char(s, '<');
    if open < s.len() && s.last() == '>' {
        Some((s.take(open as int), s.subrange(open as int + 1, s.len() - 1)))
    } else {
        None
    }
}

pub open spec fn float_char(c: char) -> bool {
    ('0' <= c && c <= '9') || c == '.' || c == 'e' || c == 'E' || c == '+' || c == '-'
}

/// What follows an optional leading `-`.
pub open spec fn float_body(s: Seq<char>) -> Seq<char> {
    if s.len() > 0 && s[0] == '-' {
        s.drop_first()
    } else {
        s
    }
}

/// Shaped like a float literal: a `.` somewhere, and after an optional
/// leading `-` nothing but digits, `.`, `e`, `E`, `+` and `-`.
pub open spec fn float_shaped(s: Seq<char>) -> bool {
    &&& find_char(s, '.') < s.len()
    &&& forall|i: int| 0 <= i < float_body(s).len() ==> float_char(#[trigger] float_body(s)[i])
}

/// The construct that the type text `s0` is, tried in this order.
pub open spec fn syntax_of(s0: Seq<char>) -> SyntaxView {
    let s = trim(s0);
    let inner = trim(s.subrange(1, s.len() - 1));
    if s.len() > 0 && s[0] == '?' {
        SyntaxView::Nullable(s.drop_first())
    } else if in_parens(s) && conditional_of(inner) is Some {
        SyntaxView::Conditional(conditional_of(inner)->0)
    } else if in_parens(s) && one_paren_group(s) {
        SyntaxView::Parenthesized(inner)
    } else {
        compound_syntax_of(s)
    }
}

/// The constructs of a trimmed text past the nullable and parenthesized forms.
pub open spec fn compound_syntax_of(s: Seq<char>) -> SyntaxView {
    if find_char(s, '|') < s.len() && !unbalanced(s) && split_pieces(s, '|', true).len() > 1 {
        SyntaxView::Union(split_pieces(s, '|', true))
    } else if find_char(s, '&') < s.len() && !unbalanced(s) && split_pieces(s, '&', false).len() > 1 {
        SyntaxView::Intersection(split_pieces(s, '&', false))
    } else if ends_with(s, "[]"@) {
        SyntaxView::ArrayOf(s.take(s.len() - 2))
    } else if callable_of(s) is Some {
        SyntaxView::Callable(callable_of(s)->0)
    } else {
        bracketed_syntax_of(s)
    }
}

/// Shapes, generics, float literals and single words.
pub open spec fn bracketed_syntax_of(s: Seq<char>) -> SyntaxView {
    let (brace_prefix, brace_inner) = match brace_split(s) {
        Some(parts) => parts,
        None => (Seq::empty(), Seq::empty()),
    };
    let (generic_name, generic_inner) = match angle_split(s) {
        Some(parts) => parts,
        None => (Seq::empty(), Seq::empty()),
    };
    if brace_split(s) is Some && shape_kind(brace_prefix) is Some {
        SyntaxView::Shape(brace_inner, shape_kind(brace_prefix)->0)
    } else if brace_split(s) is Some && lowercase_of(brace_prefix) == "object"@ {
        SyntaxView::ObjectShape
    } else if angle_split(s) is Some {
        SyntaxView::Generic(generic_name, generic_inner)
    } else if float_shaped(s) {
        SyntaxView::MaybeFloat(s)
    } else {
        SyntaxView::Word(word_of(s))
    }
}

fn lower_of(s: &[char], from: usize, to: usize) -> (r: Vec<char>)
    requires
        from <= to <= s@.len(),
    ensures
        r@ == lowercase_of(s@.subrange(from as int, to as int)),
{
    let t = string_of(&copy_range(s, from, to));
    let l = to_lowercase(t.as_str());
    chars_of(l.as_str())
}

fn float_shaped_exec(s: &[char]) -> (r: bool)
    ensures
        r == float_shaped(s@),
{
    let n = s.len();
    let dot = crate::text::find_char_in(s, 0, n, '.');
    proof {
        assert(s@.subrange(0, n as int) =~= s@);
    }
    if dot == n {
        return false;
    }
    let start: usize = if n > 0 && s[0] == '-' {
        1
    } else {
        0
    };
    let ghost body = float_body(s@);
    assert(body.len() == n - start);
    assert(forall|k: int| 0 <= k < body.len() ==> body[k] == s@[k + start]);
    let mut i = start;
    while i < n
        invariant
            start <= i <= n == s@.len(),
            body == float_body(s@),
            body.len() == n - start,
            forall|k: int| 0 <= k < body.len() ==> body[k] == s@[k + start],
            forall|k: int| 0 <= k < i - start ==> float_char(#[trigger] body[k]),
        decreases n - i,
    {
        let c = s[i];
        if !(('0' <= c && c <= '9') || c == '.' || c == 'e' || c == 'E' || c == '+' || c == '-') {
            assert(body[i - start] == c);
            assert(!float_char(body[i - start]));
            return false;
        }
        assert(float_char(body[i - start]));
        i = i + 1;
    }
    true
}

/// Which construct the type text `s` is, and the texts of its parts.
pub fn type_syntax(s0: &str) -> (r: TypeSyntax)
    requires
        !lone_quote(trim(s0@)),
    ensures
        syntax_view(r) == syntax_of(s0@),
{
    let cs0 = chars_of(s0);
    let (a, b) = crate::text::trim_range(cs0.as_slice(), 0, cs0.len());
    let cs = copy_range(cs0.as_slice(), a, b);
    proof {
        assert(cs0@.subrange(0, cs0@.len() as int) =~= cs0@);
    }
    let n = cs.len();
    let text = string_of(&cs);
    if n > 0 && cs[0] == '?' {
        let rest = copy_range(cs.as_slice(), 1, n);
        proof {
            assert(rest@ =~= cs@.drop_first());
        }
        return TypeSyntax::Nullable(string_of(&rest));
    }
    if n > 0 && cs[0] == '(' && cs[n - 1] == ')' {
        let inner = super::syntax::trimmed_range(cs.as_slice(), 1, n - 1);
        let inner_s = string_of(&inner);
        if let Some(c) = parse_conditional_type(inner_s.as_str()) {
            return TypeSyntax::Conditional(c);
        }
        if super::scan::is_balanced_parens_chars(cs.as_slice()) {
            return TypeSyntax::Parenthesized(inner_s);
        }
    }
    proof {
        assert(cs@ == trim(s0@));
    }
    compound_syntax(cs.as_slice(), text)
}

fn compound_syntax(cs: &[char], text: String) -> (r: TypeSyntax)
    requires
        text@ == cs@,
        !lone_quote(cs@),
    ensures
        syntax_view(r) == compound_syntax_of(cs@),
{
    let n = cs.len();
    let has_bar = crate::text::find_char_in(cs, 0, n, '|') < n;
    let has_amp = crate::text::find_char_in(cs, 0, n, '&') < n;
    proof {
        assert(cs@.subrange(0, n as int) =~= cs@);
    }
    if has_bar || has_amp {
        let inside = super::scan::is_inside_generics_chars(cs);
        if has_bar && !inside {
            let parts = super::scan::split_union(text.as_str());
            if parts.len() > 1 {
                return TypeSyntax::Union(parts);
            }
        }
        if has_amp && !inside {
            let parts = super::scan::split_intersection(text.as_str());
            if parts.len() > 1 {
                return TypeSyntax::Intersection(parts);
            }
        }
    }
    let brackets = chars_of("[]");
    if crate::text::ends_with_at(cs, n, brackets.as_slice()) {
        proof {
            reveal_strlit("[]");
            assert(cs@.take(n as int) =~= cs@);
        }
        let value = copy_range(cs, 0, n - 2);
        return TypeSyntax::ArrayOf(string_of(&value));
    }
    proof {
        assert(cs@.take(n as int) =~= cs@);
    }
    if let Some(c) = parse_callable_syntax(text.as_str()) {
        return TypeSyntax::Callable(c);
    }
    bracketed_syntax(cs, text)
}

fn bracketed_syntax(cs: &[char], text: String) -> (r: TypeSyntax)
    requires
        text@ == cs@,
        !lone_quote(cs@),
    ensures
        syntax_view(r) == bracketed_syntax_of(cs@),
{
    let n = cs.len();
    proof {
        assert(cs@.subrange(0, n as int) =~= cs@);
    }
    if n > 0 && cs[n - 1] == '}' {
        let open = crate::text::find_char_in(cs, 0, n, '{');
        if open < n {
            let prefix = lower_of(cs, 0, open);
            let inner = copy_range(cs, open + 1, n - 1);
            proof {
                assert(cs@.subrange(0, open as int) =~= cs@.take(open as int));
                reveal_strlit("array");
                reveal_strlit("list");
                reveal_strlit("object");
                assert(brace_split(cs@) == Some((cs@.take(open as int), inner@)));
            }
            if lit(prefix.as_slice(), "array") {
                return TypeSyntax::Shape { inner: string_of(&inner), is_list: false };
            }
            if lit(prefix.as_slice(), "list") {
                return TypeSyntax::Shape { inner: string_of(&inner), is_list: true };
            }
            if lit(prefix.as_slice(), "object") {
                return TypeSyntax::ObjectShape;
            }
        }
    }
    let lt = crate::text::find_char_in(cs, 0, n, '<');
    if lt < n && cs[n - 1] == '>' {
        let name = copy_range(cs, 0, lt);
        let inner = copy_range(cs, lt + 1, n - 1);
        proof {
            assert(name@ =~= cs@.take(lt as int));
        }
        return TypeSyntax::Generic { name: string_of(&name), inner: string_of(&inner) };
    }
    if float_shaped_exec(cs) {
        return TypeSyntax::MaybeFloat(text);
    }
    TypeSyntax::Word(word_syntax(cs))
}

} // verus!

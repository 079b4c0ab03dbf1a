use mir_analyzer::docblock::doc_type::{parse_type, DocType};
use mir_analyzer::docblock::generic_syntax::{generic_syntax, GenericSyntax};
use mir_analyzer::docblock::int_mask::SelfIntConstants;
use mir_analyzer::docblock::type_syntax::{type_syntax, TypeKeyword, TypeSyntax, WordSyntax};
use mir_analyzer::type_hint::{builtin_hint, hint_tree, named_hint, BuiltinHint, HintTree, HintType, TypeHintNode};

fn word(s: &str) -> WordSyntax {
    match type_syntax(s) {
        TypeSyntax::Word(w) => w,
        _ => panic!("expected a single word: {s}"),
    }
}

fn keyword(s: &str) -> TypeKeyword {
    match word(s) {
        WordSyntax::Keyword(k) => k,
        _ => panic!("expected a keyword: {s}"),
    }
}

fn class_name(s: &str) -> String {
    match word(s) {
        WordSyntax::NamedClass(n) => n,
        _ => panic!("expected a class name: {s}"),
    }
}

/// Reads `name<inner>` down to its generic form.
fn generic(s: &str) -> GenericSyntax {
    match type_syntax(s) {
        TypeSyntax::Generic { name, inner } => generic_syntax(&name, &inner, None),
        _ => panic!("expected a generic type: {s}"),
    }
}

fn mask(s: &str) -> Option<Vec<i64>> {
    match generic(s) {
        GenericSyntax::IntMask(v) => v,
        GenericSyntax::IntMaskOf(v) => v,
        _ => panic!("expected an int mask: {s}"),
    }
}

fn union_parts(s: &str) -> Vec<String> {
    match type_syntax(s) {
        TypeSyntax::Union(parts) => parts,
        _ => panic!("expected a union: {s}"),
    }
}

fn intersection_parts(s: &str) -> Vec<String> {
    match type_syntax(s) {
        TypeSyntax::Intersection(parts) => parts,
        _ => panic!("expected an intersection: {s}"),
    }
}

fn check_parse_string() {
    assert_eq!(keyword("string"), TypeKeyword::String);
}

fn check_parse_nullable_string() {
    match type_syntax("?string") {
        TypeSyntax::Nullable(inner) => assert_eq!(keyword(&inner), TypeKeyword::String),
        _ => panic!("expected a nullable type"),
    }
}

fn check_parse_union() {
    let parts = union_parts("string|int|null");
    let kinds: Vec<TypeKeyword> = parts.iter().map(|p| keyword(p)).collect();
    assert!(kinds.contains(&TypeKeyword::String));
    assert!(kinds.contains(&TypeKeyword::Int));
    assert!(kinds.contains(&TypeKeyword::Null));
}

fn check_parse_array_of_string() {
    assert!(matches!(generic("array<string>"), GenericSyntax::Array { non_empty: false, .. }));
}

fn check_parse_list_of_int() {
    assert!(matches!(generic("list<int>"), GenericSyntax::List { non_empty: false, .. }));
}

fn check_parse_named_class() {
    assert_eq!(class_name("Foo\\Bar"), "Foo\\Bar");
}

fn check_parse_intersection_two_parts() {
    let parts = intersection_parts("Iterator&Countable");
    assert_eq!(parts.len(), 2);
    assert_eq!(class_name(&parts[0]), "Iterator");
    assert_eq!(class_name(&parts[1]), "Countable");
}

fn check_parse_intersection_three_parts() {
    let parts = intersection_parts("Iterator&Countable&Stringable");
    assert_eq!(parts.len(), 3);
    assert_eq!(class_name(&parts[0]), "Iterator");
    assert_eq!(class_name(&parts[1]), "Countable");
    assert_eq!(class_name(&parts[2]), "Stringable");
}

fn check_parse_intersection_in_union_with_null() {
    let parts = union_parts("Iterator&Countable|null");
    assert!(parts.iter().any(|p| matches!(type_syntax(p), TypeSyntax::Word(WordSyntax::Keyword(TypeKeyword::Null)))));
    let inter = parts.iter().find_map(|p| match type_syntax(p) {
        TypeSyntax::Intersection(v) => Some(v),
        _ => None,
    });
    let inter = inter.expect("expected TIntersection");
    assert_eq!(inter.len(), 2);
    assert_eq!(class_name(&inter[0]), "Iterator");
    assert_eq!(class_name(&inter[1]), "Countable");
}

fn check_parse_intersection_in_union_with_scalar() {
    let parts = union_parts("Iterator&Countable|string");
    assert!(parts.iter().any(|p| matches!(type_syntax(p), TypeSyntax::Word(WordSyntax::Keyword(TypeKeyword::String)))));
    let inter = parts.iter().find_map(|p| match type_syntax(p) {
        TypeSyntax::Intersection(v) => Some(v),
        _ => None,
    });
    let inter = inter.expect("expected TIntersection");
    assert_eq!(class_name(&inter[0]), "Iterator");
    assert_eq!(class_name(&inter[1]), "Countable");
}

fn check_parse_empty_generic_array_graceful() {
    assert!(matches!(generic("array<>"), GenericSyntax::Array { non_empty: false, .. }));
}

fn check_parse_empty_generic_iterable_graceful() {
    assert!(matches!(generic("iterable<>"), GenericSyntax::Iterable { .. }));
}

fn check_parse_empty_generic_non_empty_array_graceful() {
    assert!(matches!(generic("non-empty-array<>"), GenericSyntax::Array { non_empty: true, .. }));
}

#[test]
fn docblock_parse_string() {
    check_parse_string();
}

#[test]
fn docblock_parse_nullable_string() {
    check_parse_nullable_string();
}

#[test]
fn docblock_parse_union() {
    check_parse_union();
}

#[test]
fn docblock_parse_array_of_string() {
    check_parse_array_of_string();
}

#[test]
fn docblock_parse_list_of_int() {
    check_parse_list_of_int();
}

#[test]
fn docblock_parse_named_class() {
    check_parse_named_class();
}

#[test]
fn docblock_parse_intersection_two_parts() {
    check_parse_intersection_two_parts();
}

#[test]
fn docblock_parse_intersection_three_parts() {
    check_parse_intersection_three_parts();
}

#[test]
fn docblock_parse_intersection_in_union_with_null() {
    check_parse_intersection_in_union_with_null();
}

#[test]
fn docblock_parse_intersection_in_union_with_scalar() {
    check_parse_intersection_in_union_with_scalar();
}

#[test]
fn docblock_parse_empty_generic_array_graceful() {
    check_parse_empty_generic_array_graceful();
}

#[test]
fn docblock_parse_empty_generic_iterable_graceful() {
    check_parse_empty_generic_iterable_graceful();
}

#[test]
fn docblock_parse_empty_generic_non_empty_array_graceful() {
    check_parse_empty_generic_non_empty_array_graceful();
}

#[test]
fn tests_parse_string() {
    check_parse_string();
}

#[test]
fn tests_parse_nullable_string() {
    check_parse_nullable_string();
}

#[test]
fn tests_parse_union() {
    check_parse_union();
}

#[test]
fn tests_parse_array_of_string() {
    check_parse_array_of_string();
}

#[test]
fn tests_parse_list_of_int() {
    check_parse_list_of_int();
}

#[test]
fn tests_parse_named_class() {
    check_parse_named_class();
}

#[test]
fn tests_parse_intersection_two_parts() {
    check_parse_intersection_two_parts();
}

#[test]
fn tests_parse_intersection_three_parts() {
    check_parse_intersection_three_parts();
}

#[test]
fn tests_parse_intersection_in_union_with_null() {
    check_parse_intersection_in_union_with_null();
}

#[test]
fn tests_parse_intersection_in_union_with_scalar() {
    check_parse_intersection_in_union_with_scalar();
}

#[test]
fn tests_parse_empty_generic_array_graceful() {
    check_parse_empty_generic_array_graceful();
}

#[test]
fn tests_parse_empty_generic_iterable_graceful() {
    check_parse_empty_generic_iterable_graceful();
}

#[test]
fn tests_parse_empty_generic_non_empty_array_graceful() {
    check_parse_empty_generic_non_empty_array_graceful();
}

#[test]
fn parse_bare_array_keys_on_array_key_not_mixed() {
    // A bare `array` has no key written: its key is `int|string`, which
    // `key-of` spells out.
    assert!(matches!(parse_type("array", None), Some(DocType::Array { key: None, .. })));
    match parse_type("key-of<array>", None) {
        Some(DocType::Union(ps)) => {
            assert_eq!(ps.len(), 2);
            assert!(matches!(ps[0], DocType::Keyword(TypeKeyword::Int)));
            assert!(matches!(ps[1], DocType::Keyword(TypeKeyword::String)));
        }
        _ => panic!("expected int|string"),
    }
}

#[test]
fn parse_truthy_and_non_falsy_string() {
    assert_eq!(keyword("truthy-string"), TypeKeyword::NonEmptyString);
    assert_eq!(keyword("non-falsy-string"), TypeKeyword::NonEmptyString);
}

#[test]
fn parse_case_constrained_string() {
    assert_eq!(keyword("lowercase-string"), TypeKeyword::String);
    assert_eq!(keyword("uppercase-string"), TypeKeyword::String);
}

#[test]
fn parse_int_mask_expands_to_literal_union() {
    let v = mask("int-mask<1, 2, 4>").expect("expected literal members");
    assert_eq!(v.len(), 8);
    for n in 0i64..8 {
        assert!(v.contains(&n), "missing literal {n}");
    }
}

#[test]
fn parse_int_mask_single_member() {
    let v = mask("int-mask<4>").expect("expected literal members");
    assert_eq!(v.len(), 2);
    assert!(v.contains(&0));
    assert!(v.contains(&4));
}

#[test]
fn parse_int_mask_with_zero_member_deduplicates() {
    let v = mask("int-mask<0, 1>").expect("expected literal members");
    assert_eq!(v.len(), 2);
    assert!(v.contains(&0));
    assert!(v.contains(&1));
}

#[test]
fn parse_int_mask_too_many_members_falls_back() {
    assert_eq!(mask("int-mask<1, 2, 4, 8, 16, 32, 64, 128, 256>"), None);
}

#[test]
fn parse_int_mask_of_always_falls_back() {
    assert_eq!(mask("int-mask-of<Foo::*>"), None);
}

#[test]
fn parse_int_mask_class_constants_fall_back() {
    assert_eq!(mask("int-mask<SORT_ASC, SORT_DESC>"), None);
}

#[test]
fn nullable_keeps_the_inner_text() {
    assert!(matches!(type_syntax("  ?Foo "), TypeSyntax::Nullable(ref s) if s == "Foo"));
}

#[test]
fn parenthesized_type_is_unwrapped() {
    assert!(matches!(type_syntax("(A&B)"), TypeSyntax::Parenthesized(ref s) if s == "A&B"));
    // Two groups side by side are not one parenthesized type.
    assert!(matches!(type_syntax("(A)|(B)"), TypeSyntax::Union(_)));
}

#[test]
fn conditional_type_is_recognised() {
    match type_syntax("($x is int ? string : bool)") {
        TypeSyntax::Conditional(c) => {
            assert_eq!(c.param_name, "x");
            assert_eq!(c.subject, "int");
            assert_eq!(c.if_true, "string");
            assert_eq!(c.if_false, "bool");
        }
        _ => panic!("expected a conditional type"),
    }
}

#[test]
fn array_suffix_is_an_int_keyed_array() {
    assert!(matches!(type_syntax("string[]"), TypeSyntax::ArrayOf(ref s) if s == "string"));
    assert!(matches!(type_syntax("int[][]"), TypeSyntax::ArrayOf(ref s) if s == "int[]"));
}

#[test]
fn callable_syntax_is_recognised() {
    match type_syntax("callable(int, string): bool") {
        TypeSyntax::Callable(c) => {
            assert!(!c.is_closure);
            assert_eq!(c.params.len(), 2);
            assert_eq!(c.params[0].type_text, "int");
            assert_eq!(c.return_type.as_deref(), Some("bool"));
        }
        _ => panic!("expected a callable"),
    }
}

#[test]
fn shapes_are_told_apart_by_prefix() {
    assert!(matches!(type_syntax("array{a: int}"), TypeSyntax::Shape { ref inner, is_list: false } if inner == "a: int"));
    assert!(matches!(type_syntax("LIST{int}"), TypeSyntax::Shape { is_list: true, .. }));
    assert!(matches!(type_syntax("object{a: int}"), TypeSyntax::ObjectShape));
}

#[test]
fn float_shaped_text_is_set_aside() {
    assert!(matches!(type_syntax("3.14"), TypeSyntax::MaybeFloat(ref s) if s == "3.14"));
    assert!(matches!(type_syntax("-0.5"), TypeSyntax::MaybeFloat(_)));
    assert!(matches!(word("42"), WordSyntax::IntLiteral(42)));
    assert!(matches!(word("-7"), WordSyntax::IntLiteral(-7)));
    assert!(matches!(word("'foo'"), WordSyntax::StringLiteral(ref s) if s == "foo"));
    assert!(matches!(word("%"), WordSyntax::Mixed));
}

#[test]
fn generic_arguments_are_read() {
    match generic("array<int, string>") {
        GenericSyntax::Array { non_empty, key, value } => {
            assert!(!non_empty);
            assert_eq!(key.as_deref(), Some("int"));
            assert_eq!(value.as_deref(), Some("string"));
        }
        _ => panic!("expected an array"),
    }
    match generic("iterable<Foo>") {
        GenericSyntax::Iterable { key, value } => {
            assert_eq!(key, None);
            assert_eq!(value.as_deref(), Some("Foo"));
        }
        _ => panic!("expected an iterable"),
    }
    assert!(matches!(generic("int<0, max>"), GenericSyntax::IntRange { min: Some(0), max: None }));
    assert!(matches!(generic("int<-5, 5>"), GenericSyntax::IntRange { min: Some(-5), max: Some(5) }));
    assert!(matches!(generic("int<1>"), GenericSyntax::IntRange { min: None, max: None }));
    assert!(matches!(generic("class-string<Foo>"), GenericSyntax::ClassString(ref s) if s == "Foo"));
    assert!(matches!(generic("key-of<T>"), GenericSyntax::KeyOf(ref s) if s == "T"));
    assert!(matches!(generic("value-of< T >"), GenericSyntax::ValueOf(ref s) if s == "T"));
    assert!(matches!(generic("class-string-map<T>"), GenericSyntax::ClassStringMap(Some(ref s)) if s == "T"));
    assert!(matches!(generic("class-string-map<T, V>"), GenericSyntax::ClassStringMap(Some(ref s)) if s == "V"));
    match generic("Collection<int, User>") {
        GenericSyntax::Named { fqcn, params } => {
            assert_eq!(fqcn, "Collection");
            assert_eq!(params, vec!["int".to_string(), "User".to_string()]);
        }
        _ => panic!("expected a named generic"),
    }
}

#[test]
fn int_mask_of_resolves_against_the_class_being_read() {
    let active = SelfIntConstants {
        fqcn: "App\\Flags".to_string(),
        constants: vec![("FLAG_A".to_string(), 1), ("FLAG_B".to_string(), 2)],
    };
    assert!(matches!(
        generic_syntax("int-mask-of", "self::FLAG_*", Some(&active)),
        GenericSyntax::IntMaskOf(Some(ref v)) if *v == vec![0, 1, 2, 3]
    ));
}

#[test]
fn type_hints_resolve_relative_names() {
    assert!(matches!(builtin_hint(BuiltinHint::Integer, None), HintType::Int));
    assert!(matches!(builtin_hint(BuiltinHint::Iterable, None), HintType::Array));
    assert!(matches!(builtin_hint(BuiltinHint::SelfType, None), HintType::Object));
    assert!(matches!(builtin_hint(BuiltinHint::Static, Some("App\\A")), HintType::StaticClass(ref c) if c == "App\\A"));
    assert!(matches!(named_hint("SELF", Some("App\\A")), HintType::SelfClass(ref c) if c == "App\\A"));
    assert!(matches!(named_hint("parent", None), HintType::Object));
    assert!(matches!(named_hint("\\App\\Foo", None), HintType::Named(ref n) if n == "App\\Foo"));
    assert!(matches!(named_hint("Foo", Some("App\\A")), HintType::Named(ref n) if n == "Foo"));
}

#[test]
fn plain_integer_is_not_float_literal() {
    assert!(matches!(word("42"), WordSyntax::IntLiteral(42)));
}

#[test]
fn composite_hints_combine_their_parts() {
    let nullable_self = TypeHintNode::Nullable(Box::new(TypeHintNode::Keyword(BuiltinHint::SelfType)));
    match hint_tree(&nullable_self, Some("App\\A")) {
        HintTree::Nullable(inner) => {
            assert!(matches!(*inner, HintTree::Single(HintType::SelfClass(ref c)) if c == "App\\A"))
        }
        _ => panic!("expected a nullable hint"),
    }
    let union = TypeHintNode::Union(vec![TypeHintNode::Keyword(BuiltinHint::Int), TypeHintNode::Named("\\Foo".to_string())]);
    match hint_tree(&union, None) {
        HintTree::Union(parts) => {
            assert_eq!(parts.len(), 2);
            assert!(matches!(parts[0], HintTree::Single(HintType::Int)));
            assert!(matches!(parts[1], HintTree::Single(HintType::Named(ref n)) if n == "Foo"));
        }
        _ => panic!("expected a union"),
    }
    assert!(matches!(hint_tree(&TypeHintNode::Intersection(vec![]), None), HintTree::Single(HintType::Mixed)));
    let both = TypeHintNode::Intersection(vec![TypeHintNode::Named("A".to_string()), TypeHintNode::Named("B".to_string())]);
    assert!(matches!(hint_tree(&both, None), HintTree::Intersection(ref p) if p.len() == 2));
}

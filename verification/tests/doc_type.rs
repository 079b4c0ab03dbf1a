use mir_analyzer::docblock::doc_type::{parse_type, DocType};
use mir_analyzer::docblock::int_mask::SelfIntConstants;
use mir_analyzer::docblock::syntax::ShapeKey;
use mir_analyzer::docblock::type_syntax::TypeKeyword;

fn kw(t: &DocType) -> Option<TypeKeyword> {
    match t {
        DocType::Keyword(k) => Some(*k),
        _ => None,
    }
}

fn read(s: &str) -> DocType {
    parse_type(s, None).unwrap_or_else(|| panic!("{s} should read"))
}

#[test]
fn nullable_and_union_read_their_parts() {
    match read("?string") {
        DocType::Nullable(inner) => assert_eq!(kw(&inner), Some(TypeKeyword::String)),
        _ => panic!("expected nullable"),
    }
    match read("string|int|null") {
        DocType::Union(parts) => {
            let kinds: Vec<Option<TypeKeyword>> = parts.iter().map(kw).collect();
            assert_eq!(kinds, vec![Some(TypeKeyword::String), Some(TypeKeyword::Int), Some(TypeKeyword::Null)]);
        }
        _ => panic!("expected union"),
    }
    assert_eq!(kw(&read("(int)")), Some(TypeKeyword::Int));
}

#[test]
fn generics_read_their_arguments() {
    match read("array<int, string>") {
        DocType::Array { non_empty: false, key: Some(k), value: Some(v) } => {
            assert_eq!(kw(&k), Some(TypeKeyword::Int));
            assert_eq!(kw(&v), Some(TypeKeyword::String));
        }
        _ => panic!("expected array"),
    }
    match read("list<array<string, int[]>>") {
        DocType::List { non_empty: false, value } => match *value {
            DocType::Array { key: Some(k), value: Some(v), .. } => {
                assert_eq!(kw(&k), Some(TypeKeyword::String));
                assert!(matches!(*v, DocType::ArrayOf(ref e) if kw(e) == Some(TypeKeyword::Int)));
            }
            _ => panic!("expected array inside list"),
        },
        _ => panic!("expected list"),
    }
    match read("Collection<int, User>") {
        DocType::Named { fqcn, params } => {
            assert_eq!(fqcn, "Collection");
            assert_eq!(params.len(), 2);
            assert_eq!(kw(&params[0]), Some(TypeKeyword::Int));
            assert!(matches!(&params[1], DocType::Named { fqcn, params } if fqcn == "User" && params.is_empty()));
        }
        _ => panic!("expected named generic"),
    }
    assert!(matches!(read("int<0, max>"), DocType::IntRange { min: Some(0), max: None }));
    assert!(matches!(read("int-mask<1, 2>"), DocType::IntMask(Some(ref v)) if *v == vec![0, 1, 2, 3]));
    assert!(matches!(read("int-mask<FOO>"), DocType::IntMask(None)));
}

#[test]
fn int_mask_of_reads_against_the_class() {
    let active = SelfIntConstants {
        fqcn: "App\\Flags".to_string(),
        constants: vec![("FLAG_A".to_string(), 1), ("FLAG_B".to_string(), 4)],
    };
    assert!(matches!(
        parse_type("int-mask-of<self::FLAG_*>", Some(&active)),
        Some(DocType::IntMaskOf(Some(ref v))) if *v == vec![0, 1, 4, 5]
    ));
    assert!(matches!(parse_type("int-mask-of<self::FLAG_*>", None), Some(DocType::IntMaskOf(None))));
}

#[test]
fn literals_and_words() {
    assert!(matches!(read("42"), DocType::IntLiteral(42)));
    assert!(matches!(read("'foo'"), DocType::StringLiteral(ref s) if s == "foo"));
    assert!(matches!(read("3.14"), DocType::FloatText(ref s) if s == "3.14"));
    assert!(matches!(read("object{a: int}"), DocType::Keyword(TypeKeyword::Object)));
    assert!(matches!(read("array{a: int}"), DocType::Shape { is_list: false, is_open: false, .. }));
    assert!(matches!(read("array"), DocType::Array { non_empty: false, key: None, value: None }));
    assert!(matches!(read("%"), DocType::Mixed));
}

#[test]
fn a_lone_quote_cannot_be_read() {
    assert!(parse_type("'", None).is_none());
    assert!(parse_type("array<'>", None).is_none());
    assert!(parse_type("int|\"", None).is_none());
}

fn has_str(t: &DocType, s: &str) -> bool {
    match t {
        DocType::StringLiteral(x) => x == s,
        DocType::Union(ps) => ps.iter().any(|p| has_str(p, s)),
        _ => false,
    }
}

fn has_int(t: &DocType, n: i64) -> bool {
    match t {
        DocType::IntLiteral(m) => *m == n,
        DocType::Union(ps) => ps.iter().any(|p| has_int(p, n)),
        _ => false,
    }
}

#[test]
fn key_of_array_is_key_type() {
    assert_eq!(kw(&read("key-of<array<int, string>>")), Some(TypeKeyword::Int));
}

#[test]
fn key_of_list_is_int() {
    assert_eq!(kw(&read("key-of<list<string>>")), Some(TypeKeyword::Int));
}

#[test]
fn key_of_keyed_array_is_literal_keys() {
    let u = read("key-of<array{a: int, b: int}>");
    assert!(has_str(&u, "a"));
    assert!(has_str(&u, "b"));
}

#[test]
fn value_of_array_is_value_type() {
    assert_eq!(kw(&read("value-of<array<int, string>>")), Some(TypeKeyword::String));
}

#[test]
fn value_of_keyed_array_is_value_union() {
    let u = read("value-of<array{a: \"foo\", b: \"bar\"}>");
    assert!(has_str(&u, "foo"));
    assert!(has_str(&u, "bar"));
}

#[test]
fn value_of_union_of_lists_and_shapes() {
    let u = read("value-of<list<0|1|2>|array{0: 3, 1: 4}>");
    for n in [0, 1, 2, 3, 4] {
        assert!(has_int(&u, n), "missing literal {n}");
    }
}

#[test]
fn key_of_unresolvable_falls_back_to_mixed() {
    assert!(matches!(read("key-of<\\SplStack>"), DocType::Mixed));
}

#[test]
fn key_of_bare_array_is_int_or_string() {
    match read("key-of<array>") {
        DocType::Union(ps) => {
            let kinds: Vec<Option<TypeKeyword>> = ps.iter().map(kw).collect();
            assert_eq!(kinds, vec![Some(TypeKeyword::Int), Some(TypeKeyword::String)]);
        }
        _ => panic!("expected int|string"),
    }
    assert!(matches!(read("value-of<array>"), DocType::Mixed));
    assert_eq!(kw(&read("key-of<string[]>")), Some(TypeKeyword::Int));
}

#[test]
fn shapes_read_their_entries() {
    match read("array{a: int, 'b'?: string, 7: bool, ...}") {
        DocType::Shape { entries, is_open: true, is_list: false } => {
            assert_eq!(entries.len(), 3);
            assert!(matches!(&entries[0], (ShapeKey::Str(k), t, false) if k == "a" && kw(t) == Some(TypeKeyword::Int)));
            assert!(matches!(&entries[1], (ShapeKey::Str(k), t, true) if k == "b" && kw(t) == Some(TypeKeyword::String)));
            assert!(matches!(&entries[2], (ShapeKey::Int(7), t, false) if kw(t) == Some(TypeKeyword::Bool)));
        }
        _ => panic!("expected an open shape"),
    }
    match read("list{int, string}") {
        DocType::Shape { entries, is_open: false, is_list: true } => {
            assert!(matches!(&entries[0], (ShapeKey::Int(0), t, false) if kw(t) == Some(TypeKeyword::Int)));
            assert!(matches!(&entries[1], (ShapeKey::Int(1), t, false) if kw(t) == Some(TypeKeyword::String)));
        }
        _ => panic!("expected a list shape"),
    }
    assert!(parse_type("array{': int}", None).is_none());
}

#[test]
fn a_question_mark_makes_any_type_nullable() {
    match read("?key-of<array{a: int}>") {
        DocType::Nullable(inner) => assert!(matches!(*inner, DocType::StringLiteral(ref s) if s == "a")),
        _ => panic!("expected nullable"),
    }
    match read("?int|string ") {
        DocType::Nullable(inner) => assert!(matches!(*inner, DocType::Union(ref ps) if ps.len() == 2)),
        _ => panic!("expected nullable"),
    }
    assert!(parse_type("?'", None).is_none());
}

use mir_analyzer::narrowing::{int_comparison_bounds, ComparisonOp};
use mir_analyzer::type_narrowing::{
    bool_narrow, literal_int_narrow, literal_string_narrow, narrow_string_length, narrow_to_int_range, Atom, AtomType,
};

fn ty(atoms: Vec<Atom>) -> AtomType {
    AtomType { atoms, from_docblock: false }
}

fn show(t: &AtomType) -> Vec<String> {
    t.atoms
        .iter()
        .map(|a| match a {
            Atom::Int => "int".to_string(),
            Atom::PositiveInt => "positive-int".to_string(),
            Atom::NonNegativeInt => "non-negative-int".to_string(),
            Atom::NegativeInt => "negative-int".to_string(),
            Atom::IntRange { min, max } => format!(
                "int<{}, {}>",
                min.map(|v| v.to_string()).unwrap_or("min".to_string()),
                max.map(|v| v.to_string()).unwrap_or("max".to_string())
            ),
            Atom::LiteralInt(v) => v.to_string(),
            Atom::Scalar => "scalar".to_string(),
            Atom::Numeric => "numeric".to_string(),
            Atom::Mixed => "mixed".to_string(),
            Atom::Null => "null".to_string(),
            Atom::Bool => "bool".to_string(),
            Atom::True => "true".to_string(),
            Atom::False => "false".to_string(),
            Atom::String => "string".to_string(),
            Atom::NonEmptyString => "non-empty-string".to_string(),
            Atom::NumericString => "numeric-string".to_string(),
            Atom::CallableString => "callable-string".to_string(),
            Atom::ClassString(id) => format!("class-string#{id}"),
            Atom::InterfaceString(id) => format!("interface-string#{id}"),
            Atom::EnumString => "enum-string".to_string(),
            Atom::TraitString => "trait-string".to_string(),
            Atom::LiteralString(s) => format!("'{s}'"),
            Atom::Float => "float".to_string(),
            Atom::Array => "array".to_string(),
            Atom::List => "list".to_string(),
            Atom::Object => "object".to_string(),
            Atom::Named(n) => n.clone(),
            Atom::Intersection(ps) => ps.iter().map(|p| p.join("|")).collect::<Vec<_>>().join("&"),
            Atom::Closure => "Closure()".to_string(),
            Atom::Callable => "callable".to_string(),
            Atom::Other(id) => format!("other#{id}"),
        })
        .collect()
}

#[test]
fn int_range_intersects_named_kinds() {
    let ts = ty(vec![Atom::Int, Atom::PositiveInt, Atom::NegativeInt, Atom::Null]);
    // `$x >= 5`
    assert_eq!(show(&narrow_to_int_range(&ts, Some(5), None)), vec!["int<5, max>", "int<5, max>", "null"]);
    // `$x < 0`
    assert_eq!(show(&narrow_to_int_range(&ts, None, Some(-1))), vec!["int<min, -1>", "int<min, -1>", "null"]);
}

#[test]
fn int_range_drops_literals_outside() {
    let ts = ty(vec![Atom::LiteralInt(1), Atom::LiteralInt(10), Atom::IntRange { min: Some(0), max: Some(3) }]);
    assert_eq!(show(&narrow_to_int_range(&ts, Some(2), Some(20))), vec!["10", "int<2, 3>"]);
    assert!(narrow_to_int_range(&ts, Some(50), None).atoms.is_empty());
}

#[test]
fn strict_int_equality_keeps_only_the_literal() {
    let ts = ty(vec![
        Atom::Int,
        Atom::LiteralInt(3),
        Atom::LiteralInt(4),
        Atom::NegativeInt,
        Atom::IntRange { min: Some(0), max: Some(10) },
        Atom::String,
        Atom::Mixed,
    ]);
    assert_eq!(show(&literal_int_narrow(&ts, 4, true)), vec!["4", "4", "4", "4"]);
    assert_eq!(show(&literal_int_narrow(&ts, -2, true)), vec!["-2", "-2", "-2"]);
}

#[test]
fn int_exclusion_tightens_edges() {
    let ts = ty(vec![
        Atom::PositiveInt,
        Atom::NonNegativeInt,
        Atom::IntRange { min: Some(1), max: Some(5) },
        Atom::IntRange { min: Some(7), max: Some(7) },
        Atom::LiteralInt(7),
    ]);
    // `$x !== 0`: non-negative-int loses its lower edge and becomes positive-int.
    assert_eq!(
        show(&literal_int_narrow(&ts, 0, false)),
        vec!["positive-int", "positive-int", "int<1, 5>", "int<7, 7>", "7"]
    );
    // `$x !== 1`
    assert_eq!(
        show(&literal_int_narrow(&ts, 1, false)),
        vec!["int<2, max>", "non-negative-int", "int<2, 5>", "int<7, 7>", "7"]
    );
    // `$x !== 7` empties the single-point range and drops the literal.
    assert_eq!(
        show(&literal_int_narrow(&ts, 7, false)),
        vec!["positive-int", "non-negative-int", "int<1, 5>"]
    );
    // `$x !== -1` on negative-int tightens the upper edge.
    assert_eq!(show(&literal_int_narrow(&ty(vec![Atom::NegativeInt]), -1, false)), vec!["int<min, -2>"]);
}

#[test]
fn int_exclusion_at_the_i64_edges_empties_the_range() {
    let ts = ty(vec![Atom::IntRange { min: Some(i64::MAX), max: None }]);
    assert!(literal_int_narrow(&ts, i64::MAX, false).atoms.is_empty());
    let ts = ty(vec![Atom::IntRange { min: None, max: Some(i64::MIN) }]);
    assert!(literal_int_narrow(&ts, i64::MIN, false).atoms.is_empty());
}

#[test]
fn bool_narrowing_splits_bool() {
    let ts = ty(vec![Atom::Bool, Atom::Null]);
    assert_eq!(show(&bool_narrow(&ts, false, true)), vec!["false"]);
    assert_eq!(show(&bool_narrow(&ts, false, false)), vec!["true", "null"]);
    let ts = ty(vec![Atom::True, Atom::False, Atom::Mixed, Atom::String]);
    assert_eq!(show(&bool_narrow(&ts, true, true)), vec!["true", "true"]);
    assert_eq!(show(&bool_narrow(&ts, true, false)), vec!["false", "mixed", "string"]);
}

#[test]
fn string_literal_narrowing() {
    let ts = ty(vec![
        Atom::String,
        Atom::NonEmptyString,
        Atom::NumericString,
        Atom::ClassString(9),
        Atom::LiteralString("a".to_string()),
        Atom::LiteralString("b".to_string()),
        Atom::Int,
    ]);
    assert_eq!(show(&literal_string_narrow(&ts, "a", false, true)), vec!["'a'", "'a'", "'a'", "'a'"]);
    assert_eq!(show(&literal_string_narrow(&ts, "", false, true)), vec!["''", "''"]);
    assert_eq!(show(&literal_string_narrow(&ts, "12", true, true)).len(), 4);
    assert_eq!(
        show(&literal_string_narrow(&ts, "a", false, false)),
        vec!["string", "non-empty-string", "numeric-string", "class-string#9", "'b'", "int"]
    );
}

#[test]
fn string_length_narrowing() {
    let ts = ty(vec![
        Atom::String,
        Atom::LiteralString(String::new()),
        Atom::LiteralString("x".to_string()),
        Atom::NumericString,
        Atom::Null,
    ]);
    assert_eq!(show(&narrow_string_length(&ts, true)), vec!["non-empty-string", "'x'", "numeric-string", "null"]);
    assert_eq!(show(&narrow_string_length(&ts, false)), vec!["string", "''", "null"]);
}

#[test]
fn comparison_then_range_narrowing_keeps_matching_literals() {
    // `if ($x < 5)`, true branch
    let (min, max) = int_comparison_bounds(ComparisonOp::Less, 5, true).unwrap();
    let ts = ty(vec![Atom::LiteralInt(3), Atom::LiteralInt(7), Atom::Int, Atom::LiteralInt(5)]);
    assert_eq!(show(&narrow_to_int_range(&ts, min, max)), vec!["3", "int<min, 4>"]);
    // false branch: `$x >= 5`
    let (min, max) = int_comparison_bounds(ComparisonOp::Less, 5, false).unwrap();
    assert_eq!(show(&narrow_to_int_range(&ts, min, max)), vec!["7", "int<5, max>", "5"]);
}

#[test]
fn narrowing_keeps_the_docblock_mark() {
    let ts = AtomType { atoms: vec![Atom::Int, Atom::Bool, Atom::String], from_docblock: true };
    assert!(literal_int_narrow(&ts, 3, true).from_docblock);
    assert!(literal_int_narrow(&ts, 3, false).from_docblock);
    assert!(bool_narrow(&ts, true, true).from_docblock);
    assert!(literal_string_narrow(&ts, "a", false, true).from_docblock);
    assert!(narrow_string_length(&ts, true).from_docblock);
    assert!(narrow_to_int_range(&ts, Some(0), None).from_docblock);
    let plain = AtomType { atoms: vec![Atom::Int], from_docblock: false };
    assert!(!literal_int_narrow(&plain, 3, true).from_docblock);
}

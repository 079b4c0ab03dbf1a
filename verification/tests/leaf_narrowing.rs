use mir_analyzer::condition::{CondKind, Condition};
use mir_analyzer::leaf_narrowing::{
    instanceof_any_narrow, instanceof_narrow, prop_type_fn_effects, int_comparison_narrow, leaf_narrowing, narrow_on_condition, null_check_narrow,
    type_check_named, type_fn_named, type_fn_narrow, FnNarrowing, LeafCondition, TypeCheck,
};
use mir_analyzer::narrowing::ComparisonOp;
use mir_analyzer::type_narrowing::{Atom, AtomType};

fn ty(atoms: Vec<Atom>) -> AtomType {
    AtomType { atoms, from_docblock: true }
}

fn named(n: &str) -> Atom {
    Atom::Named(n.to_string())
}

fn label(a: &Atom) -> String {
    match a {
        Atom::Int => "int".to_string(),
        Atom::IntRange { min, max } => format!("int<{:?}, {:?}>", min, max),
        Atom::LiteralInt(v) => v.to_string(),
        Atom::Mixed => "mixed".to_string(),
        Atom::Null => "null".to_string(),
        Atom::Bool => "bool".to_string(),
        Atom::String => "string".to_string(),
        Atom::NumericString => "numeric-string".to_string(),
        Atom::NonEmptyString => "non-empty-string".to_string(),
        Atom::LiteralString(s) => format!("'{s}'"),
        Atom::Float => "float".to_string(),
        Atom::Array => "array".to_string(),
        Atom::List => "list".to_string(),
        Atom::Object => "object".to_string(),
        Atom::Named(n) => n.clone(),
        Atom::Intersection(ps) => ps.iter().map(|p| if p.len() == 1 { p[0].clone() } else { format!("({})", p.join("|")) }).collect::<Vec<_>>().join("&"),
        Atom::Closure => "Closure()".to_string(),
        Atom::Callable => "callable".to_string(),
        Atom::Scalar => "scalar".to_string(),
        Atom::Numeric => "numeric".to_string(),
        _ => "other".to_string(),
    }
}

fn show(t: &AtomType) -> Vec<String> {
    t.atoms.iter().map(label).collect()
}

fn facts() -> (Vec<(String, Vec<String>)>, Vec<String>) {
    let ancestors = vec![
        ("App\\Dog".to_string(), vec!["App\\Animal".to_string(), "App\\Pet".to_string()]),
        ("App\\Cat".to_string(), vec!["App\\Animal".to_string()]),
    ];
    let interfaces = vec!["App\\Pet".to_string()];
    (ancestors, interfaces)
}

#[test]
fn null_checks_keep_or_drop_null() {
    let t = ty(vec![Atom::String, Atom::Null]);
    assert_eq!(show(&null_check_narrow(&t, true)), vec!["null"]);
    assert_eq!(show(&null_check_narrow(&t, false)), vec!["string"]);
    assert_eq!(show(&null_check_narrow(&ty(vec![Atom::Mixed]), true)), vec!["null"]);
    assert!(null_check_narrow(&t, false).from_docblock);
}

#[test]
fn negated_null_check_reverses_the_branches() {
    let (anc, ifs) = facts();
    let t = ty(vec![named("App\\Dog"), Atom::Null]);
    let c = LeafCondition::NullCheck { negated: true };
    assert_eq!(show(&leaf_narrowing(&c, true, &t, &anc, &ifs).unwrap()), vec!["App\\Dog"]);
    assert_eq!(show(&leaf_narrowing(&c, false, &t, &anc, &ifs).unwrap()), vec!["null"]);
}

#[test]
fn type_functions_narrow_by_kind() {
    let t = ty(vec![Atom::String, Atom::Int, Atom::Null, Atom::LiteralString("a".to_string())]);
    assert_eq!(show(&type_fn_narrow(&t, "is_string", true).unwrap()), vec!["string", "'a'"]);
    assert_eq!(show(&type_fn_narrow(&t, "is_string", false).unwrap()), vec!["int", "null"]);
    assert_eq!(show(&type_fn_narrow(&t, "IS_INT", true).unwrap()), vec!["int"]);
    assert_eq!(show(&type_fn_narrow(&t, "is_null", false).unwrap()), vec!["string", "int", "'a'"]);
    assert!(type_fn_narrow(&t, "is_resourceful", true).is_none());
}

#[test]
fn broad_atoms_become_the_checked_type() {
    let t = ty(vec![Atom::Mixed]);
    assert_eq!(show(&type_fn_narrow(&t, "is_float", true).unwrap()), vec!["float"]);
    assert_eq!(show(&type_fn_narrow(&t, "is_object", true).unwrap()), vec!["object"]);
    let s = ty(vec![Atom::Scalar, Atom::Numeric]);
    assert_eq!(show(&type_fn_narrow(&s, "is_string", true).unwrap()), vec!["string", "numeric-string"]);
    assert_eq!(show(&type_fn_narrow(&s, "is_scalar", false).unwrap()), Vec::<String>::new());
    let a = ty(vec![Atom::Array, Atom::List, Atom::String]);
    assert_eq!(show(&type_fn_narrow(&a, "array_is_list", true).unwrap()), vec!["list", "list"]);
    assert_eq!(show(&type_fn_narrow(&a, "array_is_list", false).unwrap()), vec!["array", "string"]);
    assert_eq!(show(&type_fn_narrow(&a, "is_array", false).unwrap()), vec!["string"]);
}

#[test]
fn function_names_are_read_in_any_case() {
    assert_eq!(type_check_named("Is_Bool"), Some(TypeCheck::Bool));
    assert_eq!(type_check_named("is_double"), Some(TypeCheck::Float));
    assert_eq!(type_check_named("is_long"), Some(TypeCheck::Int));
    assert_eq!(type_check_named("is_numeric"), None);
}

#[test]
fn instanceof_true_keeps_subclasses_and_narrows_others() {
    let (anc, ifs) = facts();
    let t = ty(vec![named("App\\Dog"), named("App\\Animal"), named("App\\Car"), Atom::Object, Atom::Int]);
    let r = instanceof_narrow(&t, "App\\Animal", &anc, &ifs, true);
    assert_eq!(show(&r), vec!["App\\Dog", "App\\Animal", "App\\Animal"]);
    // A class neither extending nor extended by an interface coexists with it.
    let p = instanceof_narrow(&ty(vec![named("App\\Car")]), "App\\Pet", &anc, &ifs, true);
    assert_eq!(show(&p), vec!["App\\Car&App\\Pet"]);
    // A superclass narrows down to the checked class.
    let d = instanceof_narrow(&ty(vec![named("App\\Animal")]), "App\\Dog", &anc, &ifs, true);
    assert_eq!(show(&d), vec!["App\\Dog"]);
}

#[test]
fn instanceof_on_no_atoms_is_the_class() {
    let (anc, ifs) = facts();
    let r = instanceof_narrow(&ty(vec![]), "App\\Dog", &anc, &ifs, true);
    assert_eq!(show(&r), vec!["App\\Dog"]);
    assert!(!r.from_docblock);
}

#[test]
fn instanceof_false_drops_instances() {
    let (anc, ifs) = facts();
    let t = ty(vec![named("App\\Dog"), named("App\\Cat"), Atom::Null, Atom::Closure]);
    assert_eq!(show(&instanceof_narrow(&t, "App\\Pet", &anc, &ifs, false)), vec!["App\\Cat", "null", "Closure()"]);
    assert_eq!(show(&instanceof_narrow(&t, "closure", &anc, &ifs, false)), vec!["App\\Dog", "App\\Cat", "null"]);
    let i = ty(vec![Atom::Intersection(vec![vec!["App\\Car".to_string()], vec!["App\\Dog".to_string()]])]);
    assert!(instanceof_narrow(&i, "App\\Animal", &anc, &ifs, false).atoms.is_empty());
}

#[test]
fn intersections_gain_the_class() {
    let (anc, ifs) = facts();
    let i = ty(vec![Atom::Intersection(vec![vec!["App\\Car".to_string()], vec!["App\\Boat".to_string()]])]);
    assert_eq!(show(&instanceof_narrow(&i, "App\\Pet", &anc, &ifs, true)), vec!["App\\Car&App\\Boat&App\\Pet"]);
}

#[test]
fn int_comparisons_bound_and_drop_null() {
    let t = ty(vec![Atom::Int, Atom::Null]);
    let r = int_comparison_narrow(&t, ComparisonOp::Greater, 5, true).unwrap();
    assert_eq!(show(&r), vec!["int<Some(6), None>"]);
    assert!(int_comparison_narrow(&t, ComparisonOp::Other, 5, true).is_none());
    let c = LeafCondition::IntCompare { op: ComparisonOp::Less, value: 3 };
    let (anc, ifs) = facts();
    let l = leaf_narrowing(&c, true, &t, &anc, &ifs).unwrap();
    assert_eq!(show(&l), vec!["int<None, Some(2)>", "null"]);
}

fn leaf(id: u64) -> Condition {
    Condition { id, kind: CondKind::Leaf }
}

fn boxed(c: Condition) -> Box<Condition> {
    Box::new(c)
}

fn classes(names: &[&str]) -> Vec<String> {
    names.iter().map(|n| n.to_string()).collect()
}

#[test]
fn instanceof_any_narrows_to_one_of_the_classes() {
    let (anc, ifs) = facts();
    let cs = classes(&["App\\Dog", "App\\Cat"]);
    let t = ty(vec![named("App\\Animal"), named("App\\Dog"), Atom::Object, named("App\\Car"), Atom::Int]);
    let r = instanceof_any_narrow(&t, &cs, &anc, &ifs);
    assert_eq!(show(&r), vec!["App\\Dog", "App\\Cat", "App\\Dog", "App\\Dog", "App\\Cat"]);
    assert!(r.from_docblock);
    let m = instanceof_any_narrow(&ty(vec![Atom::Mixed]), &cs, &anc, &ifs);
    assert_eq!(show(&m), vec!["App\\Dog", "App\\Cat"]);
    assert!(!m.from_docblock);
}

#[test]
fn instanceof_any_adds_one_part_to_an_intersection() {
    let (anc, ifs) = facts();
    let cs = classes(&["App\\Pet", "App\\Toy"]);
    let i = ty(vec![Atom::Intersection(vec![vec!["App\\Car".to_string()], vec!["App\\Boat".to_string()]])]);
    assert_eq!(show(&instanceof_any_narrow(&i, &cs, &anc, &ifs)), vec!["App\\Car&App\\Boat&(App\\Pet|App\\Toy)"]);
    let covered = ty(vec![Atom::Intersection(vec![vec!["App\\Dog".to_string()]])]);
    let both = classes(&["App\\Animal", "App\\Pet"]);
    assert_eq!(show(&instanceof_any_narrow(&covered, &both, &anc, &ifs)), vec!["App\\Dog"]);
    assert_eq!(show(&instanceof_any_narrow(&covered, &cs, &anc, &ifs)), vec!["App\\Dog&App\\Toy"]);
    // An unrelated class meets the interfaces among the classes.
    let car = ty(vec![named("App\\Car")]);
    assert_eq!(show(&instanceof_any_narrow(&car, &cs, &anc, &ifs)), vec!["App\\Car&App\\Pet"]);
}

#[test]
fn conditions_combine_their_leaves() {
    let (anc, ifs) = facts();
    // !($x === null) && is_string($x)
    let c = Condition {
        id: 1,
        kind: CondKind::And(boxed(Condition { id: 2, kind: CondKind::Not(boxed(leaf(3))) }), boxed(leaf(4))),
    };
    let leaves = vec![
        (3, LeafCondition::NullCheck { negated: false }),
        (4, LeafCondition::TypeFn { name: "is_string".to_string() }),
    ];
    let t = || ty(vec![Atom::String, Atom::Int, Atom::Null]);
    assert_eq!(show(&narrow_on_condition(&c, true, &leaves, t(), &anc, &ifs)), vec!["string"]);
    // A failed `&&` says nothing of either side.
    assert_eq!(show(&narrow_on_condition(&c, false, &leaves, t(), &anc, &ifs)), vec!["string", "int", "null"]);
    // A failed `||`: both sides failed.
    let o = Condition { id: 5, kind: CondKind::Or(boxed(leaf(3)), boxed(leaf(4))) };
    assert_eq!(show(&narrow_on_condition(&o, false, &leaves, t(), &anc, &ifs)), vec!["int"]);
    // A held `||` that is not all instanceof leaves the type.
    assert_eq!(show(&narrow_on_condition(&o, true, &leaves, t(), &anc, &ifs)), vec!["string", "int", "null"]);
}

#[test]
fn a_held_or_of_instanceof_narrows_to_the_classes() {
    let (anc, ifs) = facts();
    let c = Condition {
        id: 1,
        kind: CondKind::Or(boxed(leaf(2)), boxed(Condition { id: 3, kind: CondKind::Parenthesized(boxed(leaf(4))) })),
    };
    let leaves = vec![
        (2, LeafCondition::InstanceOf { class: "App\\Dog".to_string() }),
        (4, LeafCondition::InstanceOf { class: "App\\Cat".to_string() }),
    ];
    let t = ty(vec![named("App\\Animal"), Atom::Null]);
    assert_eq!(show(&narrow_on_condition(&c, true, &leaves, t, &anc, &ifs)), vec!["App\\Dog", "App\\Cat"]);
    let n = ty(vec![named("App\\Dog"), named("App\\Cat"), Atom::Null]);
    assert_eq!(show(&narrow_on_condition(&c, false, &leaves, n, &anc, &ifs)), vec!["null"]);
}

#[test]
fn leaves_of_other_values_change_nothing() {
    let (anc, ifs) = facts();
    let t = ty(vec![Atom::String, Atom::Null]);
    let leaves = vec![(9, LeafCondition::NullCheck { negated: false })];
    assert_eq!(show(&narrow_on_condition(&leaf(1), true, &leaves, t, &anc, &ifs)), vec!["string", "null"]);
}

#[test]
fn ctype_and_method_exists_checks() {
    let t = ty(vec![Atom::String, Atom::LiteralString(String::new()), Atom::Int]);
    assert_eq!(show(&type_fn_narrow(&t, "ctype_digit", true).unwrap()), vec!["non-empty-string", "int"]);
    assert_eq!(show(&type_fn_narrow(&t, "ctype_digit", false).unwrap()), vec!["string", "''", "int"]);
    let m = ty(vec![Atom::Mixed, Atom::Scalar, named("App\\Dog"), Atom::Int]);
    assert_eq!(show(&type_fn_narrow(&m, "method_exists", true).unwrap()), vec!["object", "string", "App\\Dog"]);
    assert_eq!(show(&type_fn_narrow(&m, "Property_Exists", false).unwrap()), vec!["object", "string", "App\\Dog"]);
    assert_eq!(type_fn_named("CTYPE_SPACE"), Some(FnNarrowing::CtypeNonEmpty));
    assert_eq!(type_fn_named("is_iterable"), None);
}

#[test]
fn literal_leaves_narrow_by_identity() {
    let (anc, ifs) = facts();
    let t = ty(vec![Atom::Int, Atom::Null]);
    let five = LeafCondition::IntLiteral { value: 5 };
    assert_eq!(show(&leaf_narrowing(&five, true, &t, &anc, &ifs).unwrap()), vec!["5"]);
    let b = ty(vec![Atom::Bool]);
    let yes = LeafCondition::BoolLiteral { value: true };
    assert!(matches!(leaf_narrowing(&yes, false, &b, &anc, &ifs).unwrap().atoms.as_slice(), [Atom::False]));
    let s = ty(vec![Atom::String, Atom::Int]);
    let a = LeafCondition::StringLiteral { value: "a".to_string(), numeric: false };
    assert_eq!(show(&leaf_narrowing(&a, true, &s, &anc, &ifs).unwrap()), vec!["'a'"]);
}

#[test]
fn property_checks_on_nullable_receivers() {
    assert_eq!(prop_type_fn_effects("is_string", true, true), (true, true));
    assert_eq!(prop_type_fn_effects("is_string", false, true), (false, false));
    assert_eq!(prop_type_fn_effects("IS_NULL", true, true), (false, false));
    assert_eq!(prop_type_fn_effects("is_null", false, true), (true, true));
    assert_eq!(prop_type_fn_effects("is_null", true, false), (true, false));
}

use mir_analyzer::docblock::validate::validate_generic_semantics;
use mir_analyzer::docblock::lines::{
    extract_description, extract_return_type, parse_import_type, parse_param_line,
    parse_template_line, strip_quotes,
};
use mir_analyzer::docblock::method::{parse_method_line, parse_method_param, parse_method_params};
use mir_analyzer::docblock::parsed::SelfOutType;
use mir_analyzer::docblock::scan::{
    contains_unquoted, extract_type_prefix, find_char_at_depth, find_matching_paren,
    has_empty_generics, is_balanced_parens, is_inside_generics, split_generics,
    split_intersection, split_union,
};
use mir_analyzer::docblock::tags::{parse_assertion_type, parse_self_out_type};
use mir_analyzer::docblock::validate::{
    is_valid_php_identifier, normalize_fqcn, validate_array_key_inner, validate_int_range_inner,
    validate_method_body, validate_type_str,
};
use mir_analyzer::docblock::DocblockParser;

fn t(name: &str, bound: Option<&str>, default: Option<&str>) -> Option<(String, Option<String>, Option<String>)> {
    Some((name.to_string(), bound.map(String::from), default.map(String::from)))
}

#[test]
fn template_lines() {
    assert_eq!(parse_template_line("template", Some("T".into())), t("T", None, None));
    assert_eq!(parse_template_line("template", Some("T of Foo".into())), t("T", Some("Foo"), None));
    assert_eq!(parse_template_line("template", Some("T\tas\tBar".into())), t("T", Some("Bar"), None));
    assert_eq!(
        parse_template_line("template", Some("T of array<int, string> = list<int>".into())),
        t("T", Some("array<int, string>"), Some("list<int>"))
    );
    assert_eq!(parse_template_line("template", Some("T = mixed".into())), t("T", None, Some("mixed")));
    assert_eq!(
        parse_template_line("template", Some("T @param T $x @return T".into())),
        t("T", None, None)
    );
    assert_eq!(
        parse_template_line("template", Some("T\nReturns an array of class attributes.".into())),
        t("T", None, None)
    );
    assert_eq!(parse_template_line("template", Some("   ".into())), None);
    assert_eq!(parse_template_line("template", None), None);
}

#[test]
fn description_stops_at_the_first_tag() {
    let doc = "/**\n * First line.\n *\n * Second line.\n * @param int $x\n * After.\n */";
    assert_eq!(extract_description(doc), "First line. Second line.");
    assert_eq!(extract_description("/** One-liner */"), "One-liner");
    assert_eq!(extract_description("/** @return int */"), "");
}

#[test]
fn import_type_bodies() {
    let d = parse_import_type("A as B from \\Some\\Repo").unwrap();
    assert_eq!((d.original.as_str(), d.local.as_str(), d.from_class.as_str()), ("A", "B", "Some\\Repo"));
    assert!(parse_import_type("A from ").is_none());
    assert!(parse_import_type("no source").is_none());
}

#[test]
fn param_lines() {
    assert_eq!(parse_param_line("int $x"), Some(("int".to_string(), "x".to_string())));
    assert_eq!(parse_param_line("string ...$rest"), Some(("string".to_string(), "rest".to_string())));
    assert_eq!(
        parse_param_line("array<int, string> $map the map"),
        Some(("array<int, string>".to_string(), "map".to_string()))
    );
    assert_eq!(parse_param_line("$x"), None);
    assert_eq!(parse_param_line("int"), None);
}

#[test]
fn return_types() {
    assert_eq!(extract_return_type("bool true if var is of type string"), "bool");
    assert_eq!(extract_return_type("array<string, int> an associative array"), "array<string, int>");
    assert_eq!(extract_return_type("\\Closure(): T description"), "\\Closure(): T");
    assert_eq!(extract_return_type(""), "");
}

#[test]
fn method_lines() {
    let m = parse_method_line("static Foo|null make(int $a, string ...$rest = 'x') Makes one").unwrap();
    assert!(m.is_static);
    assert_eq!(m.name, "make");
    assert_eq!(m.return_type, "Foo|null");
    assert_eq!(m.params.len(), 2);
    assert_eq!(m.params[0].name, "a");
    assert_eq!(m.params[0].type_hint, "int");
    assert!(!m.params[0].is_optional);
    assert!(m.params[1].is_variadic);
    assert!(m.params[1].is_optional);
    let plain = parse_method_line("getName()").unwrap();
    assert_eq!(plain.return_type, "");
    assert!(!plain.is_static);
    assert!(parse_method_line("   ").is_none());
}

#[test]
fn method_params() {
    let p = parse_method_param("array &$out").unwrap();
    assert!(p.is_byref);
    assert_eq!(p.name, "out");
    assert!(parse_method_param("=").is_none());
    assert_eq!(parse_method_params("f()").len(), 0);
    assert_eq!(parse_method_params("f").len(), 0);
    assert_eq!(parse_method_params("f(int $a, array<int, string> $b)").len(), 2);
}

#[test]
fn splitting_at_top_level() {
    assert_eq!(split_union("int|array<int|string>|null"), vec!["int", "array<int|string>", "null"]);
    assert_eq!(split_union("'a|b'|int"), vec!["'a|b'", "int"]);
    assert_eq!(split_intersection("A&B<C&D>"), vec!["A", "B<C&D>"]);
    assert_eq!(split_generics("int, array<int, string>, "), vec!["int", "array<int, string>"]);
}

#[test]
fn bracket_scanning() {
    assert!(is_inside_generics("array<int"));
    assert!(!is_inside_generics("array<int>"));
    assert!(contains_unquoted("a|b", '|'));
    assert!(!contains_unquoted("'a|b'", '|'));
    assert_eq!(find_char_at_depth("array<a:b>:c", ':'), Some(10));
    assert_eq!(find_char_at_depth("<a:b>", ':'), None);
    assert_eq!(find_matching_paren("(a(b)c)d"), Some(6));
    assert_eq!(find_matching_paren("(a"), None);
    assert!(is_balanced_parens("(A&B)"));
    assert!(!is_balanced_parens("(A)|(B)"));
    assert_eq!(extract_type_prefix("array<int, string> rest"), "array<int, string>");
    assert!(has_empty_generics("array<>"));
    assert!(!has_empty_generics("array<int>"));
}

#[test]
fn type_validation_messages() {
    assert_eq!(validate_type_str("array<int", "return"), Some("@return has unclosed generic type `array<int`".to_string()));
    assert_eq!(validate_type_str("array<>", "var"), Some("@var has empty generic type parameter in `array<>`".to_string()));
    assert_eq!(validate_type_str("callable(): void", "var"), None);
    assert_eq!(
        validate_type_str("Foo|$bar", "param"),
        Some("@param contains variable `$bar` in type position".to_string())
    );
    assert_eq!(validate_type_str("$this", "return"), None);
    assert_eq!(
        validate_type_str("int<5, 1>", "param"),
        Some("@param has invalid int range: min (5) must not be greater than max (1)".to_string())
    );
    assert_eq!(
        validate_type_str("array<float, int>", "return"),
        Some("@return has invalid array key type `float`: must be a subtype of int|string".to_string())
    );
    assert_eq!(validate_type_str("   ", "return"), None);
}

#[test]
fn int_range_and_array_key_checks() {
    assert_eq!(
        validate_int_range_inner("max, 3", "var"),
        Some("@var has invalid int range: `max` must be the second argument, not the first".to_string())
    );
    assert_eq!(
        validate_int_range_inner("0, min", "var"),
        Some("@var has invalid int range: `min` must be the first argument, not the second".to_string())
    );
    assert_eq!(
        validate_int_range_inner("zero, 3", "var"),
        Some("@var has invalid int range boundary `zero`: must be an integer literal, `min`, or `max`".to_string())
    );
    assert_eq!(validate_int_range_inner("min, 3", "var"), None);
    assert_eq!(validate_int_range_inner("3", "var"), None);
    assert_eq!(validate_array_key_inner("int, string", "var"), None);
    assert_eq!(
        validate_array_key_inner("TRUE, string", "var"),
        Some("@var has invalid array key type `TRUE`: must be a subtype of int|string".to_string())
    );
}

#[test]
fn method_body_checks() {
    assert_eq!(validate_method_body("  "), Some("@method annotation is missing a method definition".to_string()));
    assert_eq!(
        validate_method_body("int bad-name()"),
        Some("@method has invalid method name `bad-name`: must be a valid PHP identifier".to_string())
    );
    assert_eq!(
        validate_method_body("void set(&$x)"),
        Some("@method parameter `&$x` uses by-reference (`&`) which is not supported in @method annotations".to_string())
    );
    assert_eq!(
        validate_method_body("void set(array & $x)"),
        Some("@method parameter `array & $x` uses by-reference (`&`) which is not supported in @method annotations".to_string())
    );
    assert_eq!(validate_method_body("static int make(int $a = 1)"), None);
}

#[test]
fn php_identifiers() {
    assert!(is_valid_php_identifier("_foo1"));
    assert!(is_valid_php_identifier("über"));
    assert!(!is_valid_php_identifier("1foo"));
    assert!(!is_valid_php_identifier("a-b"));
    assert!(!is_valid_php_identifier(""));
}

#[test]
fn quotes_and_names() {
    assert_eq!(strip_quotes("'foo'"), "foo");
    assert_eq!(strip_quotes("\"bar\""), "bar");
    assert_eq!(strip_quotes("'mixed\""), "'mixed\"");
    assert_eq!(strip_quotes("''"), "");
    assert_eq!(strip_quotes("plain"), "plain");
    assert_eq!(normalize_fqcn("\\Carbon\\CarbonImmutable"), "\\Carbon\\CarbonImmutable");
}

#[test]
fn assertion_types() {
    assert_eq!(parse_assertion_type(" !null"), ("null".to_string(), true));
    assert_eq!(parse_assertion_type("int "), ("int ".to_string(), false));
}

#[test]
fn self_out_types() {
    match parse_self_out_type("static<U, V>") {
        SelfOutType::Receiver { keyword, params } => {
            assert_eq!(keyword, "static");
            assert_eq!(params, vec!["U".to_string(), "V".to_string()]);
        }
        other => panic!("unexpected {other:?}"),
    }
    match parse_self_out_type("SELF<T>") {
        SelfOutType::Receiver { keyword, .. } => assert_eq!(keyword, "self"),
        other => panic!("unexpected {other:?}"),
    }
    match parse_self_out_type("Foo<T>") {
        SelfOutType::Plain(t) => assert_eq!(t, "Foo<T>"),
        other => panic!("unexpected {other:?}"),
    }
}

#[test]
fn tag_families_and_flags() {
    let doc = "/**\n * @psalm-param-out int $x\n * @throws A|B\n * @psalm-suppress Foo, Bar\n * @trace $a, $b\n * @taint-sink html $p $q\n * @mir-check $x is int\n * @dataProvider Foo::provide()\n * @phpstan-pure\n * @final\n * @since 8.1\n * @since 9.0\n * See {@inheritDoc}\n */";
    let p = DocblockParser::parse(doc);
    assert_eq!(p.out_params, vec![("x".to_string(), "int".to_string())]);
    assert_eq!(p.throws, vec!["A".to_string(), "B".to_string()]);
    assert_eq!(p.suppressed_issues, vec!["Foo".to_string(), "Bar".to_string()]);
    assert_eq!(p.trace_vars, vec!["a".to_string(), "b".to_string()]);
    assert_eq!(
        p.taint_sinks,
        vec![("p".to_string(), "html".to_string()), ("q".to_string(), "html".to_string())]
    );
    assert_eq!(p.mir_checks, vec![("$x".to_string(), "int".to_string())]);
    assert_eq!(p.data_providers, vec!["provide".to_string()]);
    assert!(p.is_pure && p.is_final);
    assert_eq!(p.since.as_deref(), Some("8.1"));
    assert!(p.is_inherit_doc);
}

#[test]
fn last_param_of_a_name_wins() {
    let p = DocblockParser::parse("/**\n * @param int $x\n * @psalm-param positive-int $x\n */");
    assert_eq!(p.get_param_type("$x").map(String::as_str), Some("positive-int"));
    assert_eq!(p.get_param_type("y"), None);
    assert_eq!(p.get_out_param_type("x"), None);
}

#[test]
fn generic_semantics_checks_int_ranges_and_array_keys() {
    assert_eq!(validate_generic_semantics("int<0, 10>", "@param"), None);
    assert!(validate_generic_semantics("int<max, 0>", "@param").is_some());
    assert!(validate_generic_semantics("INT<5, 1>", "@return").is_some());
    assert!(validate_generic_semantics("array<float, int>", "@var").is_some());
    assert_eq!(validate_generic_semantics("array<string, int>", "@var"), None);
    assert_eq!(validate_generic_semantics("Foo<float, int>", "@var"), None);
    assert_eq!(validate_generic_semantics("int", "@var"), None);
}

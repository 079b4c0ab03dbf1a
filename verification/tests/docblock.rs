use mir_analyzer::docblock::parsed::Variance;
use mir_analyzer::docblock::doc_type::{parse_type, DocType};
use mir_analyzer::docblock::type_syntax::TypeKeyword;
use mir_analyzer::docblock::DocblockParser;

#[test]
fn docblock_parse_docblock_param_return() {
    let doc = r#"/**
         * @param string $name
         * @param int $age
         * @return bool
         */"#;
    let parsed = DocblockParser::parse(doc);
    assert_eq!(parsed.params.len(), 2);
    assert!(parsed.return_type.is_some());
    let ret = parsed.return_type.unwrap();
    assert_eq!(ret, "bool");
}

#[test]
fn tests_parse_docblock_param_return() {
    let doc = r#"/**
         * @param string $name
         * @param int $age
         * @return bool
         */"#;
    let parsed = DocblockParser::parse(doc);
    assert_eq!(parsed.params.len(), 2);
    assert!(parsed.return_type.is_some());
    let ret = parsed.return_type.unwrap();
    assert_eq!(ret, "bool");
}

#[test]
fn docblock_parse_template() {
    let doc = "/** @template T of object */";
    let parsed = DocblockParser::parse(doc);
    assert_eq!(parsed.templates.len(), 1);
    assert_eq!(parsed.templates[0].0, "T");
    assert!(parsed.templates[0].1.is_some());
    assert_eq!(parsed.templates[0].2, Variance::Invariant);
}

#[test]
fn tests_parse_template() {
    let doc = "/** @template T of object */";
    let parsed = DocblockParser::parse(doc);
    assert_eq!(parsed.templates.len(), 1);
    assert_eq!(parsed.templates[0].0, "T");
    assert!(parsed.templates[0].1.is_some());
    assert_eq!(parsed.templates[0].2, Variance::Invariant);
}

#[test]
fn docblock_parse_template_covariant() {
    let doc = "/** @template-covariant T */";
    let parsed = DocblockParser::parse(doc);
    assert_eq!(parsed.templates.len(), 1);
    assert_eq!(parsed.templates[0].0, "T");
    assert_eq!(parsed.templates[0].2, Variance::Covariant);
}

#[test]
fn tests_parse_template_covariant() {
    let doc = "/** @template-covariant T */";
    let parsed = DocblockParser::parse(doc);
    assert_eq!(parsed.templates.len(), 1);
    assert_eq!(parsed.templates[0].0, "T");
    assert_eq!(parsed.templates[0].2, Variance::Covariant);
}

#[test]
fn docblock_parse_template_contravariant() {
    let doc = "/** @template-contravariant T */";
    let parsed = DocblockParser::parse(doc);
    assert_eq!(parsed.templates.len(), 1);
    assert_eq!(parsed.templates[0].0, "T");
    assert_eq!(parsed.templates[0].2, Variance::Contravariant);
}

#[test]
fn tests_parse_template_contravariant() {
    let doc = "/** @template-contravariant T */";
    let parsed = DocblockParser::parse(doc);
    assert_eq!(parsed.templates.len(), 1);
    assert_eq!(parsed.templates[0].0, "T");
    assert_eq!(parsed.templates[0].2, Variance::Contravariant);
}

#[test]
fn docblock_parse_deprecated() {
    let doc = "/** @deprecated use newMethod() instead */";
    let parsed = DocblockParser::parse(doc);
    assert!(parsed.is_deprecated);
    assert_eq!(parsed.deprecated.as_deref(), Some("use newMethod() instead"));
}

#[test]
fn tests_parse_deprecated() {
    let doc = "/** @deprecated use newMethod() instead */";
    let parsed = DocblockParser::parse(doc);
    assert!(parsed.is_deprecated);
    assert_eq!(parsed.deprecated.as_deref(), Some("use newMethod() instead"));
}

#[test]
fn docblock_parse_since_plain() {
    let parsed = DocblockParser::parse("/** @since 8.0 */");
    assert_eq!(parsed.since.as_deref(), Some("8.0"));
    assert_eq!(parsed.removed, None);
}

#[test]
fn tests_parse_since_plain() {
    let parsed = DocblockParser::parse("/** @since 8.0 */");
    assert_eq!(parsed.since.as_deref(), Some("8.0"));
    assert_eq!(parsed.removed, None);
}

#[test]
fn docblock_parse_since_strips_trailing_description() {
    let parsed = DocblockParser::parse("/** @since 1.4.0 added \\$options argument */");
    assert_eq!(parsed.since.as_deref(), Some("1.4.0"));
}

#[test]
fn tests_parse_since_strips_trailing_description() {
    let parsed = DocblockParser::parse("/** @since 1.4.0 added \\$options argument */");
    assert_eq!(parsed.since.as_deref(), Some("1.4.0"));
}

#[test]
fn docblock_parse_removed_tag() {
    let parsed = DocblockParser::parse("/** @removed 8.0 use mb_convert_encoding */");
    assert_eq!(parsed.removed.as_deref(), Some("8.0"));
}

#[test]
fn tests_parse_removed_tag() {
    let parsed = DocblockParser::parse("/** @removed 8.0 use mb_convert_encoding */");
    assert_eq!(parsed.removed.as_deref(), Some("8.0"));
}

#[test]
fn docblock_parse_since_empty_body_is_none() {
    let parsed = DocblockParser::parse("/** @since */");
    assert_eq!(parsed.since, None);
}

#[test]
fn tests_parse_since_empty_body_is_none() {
    let parsed = DocblockParser::parse("/** @since */");
    assert_eq!(parsed.since, None);
}

#[test]
fn docblock_parse_description() {
    let doc = r#"/**
         * This is a description.
         * Spans two lines.
         * @param string $x
         */"#;
    let parsed = DocblockParser::parse(doc);
    assert!(parsed.description.contains("This is a description"));
    assert!(parsed.description.contains("Spans two lines"));
}

#[test]
fn tests_parse_description() {
    let doc = r#"/**
         * This is a description.
         * Spans two lines.
         * @param string $x
         */"#;
    let parsed = DocblockParser::parse(doc);
    assert!(parsed.description.contains("This is a description"));
    assert!(parsed.description.contains("Spans two lines"));
}

#[test]
fn docblock_parse_see_and_link() {
    let doc = "/** @see SomeClass\n * @link https://example.com */";
    let parsed = DocblockParser::parse(doc);
    assert_eq!(parsed.see.len(), 2);
    assert!(parsed.see.contains(&"SomeClass".to_string()));
    assert!(parsed.see.contains(&"https://example.com".to_string()));
}

#[test]
fn tests_parse_see_and_link() {
    let doc = "/** @see SomeClass\n * @link https://example.com */";
    let parsed = DocblockParser::parse(doc);
    assert_eq!(parsed.see.len(), 2);
    assert!(parsed.see.contains(&"SomeClass".to_string()));
    assert!(parsed.see.contains(&"https://example.com".to_string()));
}

#[test]
fn docblock_parse_mixin() {
    let doc = "/** @mixin SomeTrait */";
    let parsed = DocblockParser::parse(doc);
    assert_eq!(parsed.mixins, vec!["SomeTrait".to_string()]);
}

#[test]
fn tests_parse_mixin() {
    let doc = "/** @mixin SomeTrait */";
    let parsed = DocblockParser::parse(doc);
    assert_eq!(parsed.mixins, vec!["SomeTrait".to_string()]);
}

#[test]
fn docblock_parse_property_tags() {
    let doc = r#"/**
         * @property string $name
         * @property-read int $id
         * @property-write bool $active
         */"#;
    let parsed = DocblockParser::parse(doc);
    assert_eq!(parsed.properties.len(), 3);
    let name_prop = parsed.properties.iter().find(|p| p.name == "name").unwrap();
    assert_eq!(name_prop.type_hint, "string");
    assert!(!name_prop.read_only);
    assert!(!name_prop.write_only);
    let id_prop = parsed.properties.iter().find(|p| p.name == "id").unwrap();
    assert!(id_prop.read_only);
    let active_prop = parsed.properties.iter().find(|p| p.name == "active").unwrap();
    assert!(active_prop.write_only);
}

#[test]
fn tests_parse_property_tags() {
    let doc = r#"/**
         * @property string $name
         * @property-read int $id
         * @property-write bool $active
         */"#;
    let parsed = DocblockParser::parse(doc);
    assert_eq!(parsed.properties.len(), 3);
    let name_prop = parsed.properties.iter().find(|p| p.name == "name").unwrap();
    assert_eq!(name_prop.type_hint, "string");
    assert!(!name_prop.read_only);
    assert!(!name_prop.write_only);
    let id_prop = parsed.properties.iter().find(|p| p.name == "id").unwrap();
    assert!(id_prop.read_only);
    let active_prop = parsed.properties.iter().find(|p| p.name == "active").unwrap();
    assert!(active_prop.write_only);
}

#[test]
fn docblock_parse_method_tag() {
    let doc = r#"/**
         * @method string getName()
         * @method static int create()
         */"#;
    let parsed = DocblockParser::parse(doc);
    assert_eq!(parsed.methods.len(), 2);
    let get_name = parsed.methods.iter().find(|m| m.name == "getName").unwrap();
    assert_eq!(get_name.return_type, "string");
    assert!(!get_name.is_static);
    let create = parsed.methods.iter().find(|m| m.name == "create").unwrap();
    assert!(create.is_static);
}

#[test]
fn tests_parse_method_tag() {
    let doc = r#"/**
         * @method string getName()
         * @method static int create()
         */"#;
    let parsed = DocblockParser::parse(doc);
    assert_eq!(parsed.methods.len(), 2);
    let get_name = parsed.methods.iter().find(|m| m.name == "getName").unwrap();
    assert_eq!(get_name.return_type, "string");
    assert!(!get_name.is_static);
    let create = parsed.methods.iter().find(|m| m.name == "create").unwrap();
    assert!(create.is_static);
}

#[test]
fn docblock_parse_type_alias_tag() {
    let doc = "/** @psalm-type MyAlias = string|int */";
    let parsed = DocblockParser::parse(doc);
    assert_eq!(parsed.type_aliases.len(), 1);
    assert_eq!(parsed.type_aliases[0].name, "MyAlias");
    assert_eq!(parsed.type_aliases[0].type_expr, "string|int");
}

#[test]
fn tests_parse_type_alias_tag() {
    let doc = "/** @psalm-type MyAlias = string|int */";
    let parsed = DocblockParser::parse(doc);
    assert_eq!(parsed.type_aliases.len(), 1);
    assert_eq!(parsed.type_aliases[0].name, "MyAlias");
    assert_eq!(parsed.type_aliases[0].type_expr, "string|int");
}

#[test]
fn docblock_parse_import_type_no_as() {
    let doc = "/** @psalm-import-type UserId from UserRepository */";
    let parsed = DocblockParser::parse(doc);
    assert_eq!(parsed.import_types.len(), 1);
    assert_eq!(parsed.import_types[0].original, "UserId");
    assert_eq!(parsed.import_types[0].local, "UserId");
    assert_eq!(parsed.import_types[0].from_class, "UserRepository");
}

#[test]
fn tests_parse_import_type_no_as() {
    let doc = "/** @psalm-import-type UserId from UserRepository */";
    let parsed = DocblockParser::parse(doc);
    assert_eq!(parsed.import_types.len(), 1);
    assert_eq!(parsed.import_types[0].original, "UserId");
    assert_eq!(parsed.import_types[0].local, "UserId");
    assert_eq!(parsed.import_types[0].from_class, "UserRepository");
}

#[test]
fn docblock_parse_import_type_with_as() {
    let doc = "/** @psalm-import-type UserId as LocalId from UserRepository */";
    let parsed = DocblockParser::parse(doc);
    assert_eq!(parsed.import_types.len(), 1);
    assert_eq!(parsed.import_types[0].original, "UserId");
    assert_eq!(parsed.import_types[0].local, "LocalId");
    assert_eq!(parsed.import_types[0].from_class, "UserRepository");
}

#[test]
fn tests_parse_import_type_with_as() {
    let doc = "/** @psalm-import-type UserId as LocalId from UserRepository */";
    let parsed = DocblockParser::parse(doc);
    assert_eq!(parsed.import_types.len(), 1);
    assert_eq!(parsed.import_types[0].original, "UserId");
    assert_eq!(parsed.import_types[0].local, "LocalId");
    assert_eq!(parsed.import_types[0].from_class, "UserRepository");
}

#[test]
fn docblock_parse_require_extends() {
    let doc = "/** @psalm-require-extends Model */";
    let parsed = DocblockParser::parse(doc);
    assert_eq!(parsed.require_extends, vec!["Model".to_string()]);
}

#[test]
fn tests_parse_require_extends() {
    let doc = "/** @psalm-require-extends Model */";
    let parsed = DocblockParser::parse(doc);
    assert_eq!(parsed.require_extends, vec!["Model".to_string()]);
}

#[test]
fn docblock_parse_require_implements() {
    let doc = "/** @psalm-require-implements Countable */";
    let parsed = DocblockParser::parse(doc);
    assert_eq!(parsed.require_implements, vec!["Countable".to_string()]);
}

#[test]
fn tests_parse_require_implements() {
    let doc = "/** @psalm-require-implements Countable */";
    let parsed = DocblockParser::parse(doc);
    assert_eq!(parsed.require_implements, vec!["Countable".to_string()]);
}

#[test]
fn docblock_validate_unclosed_generic_return() {
    let parsed = DocblockParser::parse("/** @return array< */");
    assert_eq!(parsed.invalid_annotations.len(), 1);
    assert!(
        parsed.invalid_annotations[0].contains("unclosed generic"),
        "got: {}",
        parsed.invalid_annotations[0]
    );
}

#[test]
fn tests_validate_unclosed_generic_return() {
    let parsed = DocblockParser::parse("/** @return array< */");
    assert_eq!(parsed.invalid_annotations.len(), 1);
    assert!(
        parsed.invalid_annotations[0].contains("unclosed generic"),
        "got: {}",
        parsed.invalid_annotations[0]
    );
}

#[test]
fn docblock_validate_variable_in_type_position_param() {
    let parsed = DocblockParser::parse("/** @param Foo|$invalid $x */");
    assert_eq!(parsed.invalid_annotations.len(), 1);
    assert!(
        parsed.invalid_annotations[0].contains("$invalid"),
        "got: {}",
        parsed.invalid_annotations[0]
    );
}

#[test]
fn tests_validate_variable_in_type_position_param() {
    let parsed = DocblockParser::parse("/** @param Foo|$invalid $x */");
    assert_eq!(parsed.invalid_annotations.len(), 1);
    assert!(
        parsed.invalid_annotations[0].contains("$invalid"),
        "got: {}",
        parsed.invalid_annotations[0]
    );
}

#[test]
fn docblock_validate_this_is_valid_in_type_position() {
    let parsed = DocblockParser::parse("/** @return $this */");
    assert!(
        parsed.invalid_annotations.is_empty(),
        "unexpected error: {:?}",
        parsed.invalid_annotations
    );
}

#[test]
fn tests_validate_this_is_valid_in_type_position() {
    let parsed = DocblockParser::parse("/** @return $this */");
    assert!(
        parsed.invalid_annotations.is_empty(),
        "unexpected error: {:?}",
        parsed.invalid_annotations
    );
}

#[test]
fn docblock_validate_unclosed_generic_var() {
    let parsed = DocblockParser::parse("/** @var array<string */");
    assert_eq!(parsed.invalid_annotations.len(), 1);
    assert!(parsed.invalid_annotations[0].contains("@var"));
}

#[test]
fn tests_validate_unclosed_generic_var() {
    let parsed = DocblockParser::parse("/** @var array<string */");
    assert_eq!(parsed.invalid_annotations.len(), 1);
    assert!(parsed.invalid_annotations[0].contains("@var"));
}

#[test]
fn docblock_validate_variable_in_template_bound() {
    let parsed = DocblockParser::parse("/** @template T of $invalid */");
    assert_eq!(parsed.invalid_annotations.len(), 1);
    assert!(parsed.invalid_annotations[0].contains("$invalid"));
}

#[test]
fn tests_validate_variable_in_template_bound() {
    let parsed = DocblockParser::parse("/** @template T of $invalid */");
    assert_eq!(parsed.invalid_annotations.len(), 1);
    assert!(parsed.invalid_annotations[0].contains("$invalid"));
}

#[test]
fn parse_method_tag_description_with_parens() {
    let doc = r#"/**
         * @method $this addDay() Add one day to the instance (using date interval).
         * @method $this subDays(int|float $value = 1) Sub days (the $value count passed in).
         */"#;
    let parsed = DocblockParser::parse(doc);
    let add_day = parsed.methods.iter().find(|m| m.name == "addDay").unwrap();
    assert_eq!(add_day.params.len(), 0, "addDay() must have zero params");
    let sub_days = parsed.methods.iter().find(|m| m.name == "subDays").unwrap();
    assert_eq!(sub_days.params.len(), 1);
    assert!(sub_days.params[0].is_optional);
}

#[test]
fn parse_template_single_line_does_not_over_read() {
    let doc = "/** @template T @param T $x @return T */";
    let parsed = DocblockParser::parse(doc);
    assert_eq!(parsed.templates.len(), 1);
    assert_eq!(parsed.templates[0].0, "T");
    assert!(parsed.templates[0].1.is_none(), "expected no bound");
}

#[test]
fn parse_template_multiline_with_bound_still_works() {
    let doc = r#"/**
         * @template T of Base
         */"#;
    let parsed = DocblockParser::parse(doc);
    assert_eq!(parsed.templates.len(), 1);
    assert_eq!(parsed.templates[0].0, "T");
    let bound = parsed.templates[0].1.as_ref().expect("expected a bound");
    assert_eq!(bound, "Base");
}

#[test]
fn parse_template_extends_alias() {
    for tag in ["template-extends", "phpstan-extends"] {
        let doc = format!("/** @{tag} Base<User> */");
        let parsed = DocblockParser::parse(&doc);
        let extends = parsed
            .extends
            .first()
            .cloned()
            .unwrap_or_else(|| panic!("@{tag} should populate extends"));
        assert_eq!(extends, "Base<User>", "@{tag} should produce a generic Base<User>");
        match parse_type(&extends, None) {
            Some(DocType::Named { fqcn, params }) => {
                assert_eq!(fqcn, "Base");
                assert!(!params.is_empty());
                assert!(matches!(&params[0], DocType::Named { fqcn, params } if fqcn == "User" && params.is_empty()));
            }
            _ => panic!("@{tag} should read as the class Base with type arguments"),
        }
    }
}

#[test]
fn parse_template_implements_alias() {
    for tag in ["template-implements", "phpstan-implements"] {
        let doc = format!("/** @{tag} Iter<User> */");
        let parsed = DocblockParser::parse(&doc);
        assert_eq!(parsed.implements.len(), 1, "@{tag} should populate implements");
        assert_eq!(parsed.implements[0], "Iter<User>", "@{tag} should produce a generic Iter<User>");
    }
}

#[test]
fn parse_param_line_description_with_dollar_var_ignored() {
    let doc = "/** @param bool $flag Whether the $option should be enabled */";
    let parsed = DocblockParser::parse(doc);
    assert_eq!(parsed.params.len(), 1, "should register exactly one param");
    let (name, ty) = &parsed.params[0];
    assert_eq!(name, "flag", "param name must be 'flag', not 'option'");
    assert_eq!(ty, "bool", "param type must be bool, got {ty}");
    assert!(matches!(parse_type(ty, None), Some(DocType::Keyword(TypeKeyword::Bool))));
}

#[test]
fn parse_param_line_callable_dollar_inside_parens_not_the_name() {
    let doc = "/** @param callable(int $a): void $callback The callback to invoke */";
    let parsed = DocblockParser::parse(doc);
    assert_eq!(parsed.params.len(), 1);
    let (name, _ty) = &parsed.params[0];
    assert_eq!(name, "callback", "param name must be 'callback', not 'a'");
}

#[test]
fn parse_param_line_byref_param_name_correct() {
    let doc = "/** @param string &$out The output buffer */";
    let parsed = DocblockParser::parse(doc);
    assert_eq!(parsed.params.len(), 1);
    let (name, ty) = &parsed.params[0];
    assert_eq!(name, "out");
    assert_eq!(ty, "string");
}

use mir_analyzer::docblock::int_mask::{
    expand_int_mask, expand_int_mask_members, resolve_int_mask_of, SelfIntConstants,
};

#[test]
fn int_mask_expands_to_every_combination() {
    assert_eq!(expand_int_mask("1, 2, 4"), Some(vec![0, 1, 2, 3, 4, 5, 6, 7]));
}

#[test]
fn int_mask_single_member() {
    assert_eq!(expand_int_mask("4"), Some(vec![0, 4]));
}

#[test]
fn int_mask_with_zero_member_deduplicates() {
    assert_eq!(expand_int_mask("0, 1"), Some(vec![0, 1]));
}

#[test]
fn int_mask_too_many_members_falls_back() {
    assert_eq!(expand_int_mask("1, 2, 4, 8, 16, 32, 64, 128, 256"), None);
}

#[test]
fn int_mask_class_constants_fall_back() {
    assert_eq!(expand_int_mask("SORT_ASC, SORT_DESC"), None);
}

#[test]
fn overlapping_flags_are_merged() {
    assert_eq!(expand_int_mask_members(&[3, 5]), Some(vec![0, 3, 5, 7]));
}

#[test]
fn negative_or_empty_members_do_not_expand() {
    assert_eq!(expand_int_mask_members(&[]), None);
    assert_eq!(expand_int_mask_members(&[1, -2]), None);
    assert_eq!(expand_int_mask_members(&[1, 2, 4, 8, 16, 32, 64, 128]).map(|v| v.len()), Some(256));
}

#[test]
fn expansion_holds_zero_and_each_member() {
    let members = [8, 1, 32];
    let v = expand_int_mask_members(&members).unwrap();
    assert!(v.contains(&0));
    for m in members {
        assert!(v.contains(&m));
    }
    assert!(v.windows(2).all(|w| w[0] < w[1]));
}

fn flags_class() -> SelfIntConstants {
    SelfIntConstants {
        fqcn: "App\\Flags".to_string(),
        constants: vec![
            ("FLAG_A".to_string(), 1),
            ("FLAG_B".to_string(), 2),
            ("OTHER".to_string(), 64),
            ("FLAG_C".to_string(), 2),
        ],
    }
}

#[test]
fn int_mask_of_self_resolves_matching_constants() {
    let c = flags_class();
    assert_eq!(resolve_int_mask_of("self::FLAG_*", Some(&c)), Some(vec![0, 1, 2, 3]));
    assert_eq!(resolve_int_mask_of(" Flags::* ", Some(&c)), Some(vec![0, 1, 2, 3, 64, 65, 66, 67]));
    assert_eq!(resolve_int_mask_of("\\App\\Flags::OTHER*", Some(&c)), None);
    assert_eq!(resolve_int_mask_of("App\\Flags::OTHER*", Some(&c)), Some(vec![0, 64]));
}

#[test]
fn int_mask_of_without_context_or_foreign_class_falls_back() {
    let c = flags_class();
    assert_eq!(resolve_int_mask_of("Foo::*", None), None);
    assert_eq!(resolve_int_mask_of("Other::FLAG_*", Some(&c)), None);
    assert_eq!(resolve_int_mask_of("self::FLAG_", Some(&c)), None);
    assert_eq!(resolve_int_mask_of("self::NONE_*", Some(&c)), None);
}

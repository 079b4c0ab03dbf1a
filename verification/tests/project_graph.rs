use mir_analyzer::pass1_cache::{Pass1Cache, Pass1Status};
use mir_analyzer::php_version::PhpVersion;
use mir_analyzer::project::{dead_code_issue_kinds, resolved_php_version, should_run_dead_code, walk_entry, WalkAction};
use mir_analyzer::reverse_deps::{reference_lookup, ReverseDeps};
use mir_analyzer::trait_constraints::trait_use_violations;

#[test]
fn dead_code_kinds_are_the_unused_member_kinds() {
    assert_eq!(dead_code_issue_kinds(), &["UnusedMethod", "UnusedProperty", "UnusedFunction"]);
}

#[test]
fn walk_skips_symlinks_and_tool_directories() {
    assert_eq!(walk_entry(true, true, Some("src"), None), WalkAction::Skip);
    assert_eq!(walk_entry(true, false, Some("a.php"), Some("php")), WalkAction::Skip);
    for name in ["vendor", ".git", "node_modules", ".cache", ".pnpm-store"] {
        assert_eq!(walk_entry(false, true, Some(name), None), WalkAction::Skip, "{name}");
    }
    assert_eq!(walk_entry(false, true, Some("src"), None), WalkAction::Descend);
    assert_eq!(walk_entry(false, true, None, None), WalkAction::Descend);
    assert_eq!(walk_entry(false, true, Some("Vendor"), None), WalkAction::Descend);
}

#[test]
fn walk_collects_php_files_only() {
    assert_eq!(walk_entry(false, false, Some("a.php"), Some("php")), WalkAction::Collect);
    assert_eq!(walk_entry(false, false, Some("a.PHP"), Some("PHP")), WalkAction::Skip);
    assert_eq!(walk_entry(false, false, Some("a.inc"), Some("inc")), WalkAction::Skip);
    assert_eq!(walk_entry(false, false, Some("Makefile"), None), WalkAction::Skip);
}

#[test]
fn reverse_deps_record_each_dependent_once() {
    let mut g = ReverseDeps::new();
    g.add_edge(Some("Base.php"), "Child.php");
    g.add_edge(Some("Base.php"), "Other.php");
    g.add_edge(Some("Base.php"), "Child.php");
    let deps = g.dependents("Base.php");
    assert_eq!(deps, vec!["Child.php".to_string(), "Other.php".to_string()]);
    assert!(g.dependents("Child.php").is_empty());
}

#[test]
fn reverse_deps_ignore_self_and_unknown_definitions() {
    let mut g = ReverseDeps::new();
    g.add_edge(Some("A.php"), "A.php");
    g.add_edge(None, "B.php");
    assert!(g.dependents("A.php").is_empty());
    assert!(g.dependents("B.php").is_empty());
    g.add_edge(Some("A.php"), "B.php");
    assert_eq!(g.dependents("A.php"), vec!["B.php".to_string()]);
}

#[test]
fn reference_keys_resolve_to_their_class() {
    assert_eq!(reference_lookup("App\\Foo::bar"), "App\\Foo");
    assert_eq!(reference_lookup("App\\Foo::bar::baz"), "App\\Foo");
    assert_eq!(reference_lookup("strlen"), "strlen");
    assert_eq!(reference_lookup(""), "");
}

#[test]
fn pass1_cache_hits_only_on_matching_hash() {
    let mut cache: Pass1Cache<u32> = Pass1Cache::new();
    assert!(!cache.needs_flush());
    assert_eq!(cache.get("a.php", "h1"), None);
    cache.put("a.php", "h1".to_string(), 7);
    assert!(cache.needs_flush());
    assert_eq!(cache.get("a.php", "h1"), Some(&7));
    assert_eq!(cache.get("a.php", "h2"), None);
    assert_eq!(cache.get("b.php", "h1"), None);
}

#[test]
fn pass1_cache_put_replaces_and_flush_clears_dirty() {
    let mut cache: Pass1Cache<&str> = Pass1Cache::new();
    cache.put("a.php", "h1".to_string(), "first");
    cache.put("b.php", "h9".to_string(), "other");
    cache.put("a.php", "h2".to_string(), "second");
    assert_eq!(cache.get("a.php", "h1"), None);
    assert_eq!(cache.get("a.php", "h2"), Some(&"second"));
    assert_eq!(cache.get("b.php", "h9"), Some(&"other"));
    assert_eq!(cache.entries().len(), 2);
    cache.mark_flushed();
    assert!(!cache.needs_flush());
    assert_eq!(cache.get("b.php", "h9"), Some(&"other"));
}

#[test]
fn pass1_status_carries_the_miss_hash() {
    let s = Pass1Status::Miss("abc".to_string());
    assert_eq!(s.clone(), Pass1Status::Miss("abc".to_string()));
    assert_ne!(s, Pass1Status::Hit);
}

#[test]
fn trait_requirements_report_unmet_entries() {
    let ancestors = vec!["App\\Model".to_string(), "Countable".to_string()];
    let v = trait_use_violations(
        "App\\User",
        &ancestors,
        "App\\Traits\\HasRoles",
        &vec!["App\\Model".to_string(), "App\\Base".to_string(), "App\\User".to_string()],
        &vec!["Countable".to_string(), "JsonSerializable".to_string(), "App\\User".to_string()],
    );
    let got: Vec<(String, String)> = v.into_iter().map(|x| (x.trait_name, x.reason)).collect();
    assert_eq!(
        got,
        vec![
            (
                "HasRoles".to_string(),
                "Class App\\User uses trait HasRoles but does not extend App\\Base".to_string()
            ),
            (
                "HasRoles".to_string(),
                "Class App\\User uses trait HasRoles but does not implement JsonSerializable".to_string()
            ),
            (
                "HasRoles".to_string(),
                "Class App\\User uses trait HasRoles but does not implement App\\User".to_string()
            ),
        ]
    );
    let none = trait_use_violations("A", &vec![], "T", &vec![], &vec![]);
    assert!(none.is_empty());
}

#[test]
fn dead_code_runs_unless_all_its_kinds_are_suppressed() {
    assert!(should_run_dead_code(&vec![]));
    assert!(should_run_dead_code(&vec!["UnusedMethod".to_string(), "UnusedProperty".to_string()]));
    assert!(!should_run_dead_code(&vec![
        "UnusedFunction".to_string(),
        "UnusedMethod".to_string(),
        "UnusedProperty".to_string(),
        "Other".to_string(),
    ]));
}

#[test]
fn php_version_defaults_to_latest() {
    assert_eq!(resolved_php_version(None), PhpVersion::latest());
    assert_eq!(resolved_php_version(Some(PhpVersion::new(7, 4))), PhpVersion::new(7, 4));
}

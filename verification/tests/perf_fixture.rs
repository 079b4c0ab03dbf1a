use mir_analyzer::perf_fixture::{detect_fixture_kind, join, marker_paths, PerfFixture, PerfFixtureKind};
use std::path::PathBuf;

#[test]
fn preset_paths_match_kind() {
    let laravel = PerfFixture::new(PerfFixtureKind::Laravel, "/tmp/laravel".to_string());
    assert_eq!(
        PathBuf::from(laravel.open_file()),
        PathBuf::from("/tmp/laravel/src/Illuminate/Auth/Events/Login.php")
    );
    assert_eq!(
        PathBuf::from(laravel.high_fanout_file()),
        PathBuf::from("/tmp/laravel/src/Illuminate/Database/Eloquent/Model.php")
    );

    let symfony = PerfFixture::new(PerfFixtureKind::Symfony, "/tmp/symfony".to_string());
    assert_eq!(
        PathBuf::from(symfony.open_file()),
        PathBuf::from("/tmp/symfony/src/Symfony/Component/HttpFoundation/Request.php")
    );
    assert_eq!(
        PathBuf::from(symfony.leaf_file()),
        PathBuf::from("/tmp/symfony/src/Symfony/Component/String/TruncateMode.php")
    );
}

#[test]
fn join_matches_path_join() {
    for (root, rel) in [("/tmp/x", "src"), ("/tmp/x/", "src"), ("", "vendor"), ("rel", "a/b.php")] {
        assert_eq!(PathBuf::from(join(root, rel)), PathBuf::from(root).join(rel));
    }
}

#[test]
fn laravel_markers_win_over_symfony_markers() {
    assert_eq!(detect_fixture_kind(true, true), Some(PerfFixtureKind::Laravel));
    assert_eq!(detect_fixture_kind(false, true), Some(PerfFixtureKind::Symfony));
    assert_eq!(detect_fixture_kind(false, false), None);
}

#[test]
fn marker_paths_name_the_detection_files() {
    assert_eq!(
        marker_paths(PerfFixtureKind::Laravel),
        &[
            "composer.json",
            "src/Illuminate/Auth/Events/Login.php",
            "src/Illuminate/Database/Eloquent/Model.php"
        ]
    );
    assert_eq!(marker_paths(PerfFixtureKind::Symfony)[2], "src/Symfony/Component/String/TruncateMode.php");
}

#[test]
fn preset_labels_and_targets() {
    let l = PerfFixture::new(PerfFixtureKind::Laravel, "/r".to_string());
    let s = PerfFixture::new(PerfFixtureKind::Symfony, "/r/".to_string());
    assert_eq!(l.kind(), PerfFixtureKind::Laravel);
    assert_eq!((l.id(), l.label()), ("laravel", "Laravel"));
    assert_eq!((s.id(), s.label()), ("symfony", "Symfony"));
    assert_eq!(l.root(), "/r");
    assert_eq!(l.src_root(), "/r/src");
    assert_eq!(s.vendor_root(), "/r/vendor");
    assert_eq!(l.open_file_label(), "Login.php");
    assert_eq!(s.open_symbol_probe(), "Request");
    assert_eq!(l.lazy_load_targets().len(), 4);
    assert_eq!(s.lazy_load_targets()[3], "Symfony\\Component\\String\\TruncateMode");
    assert_eq!(l.read_query_target_class(), "Illuminate\\Database\\Eloquent\\Model");
    assert_eq!(l.concurrent_target_class(), "Illuminate\\Auth\\Events\\Login");
    assert_eq!(s.open_file_closure_candidates()[2], "src/Symfony/Component/String/Slugger/AsciiSlugger.php");
    assert_eq!(s.leaf_file(), "/r/src/Symfony/Component/String/TruncateMode.php");
}

#[test]
fn full_corpus_needs_both_trees() {
    let f = PerfFixture::new(PerfFixtureKind::Laravel, "/fx".to_string());
    assert!(f.has_full_corpus(true, true));
    assert!(!f.has_full_corpus(true, false));
    assert!(!f.has_full_corpus(false, true));
}

/// Whether every marker file of `kind` is among the files written.
fn markers_written(written: &[&str], kind: PerfFixtureKind) -> bool {
    marker_paths(kind).iter().all(|m| written.contains(m))
}

#[test]
fn detects_minimal_laravel_fixture() {
    let written = [
        "composer.json",
        "src/Illuminate/Auth/Events/Login.php",
        "src/Illuminate/Database/Eloquent/Model.php",
    ];
    assert_eq!(
        detect_fixture_kind(
            markers_written(&written, PerfFixtureKind::Laravel),
            markers_written(&written, PerfFixtureKind::Symfony)
        ),
        Some(PerfFixtureKind::Laravel)
    );
}

#[test]
fn detects_minimal_symfony_fixture() {
    let written = [
        "composer.json",
        "src/Symfony/Component/HttpFoundation/Request.php",
        "src/Symfony/Component/String/TruncateMode.php",
    ];
    assert_eq!(
        detect_fixture_kind(
            markers_written(&written, PerfFixtureKind::Laravel),
            markers_written(&written, PerfFixtureKind::Symfony)
        ),
        Some(PerfFixtureKind::Symfony)
    );
}

#[test]
fn lazy_load_targets_are_distinct_qualified_classes() {
    for kind in [PerfFixtureKind::Laravel, PerfFixtureKind::Symfony] {
        let f = PerfFixture::new(kind, "/corpus".to_string());
        let t = f.lazy_load_targets();
        assert_eq!(t.len(), 4);
        for (i, a) in t.iter().enumerate() {
            assert!(a.contains('\\') && !a.starts_with('\\'));
            for b in &t[i + 1..] {
                assert_ne!(a, b);
            }
        }
        if kind == PerfFixtureKind::Laravel {
            assert!(t.contains(&f.read_query_target_class()));
        }
    }
}

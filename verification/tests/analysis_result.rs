use mir_analyzer::analysis_result::{apply_issue_suppressions, patch_issue_locations, AnalysisResult, IssueRecord, Severity, SymbolSpan};

fn issue(severity: Severity, file: &str) -> IssueRecord {
    IssueRecord { kind: "UndefinedClass".to_string(), severity, file: file.to_string() }
}

fn kinded(kind: &str) -> IssueRecord {
    IssueRecord { kind: kind.to_string(), severity: Severity::Error, file: "a.php".to_string() }
}

fn sym(file: &str, start: u32, end: u32) -> SymbolSpan {
    SymbolSpan { file: file.to_string(), start, end }
}

fn sample() -> AnalysisResult {
    AnalysisResult {
        issues: vec![
            issue(Severity::Error, "a.php"),
            issue(Severity::Warning, "b.php"),
            issue(Severity::Error, "b.php"),
            issue(Severity::Error, "a.php"),
        ],
        symbols: vec![sym("a.php", 0, 50), sym("b.php", 10, 20), sym("a.php", 10, 20), sym("a.php", 12, 14)],
    }
}

#[test]
fn counts_by_severity() {
    let r = sample();
    assert_eq!(r.error_count(), 3);
    assert_eq!(r.warning_count(), 1);
    assert_eq!(r.total_issue_count(), 4);
    assert_eq!(r.count_by_severity(), vec![(Severity::Warning, 1), (Severity::Error, 3)]);
    let empty = AnalysisResult { issues: vec![], symbols: vec![] };
    assert!(empty.count_by_severity().is_empty());
    assert_eq!(empty.error_count(), 0);
}

#[test]
fn issues_grouped_by_file() {
    let r = sample();
    assert_eq!(
        r.issues_by_file(),
        vec![("a.php".to_string(), vec![0, 3]), ("b.php".to_string(), vec![1, 2])]
    );
}

#[test]
fn symbol_at_finds_the_innermost_span() {
    let r = sample();
    assert_eq!(r.symbol_at("a.php", 13), Some(3));
    assert_eq!(r.symbol_at("a.php", 11), Some(2));
    assert_eq!(r.symbol_at("a.php", 40), Some(0));
    assert_eq!(r.symbol_at("a.php", 50), None);
    assert_eq!(r.symbol_at("b.php", 15), Some(1));
    assert_eq!(r.symbol_at("c.php", 15), None);
}

#[test]
fn suppressed_kinds_are_dropped_in_order() {
    let mut issues = vec![kinded("UnusedMethod"), kinded("UndefinedClass"), kinded("MissingThrowsDocblock"), kinded("UndefinedClass")];
    apply_issue_suppressions(&mut issues, &vec!["UnusedMethod".to_string(), "MissingThrowsDocblock".to_string()]);
    let kinds: Vec<String> = issues.iter().map(|i| i.kind.clone()).collect();
    assert_eq!(kinds, vec!["UndefinedClass".to_string(), "UndefinedClass".to_string()]);

    let mut untouched = vec![kinded("UnusedMethod")];
    apply_issue_suppressions(&mut untouched, &vec![]);
    assert_eq!(untouched.len(), 1);
}

#[test]
fn cached_issues_are_moved_to_the_new_path() {
    let issues = vec![issue(Severity::Warning, "old.php"), issue(Severity::Error, "new.php")];
    let patched = patch_issue_locations(&issues, "new.php");
    assert_eq!(patched.len(), 2);
    assert!(patched.iter().all(|i| i.file == "new.php"));
    assert_eq!(patched[0].severity, Severity::Warning);
    assert_eq!(patched[1].severity, Severity::Error);
    assert_eq!(patched[0].kind, "UndefinedClass");
    assert!(patch_issue_locations(&[], "x.php").is_empty());
}

#[test]
fn equally_short_spans_give_the_first() {
    let r = AnalysisResult {
        issues: vec![],
        symbols: vec![sym("a.php", 0, 50), sym("a.php", 10, 20), sym("a.php", 15, 25)],
    };
    assert_eq!(r.symbol_at("a.php", 17), Some(1));
}

#[test]
fn files_come_in_order_of_their_first_issue() {
    let r = AnalysisResult {
        issues: vec![issue(Severity::Info, "c.php"), issue(Severity::Error, "a.php"), issue(Severity::Error, "c.php")],
        symbols: vec![],
    };
    let groups = r.issues_by_file();
    assert_eq!(groups.len(), 2);
    assert_eq!(groups[0].0, "c.php");
    assert_eq!(groups[0].1, vec![0, 2]);
    assert_eq!(groups[1].0, "a.php");
    assert_eq!(groups[1].1, vec![1]);
}

//! Project-wide decisions of the analyzer: which issue kinds belong to the
//! dead-code pass, which paths the file walk takes, and the graph of files
//! that depend on each other.
use vstd::prelude::*;
use crate::text::chars_of;
use crate::php_version::{latest_version, PhpVersion};

verus! {

broadcast use vstd::string::group_string_axioms;

/// The issue kinds that only the dead-code pass reports.
pub fn dead_code_issue_kinds() -> (r: &'static [&'static str])
    ensures
        r@.len() == 3,
        r@[0]@ == "UnusedMethod"@,
        r@[1]@ == "UnusedProperty"@,
        r@[2]@ == "UnusedFunction"@,
{
    &["UnusedMethod", "UnusedProperty", "UnusedFunction"]
}

/// What the file walk does with one directory entry.
#[derive(Debug, Clone, Copy, PartialEq, Eq, Structural)]
pub enum WalkAction {
    /// Leave the entry out.
    Skip,
    /// Walk into the directory.
    Descend,
    /// Take the file.
    Collect,
}

/// Directories that never hold project sources.
pub open spec fn skipped_dir(name: Seq<char>) -> bool {
    ||| name == "vendor"@
    ||| name == ".git"@
    ||| name == "node_modules"@
    ||| name == ".cache"@
    ||| name == ".pnpm-store"@
}

/// The walk's rule: symlinks are never followed, a directory is entered
/// unless its name is one of the skipped ones (an unreadable name counts as
/// empty), and a file is taken when its extension is `php`.
pub open spec fn walk_action(
    is_symlink: bool,
    is_dir: bool,
    name: Option<Seq<char>>,
    extension: Option<Seq<char>>,
) -> WalkAction {
    if is_symlink {
        WalkAction::Skip
    } else if is_dir {
        if skipped_dir(
            match name {
                Some(n) => n,
                None => Seq::empty(),
            },
        ) {
            WalkAction::Skip
        } else {
            WalkAction::Descend
        }
    } else if extension == Some("php"@) {
        WalkAction::Collect
    } else {
        WalkAction::Skip
    }
}

pub open spec fn str_opt_view(o: Option<&str>) -> Option<Seq<char>> {
    match o {
        Some(s) => Some(s@),
        None => None,
    }
}

fn is_word(s: &str, word: &str) -> (r: bool)
    ensures
        r == (s@ == word@),
{
    let a = chars_of(s);
    let b = chars_of(word);
    crate::docblock::validate::chars_eq(a.as_slice(), b.as_slice())
}

/// Decides what the file walk does with a directory entry, from what the
/// file system says of it: whether it is a symlink, whether it is a
/// directory, its file name and its extension (where they are valid UTF-8).
pub fn walk_entry(
    is_symlink: bool,
    is_dir: bool,
    name: Option<&str>,
    extension: Option<&str>,
) -> (r: WalkAction)
    ensures
        r == walk_action(is_symlink, is_dir, str_opt_view(name), str_opt_view(extension)),
{
    proof {
        reveal_strlit("vendor");
        reveal_strlit(".git");
        reveal_strlit("node_modules");
        reveal_strlit(".cache");
        reveal_strlit(".pnpm-store");
        reveal_strlit("php");
        reveal_strlit("");
        assert(""@ =~= Seq::<char>::empty());
    }
    if is_symlink {
        return WalkAction::Skip;
    }
    if is_dir {
        let n = match name {
            Some(n) => n,
            None => "",
        };
        if is_word(n, "vendor") || is_word(n, ".git") || is_word(n, "node_modules") || is_word(
            n,
            ".cache",
        ) || is_word(n, ".pnpm-store") {
            return WalkAction::Skip;
        }
        return WalkAction::Descend;
    }
    match extension {
        Some(e) => {
            if is_word(e, "php") {
                WalkAction::Collect
            } else {
                WalkAction::Skip
            }
        },
        None => WalkAction::Skip,
    }
}

pub open spec fn dead_code_kinds() -> Seq<Seq<char>> {
    seq!["UnusedMethod"@, "UnusedProperty"@, "UnusedFunction"@]
}

/// The dead-code pass is worth running: some kind it reports is not
/// suppressed.
pub open spec fn dead_code_wanted(suppressed: Seq<Seq<char>>) -> bool {
    exists|i: int| 0 <= i < 3 && !suppressed.contains(#[trigger] dead_code_kinds()[i])
}

fn is_listed(names: &Vec<String>, name: &str) -> (r: bool)
    ensures
        r == names@.map_values(|s: String| s@).contains(name@),
{
    let ghost nv = names@.map_values(|s: String| s@);
    let a = chars_of(name);
    let mut i: usize = 0;
    while i < names.len()
        invariant
            i <= names@.len(),
            nv == names@.map_values(|s: String| s@),
            a@ == name@,
            forall|k: int| 0 <= k < i ==> nv[k] != name@,
        decreases names.len() - i,
    {
        let b = chars_of(names[i].as_str());
        if crate::docblock::validate::chars_eq(a.as_slice(), b.as_slice()) {
            assert(nv[i as int] == name@);
            return true;
        }
        i = i + 1;
    }
    false
}

/// Whether the dead-code pass has anything to report once the issue kinds
/// in `suppressed_issue_kinds` are dropped.
pub fn should_run_dead_code(suppressed_issue_kinds: &Vec<String>) -> (r: bool)
    ensures
        r == dead_code_wanted(suppressed_issue_kinds@.map_values(|s: String| s@)),
{
    let kinds = dead_code_issue_kinds();
    let ghost sv = suppressed_issue_kinds@.map_values(|s: String| s@);
    let mut i: usize = 0;
    while i < kinds.len()
        invariant
            i <= 3,
            kinds@.len() == 3,
            kinds@[0]@ == dead_code_kinds()[0],
            kinds@[1]@ == dead_code_kinds()[1],
            kinds@[2]@ == dead_code_kinds()[2],
            sv == suppressed_issue_kinds@.map_values(|s: String| s@),
            forall|k: int| 0 <= k < i ==> sv.contains(#[trigger] dead_code_kinds()[k]),
        decreases kinds.len() - i,
    {
        if !is_listed(suppressed_issue_kinds, kinds[i]) {
            return true;
        }
        i = i + 1;
    }
    false
}

/// The PHP version analysis runs for: the configured one, else the latest.
pub fn resolved_php_version(php_version: Option<PhpVersion>) -> (r: PhpVersion)
    ensures
        r@ == match php_version {
            Some(v) => v@,
            None => latest_version(),
        },
{
    match php_version {
        Some(v) => v,
        None => PhpVersion::latest(),
    }
}

} // verus!

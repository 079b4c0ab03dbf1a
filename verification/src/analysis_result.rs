//! What an analysis run found, as the queries over it read it: each issue's
//! kind, severity and file, and each resolved symbol's file and byte span.
use vstd::prelude::*;
use crate::text::chars_of;

verus! {

broadcast use vstd::string::group_string_axioms;

/// How serious an issue is, in increasing order.
#[derive(Debug, Clone, Copy, PartialEq, Eq, Structural)]
pub enum Severity {
    Info,
    Warning,
    Error,
}

/// An issue's kind name, its severity and the file it was found in.
pub struct IssueRecord {
    pub kind: String,
    pub severity: Severity,
    pub file: String,
}

/// A resolved symbol: the file and the byte span `[start, end)` it covers.
pub struct SymbolSpan {
    pub file: String,
    pub start: u32,
    pub end: u32,
}

pub struct AnalysisResult {
    pub issues: Vec<IssueRecord>,
    pub symbols: Vec<SymbolSpan>,
}

/// How many of `s` have severity `sev`.
pub open spec fn count_of(s: Seq<IssueRecord>, sev: Severity) -> nat
    decreases s.len(),
{
    if s.len() == 0 {
        0
    } else {
        count_of(s.drop_last(), sev) + if s.last().severity == sev {
            1nat
        } else {
            0nat
        }
    }
}

/// `(severity, count)` for each severity that occurs, in severity order.
pub open spec fn severity_counts(s: Seq<IssueRecord>) -> Seq<(Severity, nat)> {
    let info = if count_of(s, Severity::Info) > 0 {
        seq![(Severity::Info, count_of(s, Severity::Info))]
    } else {
        Seq::empty()
    };
    let warning = if count_of(s, Severity::Warning) > 0 {
        seq![(Severity::Warning, count_of(s, Severity::Warning))]
    } else {
        Seq::empty()
    };
    let error = if count_of(s, Severity::Error) > 0 {
        seq![(Severity::Error, count_of(s, Severity::Error))]
    } else {
        Seq::empty()
    };
    info + warning + error
}

pub proof fn lemma_count_bounded(s: Seq<IssueRecord>, sev: Severity)
    ensures
        count_of(s, sev) <= s.len(),
    decreases s.len(),
{
    if s.len() > 0 {
        lemma_count_bounded(s.drop_last(), sev);
    }
}

/// The symbol at index `i` is in `file` and its span holds `offset`.
pub open spec fn covers(syms: Seq<SymbolSpan>, i: int, file: Seq<char>, offset: u32) -> bool {
    &&& 0 <= i < syms.len()
    &&& syms[i].file@ == file
    &&& syms[i].start <= offset < syms[i].end
}

pub open spec fn span_len(s: SymbolSpan) -> int {
    s.end - s.start
}

fn find_file(out: &Vec<(String, Vec<usize>)>, f: &[char]) -> (r: Option<usize>)
    ensures
        match r {
            Some(i) => i < out@.len() && out@[i as int].0@ == f@,
            None => forall|p: int| 0 <= p < out@.len() ==> out@[p].0@ != f@,
        },
{
    let mut i: usize = 0;
    while i < out.len()
        invariant
            i <= out@.len(),
            forall|p: int| 0 <= p < i ==> out@[p].0@ != f@,
        decreases out.len() - i,
    {
        let g = chars_of(out[i].0.as_str());
        if crate::docblock::validate::chars_eq(f, g.as_slice()) {
            return Some(i);
        }
        i = i + 1;
    }
    None
}

impl AnalysisResult {
    fn count(&self, sev: Severity) -> (r: usize)
        ensures
            r == count_of(self.issues@, sev),
    {
        let mut n: usize = 0;
        let mut i: usize = 0;
        while i < self.issues.len()
            invariant
                i <= self.issues@.len(),
                n == count_of(self.issues@.take(i as int), sev),
            decreases self.issues.len() - i,
        {
            proof {
                assert(self.issues@.take(i + 1).drop_last() =~= self.issues@.take(i as int));
                lemma_count_bounded(self.issues@.take(i as int), sev);
            }
            if self.issues[i].severity == sev {
                n = n + 1;
            }
            i = i + 1;
        }
        assert(self.issues@.take(self.issues@.len() as int) =~= self.issues@);
        n
    }

    /// Number of issues of severity `Error`.
    pub fn error_count(&self) -> (r: usize)
        ensures
            r == count_of(self.issues@, Severity::Error),
    {
        self.count(Severity::Error)
    }

    /// Number of issues of severity `Warning`.
    pub fn warning_count(&self) -> (r: usize)
        ensures
            r == count_of(self.issues@, Severity::Warning),
    {
        self.count(Severity::Warning)
    }

    /// Total number of issues across all severities and files.
    pub fn total_issue_count(&self) -> (r: usize)
        ensures
            r == self.issues@.len(),
    {
        self.issues.len()
    }

    /// `(severity, count)` for each severity that occurs, in severity order
    /// (info, warning, error).
    pub fn count_by_severity(&self) -> (r: Vec<(Severity, usize)>)
        ensures
            r@.map_values(|p: (Severity, usize)| (p.0, p.1 as nat)) == severity_counts(self.issues@),
    {
        let mut out: Vec<(Severity, usize)> = Vec::new();
        let info = self.count(Severity::Info);
        let warning = self.count(Severity::Warning);
        let error = self.count(Severity::Error);
        if info > 0 {
            out.push((Severity::Info, info));
        }
        if warning > 0 {
            out.push((Severity::Warning, warning));
        }
        if error > 0 {
            out.push((Severity::Error, error));
        }
        assert(out@.map_values(|p: (Severity, usize)| (p.0, p.1 as nat)) =~= severity_counts(self.issues@));
        out
    }

    /// The indices of the issues found in each file, files in order of
    /// their first issue.
    pub fn issues_by_file(&self) -> (r: Vec<(String, Vec<usize>)>)
        ensures
            forall|i: int, j: int| 0 <= i < j < r@.len() ==> r@[i].0@ != r@[j].0@,
            forall|i: int| 0 <= i < r@.len() ==> (#[trigger] r@[i]).1@.len() > 0,
            forall|i: int, j: int| 0 <= i < j < r@.len() ==> (#[trigger] r@[i]).1@[0] < (#[trigger] r@[j]).1@[0],
            forall|k: int|
                0 <= k < self.issues@.len() ==> exists|i: int|
                    0 <= i < r@.len() && r@[i].0@ == (#[trigger] self.issues@[k]).file@ && r@[i].1@.contains(
                        k as usize,
                    ),
            forall|i: int, m: int|
                0 <= i < r@.len() && 0 <= m < r@[i].1@.len() ==> #[trigger] r@[i].1@[m] < self.issues@.len()
                    && self.issues@[r@[i].1@[m] as int].file@ == r@[i].0@,
            forall|i: int, m: int, n: int|
                0 <= i < r@.len() && 0 <= m < n < r@[i].1@.len() ==> #[trigger] r@[i].1@[m] < #[trigger] r@[i].1@[n],
    {
        let mut out: Vec<(String, Vec<usize>)> = Vec::new();
        let mut k: usize = 0;
        while k < self.issues.len()
            invariant
                k <= self.issues@.len(),
                forall|i: int, j: int| 0 <= i < j < out@.len() ==> out@[i].0@ != out@[j].0@,
                forall|i: int| 0 <= i < out@.len() ==> (#[trigger] out@[i]).1@.len() > 0,
                forall|i: int, j: int| 0 <= i < j < out@.len() ==> (#[trigger] out@[i]).1@[0] < (#[trigger] out@[j]).1@[0],
                forall|q: int|
                    0 <= q < k ==> exists|i: int|
                        0 <= i < out@.len() && out@[i].0@ == (#[trigger] self.issues@[q]).file@ && out@[i].1@.contains(
                            q as usize,
                        ),
                forall|i: int, m: int|
                    0 <= i < out@.len() && 0 <= m < out@[i].1@.len() ==> #[trigger] out@[i].1@[m] < k
                        && self.issues@[out@[i].1@[m] as int].file@ == out@[i].0@,
                forall|i: int, m: int, n: int|
                    0 <= i < out@.len() && 0 <= m < n < out@[i].1@.len() ==> #[trigger] out@[i].1@[m]
                        < #[trigger] out@[i].1@[n],
            decreases self.issues.len() - k,
        {
            let f = chars_of(self.issues[k].file.as_str());
            let found = find_file(&out, f.as_slice());
            let ghost before = out@;
            match found {
                Some(i) => {
                    let mut list = Vec::new();
                    std::mem::swap(&mut list, &mut out[i].1);
                    let ghost l0 = list@;
                    list.push(k);
                    std::mem::swap(&mut list, &mut out[i].1);
                    proof {
                        assert(out@[i as int].1@ == l0.push(k));
                        assert forall|p: int| 0 <= p < out@.len() && p != i implies out@[p] == before[p] by {}
                        assert(out@[i as int].1@[0] == before[i as int].1@[0]);
                        assert forall|q: int| 0 <= q <= k implies exists|j: int|
                            0 <= j < out@.len() && out@[j].0@ == (#[trigger] self.issues@[q]).file@ && out@[j].1@.contains(
                                q as usize,
                            ) by {
                            if q == k {
                                assert(out@[i as int].1@[l0.len() as int] == k);
                            } else {
                                let j = choose|j: int|
                                    0 <= j < before.len() && before[j].0@ == self.issues@[q].file@ && before[j].1@.contains(
                                        q as usize,
                                    );
                                let m = choose|m: int| 0 <= m < before[j].1@.len() && before[j].1@[m] == q as usize;
                                if j == i {
                                    assert(out@[j].1@[m] == q as usize);
                                } else {
                                    assert(out@[j] == before[j]);
                                }
                            }
                        }
                    }
                },
                None => {
                    let mut list: Vec<usize> = Vec::new();
                    list.push(k);
                    let name = String::from_str(self.issues[k].file.as_str());
                    out.push((name, list));
                    proof {
                        let n = before.len() as int;
                        assert(out@[n].1@ == seq![k]);
                        assert forall|p: int| 0 <= p < n implies out@[p] == before[p] by {}
                        assert forall|p: int| 0 <= p < n implies (#[trigger] out@[p]).1@[0] < k by {
                            assert(before[p].1@[0] < k);
                        }
                        assert forall|q: int| 0 <= q <= k implies exists|j: int|
                            0 <= j < out@.len() && out@[j].0@ == (#[trigger] self.issues@[q]).file@ && out@[j].1@.contains(
                                q as usize,
                            ) by {
                            if q == k {
                                assert(out@[n].1@[0] == k);
                            } else {
                                let j = choose|j: int|
                                    0 <= j < before.len() && before[j].0@ == self.issues@[q].file@ && before[j].1@.contains(
                                        q as usize,
                                    );
                                assert(out@[j] == before[j]);
                            }
                        }
                    }
                },
            }
            k = k + 1;
        }
        out
    }

    /// The innermost resolved symbol in `file` whose span holds
    /// `byte_offset` (an index into `symbols`), or `None` when there is none.
    /// Among equally short spans the first is given.
    pub fn symbol_at(&self, file: &str, byte_offset: u32) -> (r: Option<usize>)
        ensures
            match r {
                Some(i) => covers(self.symbols@, i as int, file@, byte_offset) && (forall|j: int|
                    covers(self.symbols@, j, file@, byte_offset) ==> span_len(self.symbols@[i as int])
                        <= span_len(#[trigger] self.symbols@[j])) && (forall|j: int|
                    0 <= j < i && covers(self.symbols@, j, file@, byte_offset) ==> span_len(self.symbols@[i as int])
                        < span_len(#[trigger] self.symbols@[j])),
                None => forall|j: int| !covers(self.symbols@, j, file@, byte_offset),
            },
    {
        let f = chars_of(file);
        let mut best: Option<usize> = None;
        let mut i: usize = 0;
        while i < self.symbols.len()
            invariant
                i <= self.symbols@.len(),
                f@ == file@,
                match best {
                    Some(b) => b < i && covers(self.symbols@, b as int, file@, byte_offset) && (forall|j: int|
                        0 <= j < i && covers(self.symbols@, j, file@, byte_offset) ==> span_len(
                            self.symbols@[b as int],
                        ) <= span_len(#[trigger] self.symbols@[j])) && (forall|j: int|
                        0 <= j < b && covers(self.symbols@, j, file@, byte_offset) ==> span_len(
                            self.symbols@[b as int],
                        ) < span_len(#[trigger] self.symbols@[j])),
                    None => forall|j: int| 0 <= j < i ==> !covers(self.symbols@, j, file@, byte_offset),
                },
            decreases self.symbols.len() - i,
        {
            let s = &self.symbols[i];
            let g = chars_of(s.file.as_str());
            if s.start <= byte_offset && byte_offset < s.end && crate::docblock::validate::chars_eq(
                f.as_slice(),
                g.as_slice(),
            ) {
                match best {
                    Some(b) => {
                        let cur = &self.symbols[b];
                        if s.end - s.start < cur.end - cur.start {
                            best = Some(i);
                        }
                    },
                    None => {
                        best = Some(i);
                    },
                }
            }
            i = i + 1;
        }
        best
    }
}

/// The issues as found in `path`: each keeps its kind and severity, and its
/// file becomes `path` (issues cached under another path of the same
/// content are reported where they are now).
pub fn patch_issue_locations(issues: &[IssueRecord], path: &str) -> (r: Vec<IssueRecord>)
    ensures
        r@.len() == issues@.len(),
        forall|i: int|
            0 <= i < r@.len() ==> (#[trigger] r@[i]).kind@ == issues@[i].kind@ && r@[i].severity
                == issues@[i].severity && r@[i].file@ == path@,
{
    let mut out: Vec<IssueRecord> = Vec::new();
    let mut i: usize = 0;
    while i < issues.len()
        invariant
            i <= issues@.len(),
            out@.len() == i,
            forall|k: int|
                0 <= k < i ==> (#[trigger] out@[k]).kind@ == issues@[k].kind@ && out@[k].severity
                    == issues@[k].severity && out@[k].file@ == path@,
        decreases issues.len() - i,
    {
        let issue = &issues[i];
        out.push(
            IssueRecord {
                kind: String::from_str(issue.kind.as_str()),
                severity: issue.severity,
                file: String::from_str(path),
            },
        );
        i = i + 1;
    }
    out
}

/// The issues whose kind is not among `suppressed`, in order.
pub open spec fn unsuppressed(issues: Seq<IssueRecord>, suppressed: Seq<Seq<char>>) -> Seq<IssueRecord>
    decreases issues.len(),
{
    if issues.len() == 0 {
        Seq::empty()
    } else {
        let rest = unsuppressed(issues.drop_last(), suppressed);
        if suppressed.contains(issues.last().kind@) {
            rest
        } else {
            rest.push(issues.last())
        }
    }
}

pub open spec fn names_of(v: Seq<String>) -> Seq<Seq<char>> {
    v.map_values(|s: String| s@)
}

fn listed(names: &Vec<String>, name: &String) -> (r: bool)
    ensures
        r == names_of(names@).contains(name@),
{
    let ghost nv = names_of(names@);
    let a = chars_of(name.as_str());
    let mut i: usize = 0;
    while i < names.len()
        invariant
            i <= names@.len(),
            nv == names_of(names@),
            a@ == name@,
            forall|k: int| 0 <= k < i ==> nv[k] != name@,
        decreases names.len() - i,
    {
        let b = chars_of(names[i].as_str());
        if crate::docblock::validate::chars_eq(a.as_slice(), b.as_slice()) {
            assert(nv[i as int] == name@);
            return true;
        }
        i = i + 1;
    }
    false
}

/// Drops the issues whose kind is among `suppressed_issue_kinds`, keeping
/// the order of the rest.
pub fn apply_issue_suppressions(issues: &mut Vec<IssueRecord>, suppressed_issue_kinds: &Vec<String>)
    ensures
        final(issues)@ == unsuppressed(old(issues)@, names_of(suppressed_issue_kinds@)),
{
    if suppressed_issue_kinds.len() == 0 {
        proof {
            lemma_nothing_suppressed(issues@, names_of(suppressed_issue_kinds@));
        }
        return;
    }
    let ghost sv = names_of(suppressed_issue_kinds@);
    let ghost all = issues@;
    let ghost mut j: int = 0;
    let mut i: usize = 0;
    assert(all.take(0) =~= Seq::<IssueRecord>::empty());
    assert(all.skip(0) =~= all);
    while i < issues.len()
        invariant
            0 <= j <= all.len(),
            sv == names_of(suppressed_issue_kinds@),
            issues@ == unsuppressed(all.take(j), sv) + all.skip(j),
            i == unsuppressed(all.take(j), sv).len(),
        decreases issues.len() - i,
    {
        let ghost before = issues@;
        let ghost kept = unsuppressed(all.take(j), sv);
        assert(j < all.len());
        assert(before[i as int] == all[j]);
        assert(all.take(j + 1).drop_last() =~= all.take(j));
        assert(all.take(j + 1).last() == all[j]);
        if listed(suppressed_issue_kinds, &issues[i].kind) {
            issues.remove(i);
            proof {
                assert(issues@ =~= kept + all.skip(j + 1));
            }
        } else {
            proof {
                assert(before =~= kept.push(all[j]) + all.skip(j + 1));
            }
            i = i + 1;
        }
        proof {
            j = j + 1;
        }
    }
    proof {
        assert(all.skip(j).len() == 0);
        assert(j == all.len());
        assert(all.take(j) =~= all);
        assert(issues@ =~= unsuppressed(all, sv));
    }
}

proof fn lemma_nothing_suppressed(issues: Seq<IssueRecord>, suppressed: Seq<Seq<char>>)
    requires
        suppressed.len() == 0,
    ensures
        unsuppressed(issues, suppressed) == issues,
    decreases issues.len(),
{
    if issues.len() > 0 {
        lemma_nothing_suppressed(issues.drop_last(), suppressed);
        assert(issues.drop_last().push(issues.last()) =~= issues);
    }
}

/// No issue of a suppressed kind survives suppression, every other issue
/// does, and suppressing again changes nothing.
pub proof fn lemma_suppression_exact(issues: Seq<IssueRecord>, suppressed: Seq<Seq<char>>)
    ensures
        forall|k: int|
            0 <= k < unsuppressed(issues, suppressed).len() ==> !suppressed.contains(
                (#[trigger] unsuppressed(issues, suppressed)[k]).kind@,
            ),
        forall|k: int|
            0 <= k < issues.len() && !suppressed.contains((#[trigger] issues[k]).kind@) ==> unsuppressed(
                issues,
                suppressed,
            ).contains(issues[k]),
        unsuppressed(unsuppressed(issues, suppressed), suppressed) == unsuppressed(issues, suppressed),
    decreases issues.len(),
{
    if issues.len() > 0 {
        let init = issues.drop_last();
        lemma_suppression_exact(init, suppressed);
        let rest = unsuppressed(init, suppressed);
        let u = unsuppressed(issues, suppressed);
        assert forall|k: int| 0 <= k < issues.len() && !suppressed.contains((#[trigger] issues[k]).kind@) implies u.contains(
            issues[k],
        ) by {
            if k < init.len() {
                assert(init[k] == issues[k]);
                let m = choose|m: int| 0 <= m < rest.len() && rest[m] == init[k];
                assert(u[m] == issues[k]);
            } else {
                assert(u[u.len() - 1] == issues[k]);
            }
        }
        if !suppressed.contains(issues.last().kind@) {
            assert(u.drop_last() =~= rest);
            assert(unsuppressed(u, suppressed) =~= u);
        }
    }
}

} // verus!

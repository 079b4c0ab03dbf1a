//! Benchmark corpus presets: which checked-out framework a performance run
//! targets, and the files and symbols each preset exercises.
use vstd::prelude::*;
use crate::text::{chars_of, string_from_chars};

verus! {

broadcast use vstd::string::group_string_axioms;

#[derive(Debug, Clone, Copy, PartialEq, Eq, Structural)]
pub enum PerfFixtureKind {
    Laravel,
    Symfony,
}

/// A detected benchmark corpus: its kind and the directory it lives in.
#[derive(Debug, Clone)]
pub struct PerfFixture {
    kind: PerfFixtureKind,
    root: String,
}

/// `root` joined with the relative path `rel`, as `Path::join` does on Unix:
/// a `/` is inserted unless `root` is empty or already ends in one.
pub open spec fn join_path(root: Seq<char>, rel: Seq<char>) -> Seq<char> {
    if root.len() == 0 || root.last() == '/' {
        root + rel
    } else {
        root.push('/') + rel
    }
}

/// Picks the corpus kind from which marker sets were found on disk; a
/// Laravel layout wins when both are present.
pub open spec fn kind_from_markers(laravel: bool, symfony: bool) -> Option<PerfFixtureKind> {
    if laravel {
        Some(PerfFixtureKind::Laravel)
    } else if symfony {
        Some(PerfFixtureKind::Symfony)
    } else {
        None
    }
}

pub open spec fn seq_of_strs(s: Seq<&str>) -> Seq<Seq<char>> {
    s.map_values(|t: &str| t@)
}

/// The classes a lazy-load run of each corpus resolves.
pub open spec fn lazy_load_target_texts(kind: PerfFixtureKind) -> Seq<Seq<char>> {
    match kind {
        PerfFixtureKind::Laravel => seq![
            "Illuminate\\Foundation\\Application"@,
            "Illuminate\\Database\\Eloquent\\Model"@,
            "Illuminate\\Support\\Collection"@,
            "Illuminate\\Http\\Request"@,
        ],
        PerfFixtureKind::Symfony => seq![
            "Symfony\\Component\\Routing\\Router"@,
            "Symfony\\Component\\HttpFoundation\\RequestStack"@,
            "Symfony\\Component\\String\\Slugger\\AsciiSlugger"@,
            "Symfony\\Component\\String\\TruncateMode"@,
        ],
    }
}

/// The class a read-query run of each corpus looks up.
pub open spec fn read_query_target_text(kind: PerfFixtureKind) -> Seq<char> {
    match kind {
        PerfFixtureKind::Laravel => "Illuminate\\Database\\Eloquent\\Model"@,
        PerfFixtureKind::Symfony => "Symfony\\Component\\HttpFoundation\\Request"@,
    }
}

/// Every corpus lazily loads four distinct, fully qualified classes (each
/// holds a namespace separator, none starts with one), and on Laravel the
/// class that read queries look up is among them.
pub proof fn lemma_lazy_load_targets(kind: PerfFixtureKind)
    ensures
        lazy_load_target_texts(kind).len() == 4,
        forall|i: int, j: int|
            0 <= i < j < 4 ==> #[trigger] lazy_load_target_texts(kind)[i] != #[trigger] lazy_load_target_texts(kind)[j],
        forall|i: int|
            0 <= i < 4 ==> (#[trigger] lazy_load_target_texts(kind)[i]).contains('\\') && lazy_load_target_texts(
                kind,
            )[i].len() > 0 && lazy_load_target_texts(kind)[i][0] != '\\',
        kind == PerfFixtureKind::Laravel ==> lazy_load_target_texts(kind).contains(read_query_target_text(kind)),
{
    reveal_strlit("Illuminate\\Foundation\\Application");
    reveal_strlit("Illuminate\\Database\\Eloquent\\Model");
    reveal_strlit("Illuminate\\Support\\Collection");
    reveal_strlit("Illuminate\\Http\\Request");
    reveal_strlit("Symfony\\Component\\Routing\\Router");
    reveal_strlit("Symfony\\Component\\HttpFoundation\\RequestStack");
    reveal_strlit("Symfony\\Component\\String\\Slugger\\AsciiSlugger");
    reveal_strlit("Symfony\\Component\\String\\TruncateMode");
    let t = lazy_load_target_texts(kind);
    let sep = match kind {
        PerfFixtureKind::Laravel => 10int,
        PerfFixtureKind::Symfony => 7int,
    };
    assert forall|i: int| 0 <= i < 4 implies (#[trigger] t[i]).contains('\\') && t[i].len() > 0 && t[i][0] != '\\' by {
        assert(t[i][sep] == '\\');
    }
    assert forall|i: int, j: int| 0 <= i < j < 4 implies #[trigger] t[i] != #[trigger] t[j] by {
        if t[i].len() == t[j].len() {
            assert(t[i][18] != t[j][18]);
        }
    }
    if kind == PerfFixtureKind::Laravel {
        assert(t[1] == read_query_target_text(kind));
    }
}

/// `root` joined with `rel`.
pub fn join(root: &str, rel: &str) -> (r: String)
    ensures
        r@ == join_path(root@, rel@),
{
    let mut out = chars_of(root);
    if out.len() > 0 && out[out.len() - 1] != '/' {
        out.push('/');
    }
    let tail = chars_of(rel);
    let ghost base = out@;
    let mut i: usize = 0;
    while i < tail.len()
        invariant
            i <= tail@.len(),
            out@ == base + tail@.take(i as int),
        decreases tail.len() - i,
    {
        out.push(tail[i]);
        i = i + 1;
        proof {
            assert(tail@.take(i as int) == tail@.take(i - 1).push(tail@[i - 1]));
        }
    }
    proof {
        assert(tail@.take(i as int) == tail@);
    }
    string_from_chars(out.as_slice())
}

/// Decides the corpus kind from the outcome of the on-disk marker checks
/// (`laravel_markers`: every path of `marker_paths(Laravel)` is a file
/// under the root; likewise `symfony_markers`).
pub fn detect_fixture_kind(laravel_markers: bool, symfony_markers: bool) -> (r: Option<
    PerfFixtureKind,
>)
    ensures
        r == kind_from_markers(laravel_markers, symfony_markers),
{
    if laravel_markers {
        return Some(PerfFixtureKind::Laravel);
    }
    if symfony_markers {
        return Some(PerfFixtureKind::Symfony);
    }
    None
}

/// The files whose presence under a root identifies a corpus of `kind`.
pub fn marker_paths(kind: PerfFixtureKind) -> (r: &'static [&'static str])
    ensures
        r@.len() == 3,
        r@[0]@ == "composer.json"@,
        kind == PerfFixtureKind::Laravel ==> r@[1]@ == "src/Illuminate/Auth/Events/Login.php"@
            && r@[2]@ == "src/Illuminate/Database/Eloquent/Model.php"@,
        kind == PerfFixtureKind::Symfony ==> r@[1]@
            == "src/Symfony/Component/HttpFoundation/Request.php"@ && r@[2]@
            == "src/Symfony/Component/String/TruncateMode.php"@,
{
    match kind {
        PerfFixtureKind::Laravel => &[
            "composer.json",
            "src/Illuminate/Auth/Events/Login.php",
            "src/Illuminate/Database/Eloquent/Model.php",
        ],
        PerfFixtureKind::Symfony => &[
            "composer.json",
            "src/Symfony/Component/HttpFoundation/Request.php",
            "src/Symfony/Component/String/TruncateMode.php",
        ],
    }
}

impl PerfFixture {
    pub fn new(kind: PerfFixtureKind, root: String) -> (r: Self)
        ensures
            r.kind_of() == kind,
            r.root_text() == root@,
    {
        PerfFixture { kind, root }
    }

    pub closed spec fn root_text(&self) -> Seq<char> {
        self.root@
    }

    pub closed spec fn kind_of(&self) -> PerfFixtureKind {
        self.kind
    }

    pub fn kind(&self) -> (r: PerfFixtureKind)
        ensures
            r == self.kind_of(),
    {
        self.kind
    }

    pub fn id(&self) -> (r: &'static str)
        ensures
            r@ == (match self.kind_of() {
                PerfFixtureKind::Laravel => "laravel"@,
                PerfFixtureKind::Symfony => "symfony"@,
            }),
    {
        match self.kind {
            PerfFixtureKind::Laravel => "laravel",
            PerfFixtureKind::Symfony => "symfony",
        }
    }

    pub fn label(&self) -> (r: &'static str)
        ensures
            r@ == (match self.kind_of() {
                PerfFixtureKind::Laravel => "Laravel"@,
                PerfFixtureKind::Symfony => "Symfony"@,
            }),
    {
        match self.kind {
            PerfFixtureKind::Laravel => "Laravel",
            PerfFixtureKind::Symfony => "Symfony",
        }
    }

    pub fn root(&self) -> (r: &str)
        ensures
            r@ == self.root_text(),
    {
        self.root.as_str()
    }

    pub fn src_root(&self) -> (r: String)
        ensures
            r@ == join_path(self.root_text(), "src"@),
    {
        join(self.root.as_str(), "src")
    }

    pub fn vendor_root(&self) -> (r: String)
        ensures
            r@ == join_path(self.root_text(), "vendor"@),
    {
        join(self.root.as_str(), "vendor")
    }

    /// Whether the fixture holds its whole corpus, given whether its source
    /// root and its vendor root are directories on disk.
    pub fn has_full_corpus(&self, src_is_dir: bool, vendor_is_dir: bool) -> (r: bool)
        ensures
            r == (src_is_dir && vendor_is_dir),
    {
        src_is_dir && vendor_is_dir
    }

    pub fn open_file(&self) -> (r: String)
        ensures
            r@ == join_path(self.root_text(), self.open_file_rel_text()),
    {
        join(self.root.as_str(), self.open_file_rel())
    }

    pub fn open_file_label(&self) -> (r: &'static str)
        ensures
            r@ == (match self.kind_of() {
                PerfFixtureKind::Laravel => "Login.php"@,
                PerfFixtureKind::Symfony => "Request.php"@,
            }),
    {
        match self.kind {
            PerfFixtureKind::Laravel => "Login.php",
            PerfFixtureKind::Symfony => "Request.php",
        }
    }

    pub fn open_symbol_probe(&self) -> (r: &'static str)
        ensures
            r@ == (match self.kind_of() {
                PerfFixtureKind::Laravel => "SerializesModels"@,
                PerfFixtureKind::Symfony => "Request"@,
            }),
    {
        match self.kind {
            PerfFixtureKind::Laravel => "SerializesModels",
            PerfFixtureKind::Symfony => "Request",
        }
    }

    pub fn lazy_load_targets(&self) -> (r: &'static [&'static str])
        ensures
            seq_of_strs(r@) == lazy_load_target_texts(self.kind_of()),
    {
        let r = match self.kind {
            PerfFixtureKind::Laravel => &[
                "Illuminate\\Foundation\\Application",
                "Illuminate\\Database\\Eloquent\\Model",
                "Illuminate\\Support\\Collection",
                "Illuminate\\Http\\Request",
            ],
            PerfFixtureKind::Symfony => &[
                "Symfony\\Component\\Routing\\Router",
                "Symfony\\Component\\HttpFoundation\\RequestStack",
                "Symfony\\Component\\String\\Slugger\\AsciiSlugger",
                "Symfony\\Component\\String\\TruncateMode",
            ],
        };
        assert(seq_of_strs(r@) =~= lazy_load_target_texts(self.kind_of()));
        r
    }

    pub fn high_fanout_file(&self) -> (r: String)
        ensures
            r@ == join_path(self.root_text(), self.high_fanout_rel_text()),
    {
        join(self.root.as_str(), self.high_fanout_rel())
    }

    pub fn leaf_file(&self) -> (r: String)
        ensures
            r@ == join_path(self.root_text(), self.leaf_rel_text()),
    {
        join(self.root.as_str(), self.leaf_rel())
    }

    pub fn read_query_target_class(&self) -> (r: &'static str)
        ensures
            r@ == read_query_target_text(self.kind_of()),
    {
        match self.kind {
            PerfFixtureKind::Laravel => "Illuminate\\Database\\Eloquent\\Model",
            PerfFixtureKind::Symfony => "Symfony\\Component\\HttpFoundation\\Request",
        }
    }

    pub fn concurrent_target_class(&self) -> (r: &'static str)
        ensures
            r@ == (match self.kind_of() {
                PerfFixtureKind::Laravel => "Illuminate\\Auth\\Events\\Login"@,
                PerfFixtureKind::Symfony => "Symfony\\Component\\HttpFoundation\\Request"@,
            }),
    {
        match self.kind {
            PerfFixtureKind::Laravel => "Illuminate\\Auth\\Events\\Login",
            PerfFixtureKind::Symfony => "Symfony\\Component\\HttpFoundation\\Request",
        }
    }

    pub fn open_file_closure_candidates(&self) -> (r: &'static [&'static str])
        ensures
            seq_of_strs(r@) == (match self.kind_of() {
                PerfFixtureKind::Laravel => seq![
                    "src/Illuminate/Database/Eloquent/Builder.php"@,
                    "src/Illuminate/Routing/Router.php"@,
                    "src/Illuminate/Http/Request.php"@,
                ],
                PerfFixtureKind::Symfony => seq![
                    "src/Symfony/Component/HttpFoundation/Request.php"@,
                    "src/Symfony/Component/Routing/Router.php"@,
                    "src/Symfony/Component/String/Slugger/AsciiSlugger.php"@,
                ],
            }),
    {
        let r = match self.kind {
            PerfFixtureKind::Laravel => &[
                "src/Illuminate/Database/Eloquent/Builder.php",
                "src/Illuminate/Routing/Router.php",
                "src/Illuminate/Http/Request.php",
            ],
            PerfFixtureKind::Symfony => &[
                "src/Symfony/Component/HttpFoundation/Request.php",
                "src/Symfony/Component/Routing/Router.php",
                "src/Symfony/Component/String/Slugger/AsciiSlugger.php",
            ],
        };
        assert(seq_of_strs(r@) =~= (match self.kind_of() {
            PerfFixtureKind::Laravel => seq![
                "src/Illuminate/Database/Eloquent/Builder.php"@,
                "src/Illuminate/Routing/Router.php"@,
                "src/Illuminate/Http/Request.php"@,
            ],
            PerfFixtureKind::Symfony => seq![
                "src/Symfony/Component/HttpFoundation/Request.php"@,
                "src/Symfony/Component/Routing/Router.php"@,
                "src/Symfony/Component/String/Slugger/AsciiSlugger.php"@,
            ],
        }));
        r
    }

    pub open spec fn open_file_rel_text(&self) -> Seq<char> {
        match self.kind_of() {
            PerfFixtureKind::Laravel => "src/Illuminate/Auth/Events/Login.php"@,
            PerfFixtureKind::Symfony => "src/Symfony/Component/HttpFoundation/Request.php"@,
        }
    }

    pub open spec fn high_fanout_rel_text(&self) -> Seq<char> {
        match self.kind_of() {
            PerfFixtureKind::Laravel => "src/Illuminate/Database/Eloquent/Model.php"@,
            PerfFixtureKind::Symfony => "src/Symfony/Component/HttpFoundation/Request.php"@,
        }
    }

    pub open spec fn leaf_rel_text(&self) -> Seq<char> {
        match self.kind_of() {
            PerfFixtureKind::Laravel => "src/Illuminate/Auth/Events/Login.php"@,
            PerfFixtureKind::Symfony => "src/Symfony/Component/String/TruncateMode.php"@,
        }
    }

    fn open_file_rel(&self) -> (r: &'static str)
        ensures
            r@ == self.open_file_rel_text(),
    {
        match self.kind {
            PerfFixtureKind::Laravel => "src/Illuminate/Auth/Events/Login.php",
            PerfFixtureKind::Symfony => "src/Symfony/Component/HttpFoundation/Request.php",
        }
    }

    fn high_fanout_rel(&self) -> (r: &'static str)
        ensures
            r@ == self.high_fanout_rel_text(),
    {
        match self.kind {
            PerfFixtureKind::Laravel => "src/Illuminate/Database/Eloquent/Model.php",
            PerfFixtureKind::Symfony => "src/Symfony/Component/HttpFoundation/Request.php",
        }
    }

    fn leaf_rel(&self) -> (r: &'static str)
        ensures
            r@ == self.leaf_rel_text(),
    {
        match self.kind {
            PerfFixtureKind::Laravel => "src/Illuminate/Auth/Events/Login.php",
            PerfFixtureKind::Symfony => "src/Symfony/Component/String/TruncateMode.php",
        }
    }
}

} // verus!

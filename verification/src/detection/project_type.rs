//! Which kind of project a directory holds, told from the names of the
//! files and directories that a walk of it meets.

use vstd::prelude::*;

use crate::text::str_eq;

verus! {

/// The kind of project found in a directory.
#[derive(Debug, Clone, Copy, PartialEq, Eq, Structural)]
pub enum ProjectType {
    Python(PythonDependency),
    Go,
    CSharp,
    Unknown,
}

/// How a Python project declares its dependencies.
#[derive(Debug, Clone, Copy, PartialEq, Eq, Structural)]
pub enum PythonDependency {
    RequirementsTxt,
    PyProjectToml,
    SetupPy,
    Absent,
}

/// What a walk tells of one entry: the extension of its path and its file
/// name, each where it exists and is valid UTF-8.
#[derive(Debug)]
pub struct Entry {
    pub extension: Option<String>,
    pub file_name: Option<String>,
}

impl Entry {
    /// The entry as two optional character sequences: extension, file name.
    pub open spec fn view_pair(&self) -> (Option<Seq<char>>, Option<Seq<char>>) {
        (self.extension.deep_view(), self.file_name.deep_view())
    }
}

/// What a scan has learnt so far.
#[derive(Debug, Clone, Copy, PartialEq, Eq, Structural)]
pub struct ScanState {
    pub python_dep: PythonDependency,
    pub has_go: bool,
    pub has_csharp: bool,
    pub has_rust: bool,
}

/// The state of a scan that has seen nothing yet.
pub open spec fn initial_scan() -> ScanState {
    ScanState {
        python_dep: PythonDependency::Absent,
        has_go: false,
        has_csharp: false,
        has_rust: false,
    }
}

/// What a scan learns from one entry, by its extension and then by its file
/// name: a `.py` file makes a Python project with a `setup.py` dependency
/// unless one was found already; `requirements.txt` and `pyproject.toml`
/// set the dependency file, `setup.py` only where none was found; `.go`,
/// `go.mod` and `go.sum` mark Go; `.cs` and `.csproj` mark C#; `.rs` and
/// `Cargo.toml` mark Rust.
pub open spec fn scan_entry(
    st: ScanState,
    ext: Option<Seq<char>>,
    name: Option<Seq<char>>,
) -> ScanState {
    let py = if ext == Some("py"@) && st.python_dep == PythonDependency::Absent {
        PythonDependency::SetupPy
    } else {
        st.python_dep
    };
    let go = st.has_go || ext == Some("go"@);
    let cs = st.has_csharp || ext == Some("cs"@) || ext == Some("csproj"@);
    let rs = st.has_rust || ext == Some("rs"@);
    let py2 = if name == Some("requirements.txt"@) {
        PythonDependency::RequirementsTxt
    } else if name == Some("pyproject.toml"@) {
        PythonDependency::PyProjectToml
    } else if name == Some("setup.py"@) && py == PythonDependency::Absent {
        PythonDependency::SetupPy
    } else {
        py
    };
    let go2 = go || name == Some("go.mod"@) || name == Some("go.sum"@);
    let rs2 = rs || name == Some("Cargo.toml"@);
    ScanState { python_dep: py2, has_go: go2, has_csharp: cs, has_rust: rs2 }
}

/// A scan stops once it has found a Python dependency, Go, C# and Rust.
pub open spec fn scan_complete(st: ScanState) -> bool {
    st.python_dep != PythonDependency::Absent && st.has_go && st.has_csharp && st.has_rust
}

/// The state after scanning `entries` from `st`, stopping early where the
/// scan is complete.
pub open spec fn scan_from(
    st: ScanState,
    entries: Seq<(Option<Seq<char>>, Option<Seq<char>>)>,
) -> ScanState
    decreases entries.len(),
{
    if entries.len() == 0 {
        st
    } else {
        let next = scan_entry(st, entries[0].0, entries[0].1);
        if scan_complete(next) {
            next
        } else {
            scan_from(next, entries.drop_first())
        }
    }
}

/// The kind of project that a scan's state tells: Python wherever a Python
/// dependency was found, else Go, else C#, else unknown.
pub open spec fn classify(st: ScanState) -> ProjectType {
    match st.python_dep {
        PythonDependency::Absent => if st.has_go {
            ProjectType::Go
        } else if st.has_csharp {
            ProjectType::CSharp
        } else {
            ProjectType::Unknown
        },
        dep => ProjectType::Python(dep),
    }
}

/// The entries as pairs of optional character sequences.
pub open spec fn entries_view(entries: Seq<Entry>) -> Seq<(Option<Seq<char>>, Option<Seq<char>>)> {
    entries.map_values(|e: Entry| e.view_pair())
}

/// The kind of project whose walk meets `entries`, in that order.
pub open spec fn detected_type(entries: Seq<(Option<Seq<char>>, Option<Seq<char>>)>) -> ProjectType {
    classify(scan_from(initial_scan(), entries))
}

fn opt_is(s: &Option<String>, lit: &str) -> (r: bool)
    ensures
        r == (s.deep_view() == Some(lit@)),
{
    match s {
        Some(v) => str_eq(v.as_str(), lit),
        None => false,
    }
}

impl ScanState {
    /// The state of a scan that has seen nothing yet.
    pub fn new() -> (st: ScanState)
        ensures
            st == initial_scan(),
    {
        ScanState {
            python_dep: PythonDependency::Absent,
            has_go: false,
            has_csharp: false,
            has_rust: false,
        }
    }

    /// Learns what `entry` tells.
    pub fn observe(&mut self, entry: &Entry)
        ensures
            *final(self) == scan_entry(*old(self), entry.view_pair().0, entry.view_pair().1),
    {
        let ext = &entry.extension;
        let name = &entry.file_name;
        if opt_is(ext, "py") && self.python_dep == PythonDependency::Absent {
            self.python_dep = PythonDependency::SetupPy;
        }
        if opt_is(ext, "go") {
            self.has_go = true;
        }
        if opt_is(ext, "cs") || opt_is(ext, "csproj") {
            self.has_csharp = true;
        }
        if opt_is(ext, "rs") {
            self.has_rust = true;
        }
        if opt_is(name, "requirements.txt") {
            self.python_dep = PythonDependency::RequirementsTxt;
        } else if opt_is(name, "pyproject.toml") {
            self.python_dep = PythonDependency::PyProjectToml;
        } else if opt_is(name, "setup.py") && self.python_dep == PythonDependency::Absent {
            self.python_dep = PythonDependency::SetupPy;
        }
        if opt_is(name, "go.mod") || opt_is(name, "go.sum") {
            self.has_go = true;
        }
        if opt_is(name, "Cargo.toml") {
            self.has_rust = true;
        }
    }

    /// Whether the scan has found all it looks for.
    pub fn is_complete(&self) -> (r: bool)
        ensures
            r == scan_complete(*self),
    {
        self.python_dep != PythonDependency::Absent && self.has_go && self.has_csharp
            && self.has_rust
    }

    /// The kind of project that this state tells.
    pub fn project_type(&self) -> (t: ProjectType)
        ensures
            t == classify(*self),
    {
        match self.python_dep {
            PythonDependency::Absent => if self.has_go {
                ProjectType::Go
            } else if self.has_csharp {
                ProjectType::CSharp
            } else {
                ProjectType::Unknown
            },
            dep => ProjectType::Python(dep),
        }
    }
}

/// The kind of project whose walk meets `entries`, in that order: the scan
/// learns from each entry in turn and stops once it has found a Python
/// dependency, Go, C# and Rust.
pub fn detect_project_type(entries: &Vec<Entry>) -> (t: ProjectType)
    ensures
        t == detected_type(entries_view(entries@)),
{
    let ghost all = entries_view(entries@);
    let mut st = ScanState::new();
    let mut i: usize = 0;
    assert(all.skip(0) =~= all);
    while i < entries.len()
        invariant_except_break
            scan_from(initial_scan(), all) == scan_from(st, all.skip(i as int)),
        invariant
            i <= entries.len(),
            all == entries_view(entries@),
        ensures
            scan_from(initial_scan(), all) == st,
        decreases entries.len() - i,
    {
        assert(all.skip(i as int)[0] == entries@[i as int].view_pair());
        assert(all.skip(i as int).drop_first() =~= all.skip(i + 1));
        st.observe(&entries[i]);
        if st.is_complete() {
            break;
        }
        i = i + 1;
    }
    st.project_type()
}

/// An entry that points to Python: a `.py` file, `requirements.txt`,
/// `pyproject.toml` or `setup.py`.
pub open spec fn is_python_marker(e: (Option<Seq<char>>, Option<Seq<char>>)) -> bool {
    ||| e.0 == Some("py"@)
    ||| e.1 == Some("requirements.txt"@)
    ||| e.1 == Some("pyproject.toml"@)
    ||| e.1 == Some("setup.py"@)
}

/// An entry that points to Go: a `.go` file, `go.mod` or `go.sum`.
pub open spec fn is_go_marker(e: (Option<Seq<char>>, Option<Seq<char>>)) -> bool {
    ||| e.0 == Some("go"@)
    ||| e.1 == Some("go.mod"@)
    ||| e.1 == Some("go.sum"@)
}

/// An entry that points to C#: a `.cs` or `.csproj` file.
pub open spec fn is_csharp_marker(e: (Option<Seq<char>>, Option<Seq<char>>)) -> bool {
    e.0 == Some("cs"@) || e.0 == Some("csproj"@)
}

/// An entry that points to Rust: a `.rs` file or `Cargo.toml`.
pub open spec fn is_rust_marker(e: (Option<Seq<char>>, Option<Seq<char>>)) -> bool {
    e.0 == Some("rs"@) || e.1 == Some("Cargo.toml"@)
}

/// The dependency kind that an entry's file name sets whatever came before:
/// `requirements.txt` and `pyproject.toml` do, other names do not.
pub open spec fn names_dependency(name: Option<Seq<char>>, d: PythonDependency) -> bool {
    ||| name == Some("requirements.txt"@) && d == PythonDependency::RequirementsTxt
    ||| name == Some("pyproject.toml"@) && d == PythonDependency::PyProjectToml
}

/// An entry's file name leaves the dependency kind `d` standing: it names
/// no dependency file, or it names `d`'s.
pub open spec fn respects_dependency(name: Option<Seq<char>>, d: PythonDependency) -> bool {
    name == Some("requirements.txt"@) || name == Some("pyproject.toml"@) ==> names_dependency(
        name,
        d,
    )
}

/// The two dependency file names differ.
proof fn lemma_dependency_names_differ()
    ensures
        "requirements.txt"@ != "pyproject.toml"@,
{
    reveal_strlit("requirements.txt");
    reveal_strlit("pyproject.toml");
    assert("requirements.txt"@.len() != "pyproject.toml"@.len());
}

/// Once found, a Python dependency is never lost again.
proof fn lemma_python_kept(st: ScanState, es: Seq<(Option<Seq<char>>, Option<Seq<char>>)>)
    requires
        st.python_dep != PythonDependency::Absent,
    ensures
        scan_from(st, es).python_dep != PythonDependency::Absent,
    decreases es.len(),
{
    if es.len() > 0 {
        let next = scan_entry(st, es[0].0, es[0].1);
        if !scan_complete(next) {
            lemma_python_kept(next, es.drop_first());
        }
    }
}

/// A Python marker anywhere makes the scan end with a Python dependency.
proof fn lemma_python_found(
    st: ScanState,
    es: Seq<(Option<Seq<char>>, Option<Seq<char>>)>,
    i: int,
)
    requires
        0 <= i < es.len(),
        is_python_marker(es[i]),
    ensures
        scan_from(st, es).python_dep != PythonDependency::Absent,
    decreases es.len(),
{
    let next = scan_entry(st, es[0].0, es[0].1);
    if !scan_complete(next) {
        if i == 0 {
            lemma_python_kept(next, es.drop_first());
        } else {
            assert(es.drop_first()[i - 1] == es[i]);
            lemma_python_found(next, es.drop_first(), i - 1);
        }
    }
}

/// Without Python markers the scan reads every entry, finds no Python
/// dependency, and finds Go and C# where their markers are.
proof fn lemma_no_python(st: ScanState, es: Seq<(Option<Seq<char>>, Option<Seq<char>>)>)
    requires
        st.python_dep == PythonDependency::Absent,
        forall|i: int| 0 <= i < es.len() ==> !is_python_marker(#[trigger] es[i]),
    ensures
        scan_from(st, es).python_dep == PythonDependency::Absent,
        scan_from(st, es).has_go == (st.has_go || exists|i: int|
            0 <= i < es.len() && is_go_marker(#[trigger] es[i])),
        scan_from(st, es).has_csharp == (st.has_csharp || exists|i: int|
            0 <= i < es.len() && is_csharp_marker(#[trigger] es[i])),
    decreases es.len(),
{
    if es.len() > 0 {
        let next = scan_entry(st, es[0].0, es[0].1);
        assert(!is_python_marker(es[0]));
        let rest = es.drop_first();
        assert forall|i: int| 0 <= i < rest.len() implies !is_python_marker(#[trigger] rest[i]) by {
            assert(rest[i] == es[i + 1]);
        }
        lemma_no_python(next, rest);
        assert((exists|i: int| 0 <= i < es.len() && is_go_marker(#[trigger] es[i])) == (
        is_go_marker(es[0]) || exists|i: int| 0 <= i < rest.len() && is_go_marker(
            #[trigger] rest[i],
        ))) by {
            if exists|i: int| 0 <= i < es.len() && is_go_marker(#[trigger] es[i]) {
                let i: int = choose|i: int| 0 <= i < es.len() && is_go_marker(#[trigger] es[i]);
                if i > 0 {
                    assert(rest[i - 1] == es[i]);
                }
            }
            if exists|i: int| 0 <= i < rest.len() && is_go_marker(#[trigger] rest[i]) {
                let i: int = choose|i: int| 0 <= i < rest.len() && is_go_marker(#[trigger] rest[i]);
                assert(rest[i] == es[i + 1]);
            }
        }
        assert((exists|i: int| 0 <= i < es.len() && is_csharp_marker(#[trigger] es[i])) == (
        is_csharp_marker(es[0]) || exists|i: int|
            0 <= i < rest.len() && is_csharp_marker(#[trigger] rest[i]))) by {
            if exists|i: int| 0 <= i < es.len() && is_csharp_marker(#[trigger] es[i]) {
                let i: int = choose|i: int| 0 <= i < es.len() && is_csharp_marker(#[trigger] es[i]);
                if i > 0 {
                    assert(rest[i - 1] == es[i]);
                }
            }
            if exists|i: int| 0 <= i < rest.len() && is_csharp_marker(#[trigger] rest[i]) {
                let i: int = choose|i: int| 0 <= i < rest.len() && is_csharp_marker(#[trigger] rest[i]);
                assert(rest[i] == es[i + 1]);
            }
        }
    }
}

/// A dependency kind `d` stays while no entry names another one.
proof fn lemma_dependency_kept(
    st: ScanState,
    es: Seq<(Option<Seq<char>>, Option<Seq<char>>)>,
    d: PythonDependency,
)
    requires
        d != PythonDependency::Absent,
        st.python_dep == d,
        forall|i: int| 0 <= i < es.len() ==> respects_dependency((#[trigger] es[i]).1, d),
    ensures
        scan_from(st, es).python_dep == d,
    decreases es.len(),
{
    if es.len() > 0 {
        let next = scan_entry(st, es[0].0, es[0].1);
        lemma_dependency_names_differ();
        assert(respects_dependency(es[0].1, d));
        if !scan_complete(next) {
            let rest = es.drop_first();
            assert forall|i: int| 0 <= i < rest.len() implies respects_dependency((#[trigger] rest[i]).1, d) by {
                assert(rest[i] == es[i + 1]);
            }
            lemma_dependency_kept(next, rest, d);
        }
    }
}

/// No entry of `es` points to Go.
pub open spec fn no_go(es: Seq<(Option<Seq<char>>, Option<Seq<char>>)>) -> bool {
    forall|j: int| 0 <= j < es.len() ==> !is_go_marker(#[trigger] es[j])
}

/// No entry of `es` points to C#.
pub open spec fn no_csharp(es: Seq<(Option<Seq<char>>, Option<Seq<char>>)>) -> bool {
    forall|j: int| 0 <= j < es.len() ==> !is_csharp_marker(#[trigger] es[j])
}

/// No entry of `es` points to Rust.
pub open spec fn no_rust(es: Seq<(Option<Seq<char>>, Option<Seq<char>>)>) -> bool {
    forall|j: int| 0 <= j < es.len() ==> !is_rust_marker(#[trigger] es[j])
}

/// A scan from `st` over `es` can never be complete: one of Go, C# and Rust
/// is neither found yet nor pointed to by any entry.
pub open spec fn never_complete(st: ScanState, es: Seq<(Option<Seq<char>>, Option<Seq<char>>)>) -> bool {
    ||| !st.has_go && no_go(es)
    ||| !st.has_csharp && no_csharp(es)
    ||| !st.has_rust && no_rust(es)
}

/// A scan that can never be complete stays so after one more entry.
proof fn lemma_never_complete_step(st: ScanState, es: Seq<(Option<Seq<char>>, Option<Seq<char>>)>)
    requires
        es.len() > 0,
        never_complete(st, es),
    ensures
        !scan_complete(scan_entry(st, es[0].0, es[0].1)),
        never_complete(scan_entry(st, es[0].0, es[0].1), es.drop_first()),
{
    let next = scan_entry(st, es[0].0, es[0].1);
    let rest = es.drop_first();
    if !st.has_go && no_go(es) {
        assert(!is_go_marker(es[0]));
        assert forall|j: int| 0 <= j < rest.len() implies !is_go_marker(#[trigger] rest[j]) by {
            assert(rest[j] == es[j + 1]);
        }
    } else if !st.has_csharp && no_csharp(es) {
        assert(!is_csharp_marker(es[0]));
        assert forall|j: int| 0 <= j < rest.len() implies !is_csharp_marker(#[trigger] rest[j]) by {
            assert(rest[j] == es[j + 1]);
        }
    } else {
        assert(!is_rust_marker(es[0]));
        assert forall|j: int| 0 <= j < rest.len() implies !is_rust_marker(#[trigger] rest[j]) by {
            assert(rest[j] == es[j + 1]);
        }
    }
}

/// Where the scan can never be complete, an entry whose name sets the
/// dependency kind `d`, with no entry that names another, makes the scan
/// end with `d`.
proof fn lemma_dependency_named(
    st: ScanState,
    es: Seq<(Option<Seq<char>>, Option<Seq<char>>)>,
    d: PythonDependency,
    i: int,
)
    requires
        0 <= i < es.len(),
        never_complete(st, es),
        names_dependency(es[i].1, d),
        forall|j: int| 0 <= j < es.len() ==> respects_dependency((#[trigger] es[j]).1, d),
    ensures
        scan_from(st, es).python_dep == d,
    decreases es.len(),
{
    let next = scan_entry(st, es[0].0, es[0].1);
    lemma_never_complete_step(st, es);
    let rest = es.drop_first();
    assert forall|j: int| 0 <= j < rest.len() implies respects_dependency((#[trigger] rest[j]).1, d) by {
        assert(rest[j] == es[j + 1]);
    }
    if i == 0 {
        lemma_dependency_names_differ();
        lemma_dependency_kept(next, rest, d);
    } else {
        assert(rest[i - 1] == es[i]);
        lemma_dependency_named(next, rest, d, i - 1);
    }
}

/// Python comes first: a project with a `.py` file, `requirements.txt`,
/// `pyproject.toml` or `setup.py` anywhere in its walk is a Python project,
/// whatever else it holds.
pub proof fn law_python_first(es: Seq<(Option<Seq<char>>, Option<Seq<char>>)>, i: int)
    requires
        0 <= i < es.len(),
        is_python_marker(es[i]),
    ensures
        detected_type(es) is Python,
{
    lemma_python_found(initial_scan(), es, i);
}

/// Without Python markers, a project is a Go project where any entry points
/// to Go, else a C# project where any entry points to C#, else unknown.
pub proof fn law_without_python(es: Seq<(Option<Seq<char>>, Option<Seq<char>>)>)
    requires
        forall|i: int| 0 <= i < es.len() ==> !is_python_marker(#[trigger] es[i]),
    ensures
        detected_type(es) == (if exists|i: int| 0 <= i < es.len() && is_go_marker(#[trigger] es[i]) {
            ProjectType::Go
        } else if exists|i: int| 0 <= i < es.len() && is_csharp_marker(#[trigger] es[i]) {
            ProjectType::CSharp
        } else {
            ProjectType::Unknown
        }),
{
    lemma_no_python(initial_scan(), es);
}

/// Where the walk meets no entry of Go, or none of C#, or none of Rust, so
/// that the scan reads every entry, `requirements.txt` or `pyproject.toml` sets the
/// dependency kind where the other file is absent, however many `.py` files
/// or `setup.py` come before or after.
pub proof fn law_dependency_file_wins(
    es: Seq<(Option<Seq<char>>, Option<Seq<char>>)>,
    d: PythonDependency,
    i: int,
)
    requires
        0 <= i < es.len(),
        names_dependency(es[i].1, d),
        no_go(es) || no_csharp(es) || no_rust(es),
        forall|j: int| 0 <= j < es.len() ==> respects_dependency((#[trigger] es[j]).1, d),
    ensures
        detected_type(es) == ProjectType::Python(d),
{
    lemma_dependency_named(initial_scan(), es, d, i);
}

/// Without a dependency file name, the dependency kind is `setup.py`'s or
/// none.
proof fn lemma_only_setup(st: ScanState, es: Seq<(Option<Seq<char>>, Option<Seq<char>>)>)
    requires
        st.python_dep == PythonDependency::Absent || st.python_dep == PythonDependency::SetupPy,
        forall|j: int| 0 <= j < es.len() ==> no_dependency_file(#[trigger] es[j]),
    ensures
        scan_from(st, es).python_dep == PythonDependency::Absent || scan_from(st, es).python_dep
            == PythonDependency::SetupPy,
    decreases es.len(),
{
    if es.len() > 0 {
        let next = scan_entry(st, es[0].0, es[0].1);
        assert(no_dependency_file(es[0]));
        if !scan_complete(next) {
            let rest = es.drop_first();
            assert forall|j: int| 0 <= j < rest.len() implies no_dependency_file(#[trigger] rest[j]) by {
                assert(rest[j] == es[j + 1]);
            }
            lemma_only_setup(next, rest);
        }
    }
}

/// An entry named neither `requirements.txt` nor `pyproject.toml`.
pub open spec fn no_dependency_file(e: (Option<Seq<char>>, Option<Seq<char>>)) -> bool {
    e.1 != Some("requirements.txt"@) && e.1 != Some("pyproject.toml"@)
}

/// A Python project without `requirements.txt` and `pyproject.toml` is one
/// whose dependencies `setup.py` declares: a `.py` file or `setup.py` is
/// enough.
pub proof fn law_setup_py_otherwise(es: Seq<(Option<Seq<char>>, Option<Seq<char>>)>, i: int)
    requires
        0 <= i < es.len(),
        is_python_marker(es[i]),
        forall|j: int| 0 <= j < es.len() ==> no_dependency_file(#[trigger] es[j]),
    ensures
        detected_type(es) == ProjectType::Python(PythonDependency::SetupPy),
{
    lemma_python_found(initial_scan(), es, i);
    lemma_only_setup(initial_scan(), es);
}

/// Every kind the scan looks for is found in `st` already or pointed to by
/// some entry of `a`.
pub open spec fn all_kinds_within(st: ScanState, a: Seq<(Option<Seq<char>>, Option<Seq<char>>)>) -> bool {
    &&& (st.python_dep != PythonDependency::Absent || exists|i: int|
        0 <= i < a.len() && is_python_marker(#[trigger] a[i]))
    &&& (st.has_go || exists|i: int| 0 <= i < a.len() && is_go_marker(#[trigger] a[i]))
    &&& (st.has_csharp || exists|i: int| 0 <= i < a.len() && is_csharp_marker(#[trigger] a[i]))
    &&& (st.has_rust || exists|i: int| 0 <= i < a.len() && is_rust_marker(#[trigger] a[i]))
}

/// The scan completes within `a` where `a` points to every kind, and then
/// reads nothing after it.
proof fn lemma_complete_within(
    st: ScanState,
    a: Seq<(Option<Seq<char>>, Option<Seq<char>>)>,
    b: Seq<(Option<Seq<char>>, Option<Seq<char>>)>,
)
    requires
        a.len() > 0,
        all_kinds_within(st, a),
    ensures
        scan_from(st, a + b) == scan_from(st, a),
    decreases a.len(),
{
    let next = scan_entry(st, a[0].0, a[0].1);
    let rest = a.drop_first();
    assert((a + b)[0] == a[0]);
    assert((a + b).drop_first() =~= rest + b);
    if !scan_complete(next) {
        assert(is_python_marker(a[0]) ==> next.python_dep != PythonDependency::Absent);
        assert forall|i: int| 0 <= i < rest.len() implies #[trigger] rest[i] == a[i + 1] by {}
        if exists|i: int| 0 <= i < a.len() && is_python_marker(#[trigger] a[i]) {
            let i: int = choose|i: int| 0 <= i < a.len() && is_python_marker(#[trigger] a[i]);
            if i > 0 {
                assert(is_python_marker(rest[i - 1]));
            }
        }
        if exists|i: int| 0 <= i < a.len() && is_go_marker(#[trigger] a[i]) {
            let i: int = choose|i: int| 0 <= i < a.len() && is_go_marker(#[trigger] a[i]);
            if i > 0 {
                assert(is_go_marker(rest[i - 1]));
            }
        }
        if exists|i: int| 0 <= i < a.len() && is_csharp_marker(#[trigger] a[i]) {
            let i: int = choose|i: int| 0 <= i < a.len() && is_csharp_marker(#[trigger] a[i]);
            if i > 0 {
                assert(is_csharp_marker(rest[i - 1]));
            }
        }
        if exists|i: int| 0 <= i < a.len() && is_rust_marker(#[trigger] a[i]) {
            let i: int = choose|i: int| 0 <= i < a.len() && is_rust_marker(#[trigger] a[i]);
            if i > 0 {
                assert(is_rust_marker(rest[i - 1]));
            }
        }
        assert(all_kinds_within(next, rest));
        lemma_complete_within(next, rest, b);
    }
}

/// The scan stops once it has found a Python dependency, Go, C# and Rust:
/// where the first entries of a walk point to all four, what the walk meets
/// after them makes no difference.
pub proof fn law_scan_stops_when_complete(
    a: Seq<(Option<Seq<char>>, Option<Seq<char>>)>,
    b: Seq<(Option<Seq<char>>, Option<Seq<char>>)>,
)
    requires
        exists|i: int| 0 <= i < a.len() && is_python_marker(#[trigger] a[i]),
        exists|i: int| 0 <= i < a.len() && is_go_marker(#[trigger] a[i]),
        exists|i: int| 0 <= i < a.len() && is_csharp_marker(#[trigger] a[i]),
        exists|i: int| 0 <= i < a.len() && is_rust_marker(#[trigger] a[i]),
    ensures
        detected_type(a + b) == detected_type(a),
{
    lemma_complete_within(initial_scan(), a, b);
}

/// The names of the directories that the scans never enter.
pub open spec fn skipped_dir_names() -> Seq<Seq<char>> {
    seq![
        "node_modules"@, ".git"@, ".venv"@, "venv"@, "__pycache__"@, "target"@,
        "build"@, "dist"@, ".idea"@, ".vscode"@, ".next"@, "out"@,
    ]
}

/// The skip list holds exactly the twelve names: tool caches, virtual
/// environments, version control and build outputs, and nothing else.
pub proof fn law_skipped_names(n: Seq<char>)
    ensures
        skipped_dir_names().len() == 12,
        skipped_dir_names().contains(n) <==> (n == "node_modules"@ || n == ".git"@ || n == ".venv"@ || n == "venv"@
            || n == "__pycache__"@ || n == "target"@ || n == "build"@ || n == "dist"@ || n
            == ".idea"@ || n == ".vscode"@ || n == ".next"@ || n == "out"@),
{
    let l = skipped_dir_names();
    if l.contains(n) {
        let i: int = choose|i: int| 0 <= i < l.len() && l[i] == n;
        assert(0 <= i < 12);
    }
    if (n == "node_modules"@ || n == ".git"@ || n == ".venv"@ || n == "venv"@
        || n == "__pycache__"@ || n == "target"@ || n == "build"@ || n == "dist"@ || n
        == ".idea"@ || n == ".vscode"@ || n == ".next"@ || n == "out"@) {
        if n == "node_modules"@ { assert(l[0] == n); }
        else if n == ".git"@ { assert(l[1] == n); }
        else if n == ".venv"@ { assert(l[2] == n); }
        else if n == "venv"@ { assert(l[3] == n); }
        else if n == "__pycache__"@ { assert(l[4] == n); }
        else if n == "target"@ { assert(l[5] == n); }
        else if n == "build"@ { assert(l[6] == n); }
        else if n == "dist"@ { assert(l[7] == n); }
        else if n == ".idea"@ { assert(l[8] == n); }
        else if n == ".vscode"@ { assert(l[9] == n); }
        else if n == ".next"@ { assert(l[10] == n); }
        else { assert(l[11] == n); }
    }
}

/// Tells whether a directory of this name is left out of a scan: tool
/// caches, virtual environments, version control and build outputs.
pub fn should_skip_dir(name: &str) -> (skip: bool)
    ensures
        skip == skipped_dir_names().contains(name@),
        skip == (name@ == "node_modules"@ || name@ == ".git"@ || name@ == ".venv"@ || name@
            == "venv"@ || name@ == "__pycache__"@ || name@ == "target"@ || name@ == "build"@
            || name@ == "dist"@ || name@ == ".idea"@ || name@ == ".vscode"@ || name@ == ".next"@
            || name@ == "out"@),
{
    proof {
        law_skipped_names(name@);
    }
    let names: [&str; 12] = [
        "node_modules", ".git", ".venv", "venv", "__pycache__", "target",
        "build", "dist", ".idea", ".vscode", ".next", "out",
    ];
    let mut i: usize = 0;
    while i < 12
        invariant
            0 <= i <= 12,
            forall|j: int| 0 <= j < 12 ==> names[j]@ == #[trigger] skipped_dir_names()[j],
            forall|j: int| 0 <= j < i ==> skipped_dir_names()[j] != name@,
        decreases 12 - i,
    {
        if str_eq(names[i], name) {
            return true;
        }
        i = i + 1;
    }
    false
}

} // verus!

//! Learning the version of a project's toolchain by asking its commands.
//!
//! Asking is left to the caller: the search says which command to run next,
//! given what the commands run so far answered, until it has its answer.

use vstd::prelude::*;
use vstd::utf8::{decode_utf8, valid_utf8};

use crate::detection::project_type::{ProjectType, PythonDependency};
use crate::text::{trim, trimmed};

verus! {

/// What a finished command gave back.
#[derive(Debug)]
pub struct CommandOutput {
    pub success: bool,
    pub stdout: Vec<u8>,
    pub stderr: Vec<u8>,
}

/// The text that `String::from_utf8_lossy` makes of `bytes`.
pub uninterp spec fn lossy_utf8(bytes: Seq<u8>) -> Seq<char>;

/// Decodes bytes as UTF-8, by `String::from_utf8_lossy`. The contract names
/// the result `lossy_utf8(bytes)` and states what std's documentation
/// promises: valid UTF-8 decodes to exactly its characters. How invalid
/// sequences become U+FFFD is left unsaid.
#[verifier::external_body]
fn decode_lossy(bytes: &[u8]) -> (s: String)
    ensures
        s@ == lossy_utf8(bytes@),
        valid_utf8(bytes@) ==> s@ == decode_utf8(bytes@),
{
    String::from_utf8_lossy(bytes).into_owned()
}

/// The version that a command's output tells: nothing where the command
/// failed; else its standard output, or its standard error where the
/// output is empty, decoded and trimmed, where that is not empty.
pub open spec fn output_version(success: bool, stdout: Seq<u8>, stderr: Seq<u8>) -> Option<
    Seq<char>,
> {
    if !success {
        None
    } else {
        nonempty(trimmed(lossy_utf8(chosen_bytes(stdout, stderr))))
    }
}

/// The bytes a version is read from: the standard output, or the standard
/// error where the output is empty.
pub open spec fn chosen_bytes(stdout: Seq<u8>, stderr: Seq<u8>) -> Seq<u8> {
    if stdout.len() > 0 {
        stdout
    } else {
        stderr
    }
}

/// `v`, where it is not empty.
pub open spec fn nonempty(v: Seq<char>) -> Option<Seq<char>> {
    if v.len() == 0 {
        None
    } else {
        Some(v)
    }
}

/// The version that a run of a version command tells; `None` for a command
/// that could not be started.
pub fn command_version(output: Option<&CommandOutput>) -> (r: Option<String>)
    ensures
        r.deep_view() == match output {
            None => None,
            Some(o) => output_version(o.success, o.stdout@, o.stderr@),
        },
        output matches Some(o) ==> (o.success && valid_utf8(chosen_bytes(o.stdout@, o.stderr@))
            ==> r.deep_view() == nonempty(trimmed(decode_utf8(chosen_bytes(o.stdout@, o.stderr@))))),
{
    match output {
        None => None,
        Some(o) => {
            if !o.success {
                return None;
            }
            let text = if o.stdout.len() > 0 {
                decode_lossy(o.stdout.as_slice())
            } else {
                decode_lossy(o.stderr.as_slice())
            };
            let version = trim(text.as_str());
            if version.is_empty() {
                None
            } else {
                Some(version.to_owned())
            }
        },
    }
}

/// The next step of a version search.
#[derive(Debug, PartialEq, Eq)]
pub enum VersionStep {
    /// Run `program` with the one argument `arg`, and hand back the version
    /// that its output tells.
    Run { program: String, arg: String },
    /// The search is over, with this version or none.
    Done(Option<String>),
}

/// A step of a version search, with its strings as character sequences.
pub enum StepView {
    Run(Seq<char>, Seq<char>),
    Done(Option<Seq<char>>),
}

impl View for VersionStep {
    type V = StepView;

    open spec fn view(&self) -> StepView {
        match self {
            VersionStep::Run { program, arg } => StepView::Run(program@, arg@),
            VersionStep::Done(v) => StepView::Done(v.deep_view()),
        }
    }
}

/// The step of a search through the commands `cands`, asked in order, once
/// `answers` holds what the first of them answered: the first answer that
/// is a version ends the search; else the next command is run; with no
/// command left, the search ends with nothing.
pub open spec fn version_search(
    cands: Seq<(Seq<char>, Seq<char>)>,
    answers: Seq<Option<Seq<char>>>,
) -> StepView
    decreases cands.len(),
{
    if cands.len() == 0 {
        StepView::Done(None)
    } else if answers.len() == 0 {
        StepView::Run(cands[0].0, cands[0].1)
    } else {
        match answers[0] {
            Some(v) => StepView::Done(Some(v)),
            None => version_search(cands.drop_first(), answers.drop_first()),
        }
    }
}

/// The commands as pairs of character sequences.
pub open spec fn commands_view(cands: Seq<(&str, &str)>) -> Seq<(Seq<char>, Seq<char>)> {
    cands.map_values(|p: (&str, &str)| (p.0@, p.1@))
}

fn search(cands: &Vec<(&str, &str)>, answers: &Vec<Option<String>>) -> (r: VersionStep)
    ensures
        r@ == version_search(commands_view(cands@), answers.deep_view()),
{
    let ghost all_c = commands_view(cands@);
    let ghost all_a = answers.deep_view();
    let mut i: usize = 0;
    assert(all_c.skip(0) =~= all_c);
    assert(all_a.skip(0) =~= all_a);
    loop
        invariant
            i <= cands.len(),
            i <= answers.len(),
            all_c == commands_view(cands@),
            all_a == answers.deep_view(),
            version_search(all_c, all_a) == version_search(all_c.skip(i as int), all_a.skip(i as int)),
        decreases cands.len() - i,
    {
        if i == cands.len() {
            return VersionStep::Done(None);
        }
        if i == answers.len() {
            let (program, arg) = cands[i];
            assert(all_c.skip(i as int)[0] == (program@, arg@));
            return VersionStep::Run { program: program.to_owned(), arg: arg.to_owned() };
        }
        assert(all_a.skip(i as int)[0] == answers[i as int].deep_view());
        assert(all_c.skip(i as int).drop_first() =~= all_c.skip(i + 1));
        assert(all_a.skip(i as int).drop_first() =~= all_a.skip(i + 1));
        if let Some(v) = &answers[i] {
            return VersionStep::Done(Some(v.clone()));
        }
        i = i + 1;
    }
}

/// The commands that may tell the Python version, in the order tried.
pub open spec fn python_commands() -> Seq<(Seq<char>, Seq<char>)> {
    seq![("python"@, "--version"@), ("python3"@, "--version"@), ("py"@, "--version"@)]
}

/// The command that tells the Go version.
pub open spec fn go_commands() -> Seq<(Seq<char>, Seq<char>)> {
    seq![("go"@, "version"@)]
}

/// The command that tells the .NET version.
pub open spec fn dotnet_commands() -> Seq<(Seq<char>, Seq<char>)> {
    seq![("dotnet"@, "--version"@)]
}

/// The next step in learning the Python version: `python --version`, then
/// `python3 --version`, then `py --version`, until one tells a version.
/// `answers` holds what the commands run so far told, in order.
pub fn get_python_version(answers: &Vec<Option<String>>) -> (r: VersionStep)
    ensures
        r@ == version_search(python_commands(), answers.deep_view()),
{
    let cands = vec![("python", "--version"), ("python3", "--version"), ("py", "--version")];
    assert(commands_view(cands@) =~= python_commands());
    search(&cands, answers)
}

/// The next step in learning the Go version, by `go version`.
pub fn go_version_command(answers: &Vec<Option<String>>) -> (r: VersionStep)
    ensures
        r@ == version_search(go_commands(), answers.deep_view()),
{
    let cands = vec![("go", "version")];
    assert(commands_view(cands@) =~= go_commands());
    search(&cands, answers)
}

/// The next step in learning the .NET version, by `dotnet --version`.
pub fn charp_version(answers: &Vec<Option<String>>) -> (r: VersionStep)
    ensures
        r@ == version_search(dotnet_commands(), answers.deep_view()),
{
    let cands = vec![("dotnet", "--version")];
    assert(commands_view(cands@) =~= dotnet_commands());
    search(&cands, answers)
}

/// The commands that tell the toolchain version of a project of this kind;
/// none for an unknown one.
pub open spec fn commands_for(project_type: ProjectType) -> Seq<(Seq<char>, Seq<char>)> {
    match project_type {
        ProjectType::Python(_) => python_commands(),
        ProjectType::CSharp => dotnet_commands(),
        ProjectType::Go => go_commands(),
        ProjectType::Unknown => Seq::empty(),
    }
}

/// The next step in learning the toolchain version of a project of this
/// kind: Python's, .NET's or Go's; for an unknown project there is none.
pub fn select_command(project_type: &ProjectType, answers: &Vec<Option<String>>) -> (r:
    VersionStep)
    ensures
        r@ == version_search(commands_for(*project_type), answers.deep_view()),
{
    match project_type {
        ProjectType::Python(_dep) => get_python_version(answers),
        ProjectType::CSharp => charp_version(answers),
        ProjectType::Go => go_version_command(answers),
        ProjectType::Unknown => VersionStep::Done(None),
    }
}

/// A Python project's version comes from `python --version`, then
/// `python3 --version`, then `py --version`: each is asked only when the
/// ones before told nothing, and the first that tells a version gives it.
pub proof fn law_python_search(d: PythonDependency, answers: Seq<Option<Seq<char>>>)
    ensures
        version_search(commands_for(ProjectType::Python(d)), answers) == version_search(
            python_commands(),
            answers,
        ),
        version_search(python_commands(), answers) == (if answers.len() == 0 {
            StepView::Run("python"@, "--version"@)
        } else if answers[0] is Some {
            StepView::Done(answers[0])
        } else if answers.len() == 1 {
            StepView::Run("python3"@, "--version"@)
        } else if answers[1] is Some {
            StepView::Done(answers[1])
        } else if answers.len() == 2 {
            StepView::Run("py"@, "--version"@)
        } else {
            StepView::Done(answers[2])
        }),
{
    let c = python_commands();
    let c1 = c.drop_first();
    let c2 = c1.drop_first();
    assert(c1 =~= seq![("python3"@, "--version"@), ("py"@, "--version"@)]);
    assert(c2 =~= seq![("py"@, "--version"@)]);
    assert(c2.drop_first() =~= Seq::<(Seq<char>, Seq<char>)>::empty());
    assert(c[0] == ("python"@, "--version"@));
    assert(c1[0] == ("python3"@, "--version"@));
    assert(c2[0] == ("py"@, "--version"@));
    if answers.len() > 0 && answers[0] is None {
        let a1 = answers.drop_first();
        assert(version_search(c, answers) == version_search(c1, a1));
        if a1.len() > 0 {
            assert(a1[0] == answers[1]);
            if a1[0] is None {
                let a2 = a1.drop_first();
                assert(version_search(c1, a1) == version_search(c2, a2));
                if a2.len() > 0 {
                    assert(a2[0] == answers[2]);
                    if a2[0] is None {
                        assert(version_search(c2, a2) == version_search(
                            c2.drop_first(),
                            a2.drop_first(),
                        ));
                    }
                }
            }
        }
    }
}

/// A Go project's version comes from `go version` alone: it is asked first,
/// and its answer ends the search.
pub proof fn law_go_search(answers: Seq<Option<Seq<char>>>)
    ensures
        version_search(commands_for(ProjectType::Go), answers) == version_search(
            go_commands(),
            answers,
        ),
        version_search(go_commands(), answers) == (if answers.len() == 0 {
            StepView::Run("go"@, "version"@)
        } else {
            StepView::Done(answers[0])
        }),
{
    let c = go_commands();
    assert(c.drop_first() =~= Seq::<(Seq<char>, Seq<char>)>::empty());
    if answers.len() > 0 {
        assert(version_search(c.drop_first(), answers.drop_first()) == StepView::Done(None));
    }
}

/// A C# project's version comes from `dotnet --version` alone: it is asked
/// first, and its answer ends the search.
pub proof fn law_dotnet_search(answers: Seq<Option<Seq<char>>>)
    ensures
        version_search(commands_for(ProjectType::CSharp), answers) == version_search(
            dotnet_commands(),
            answers,
        ),
        version_search(dotnet_commands(), answers) == (if answers.len() == 0 {
            StepView::Run("dotnet"@, "--version"@)
        } else {
            StepView::Done(answers[0])
        }),
{
    let c = dotnet_commands();
    assert(c.drop_first() =~= Seq::<(Seq<char>, Seq<char>)>::empty());
    if answers.len() > 0 {
        assert(version_search(c.drop_first(), answers.drop_first()) == StepView::Done(None));
    }
}

/// An unknown project asks no command and has no version.
pub proof fn law_unknown_search(answers: Seq<Option<Seq<char>>>)
    ensures
        version_search(commands_for(ProjectType::Unknown), answers) == StepView::Done(None),
{
}

/// Once every command has answered, the search is over: no command is run
/// twice and none beyond the list.
pub proof fn law_search_ends(cands: Seq<(Seq<char>, Seq<char>)>, answers: Seq<Option<Seq<char>>>)
    requires
        answers.len() >= cands.len(),
    ensures
        version_search(cands, answers) is Done,
    decreases cands.len(),
{
    if cands.len() > 0 && answers[0] is None {
        law_search_ends(cands.drop_first(), answers.drop_first());
    }
}

/// The commands are asked in order until the first one that tells a
/// version: before its answer the search asks each command in turn, and
/// with it the search ends with that version, whatever later answers say.
pub proof fn law_first_answer_wins(
    cands: Seq<(Seq<char>, Seq<char>)>,
    answers: Seq<Option<Seq<char>>>,
    k: int,
)
    requires
        0 <= k < cands.len(),
        k < answers.len(),
        answers[k] is Some,
        forall|j: int| 0 <= j < k ==> answers[j] is None,
    ensures
        forall|j: int|
            0 <= j <= k ==> version_search(cands, #[trigger] answers.take(j)) == StepView::Run(
                cands[j].0,
                cands[j].1,
            ),
        version_search(cands, answers) == StepView::Done(answers[k]),
    decreases k,
{
    if k > 0 {
        let (c, a) = (cands.drop_first(), answers.drop_first());
        assert forall|j: int| 0 <= j < k - 1 implies a[j] is None by {
            assert(a[j] == answers[j + 1]);
        }
        law_first_answer_wins(c, a, k - 1);
        assert forall|j: int| 0 <= j <= k implies version_search(
            cands,
            #[trigger] answers.take(j),
        ) == StepView::Run(cands[j].0, cands[j].1) by {
            if j > 0 {
                assert(answers.take(j).drop_first() =~= a.take(j - 1));
                assert(answers.take(j)[0] == answers[0]);
                assert(c[j - 1] == cands[j]);
            }
        }
    } else {
        assert forall|j: int| 0 <= j <= k implies version_search(
            cands,
            #[trigger] answers.take(j),
        ) == StepView::Run(cands[j].0, cands[j].1) by {
            assert(answers.take(j).len() == 0);
        }
    }
}

/// Where every command answered nothing, the search ends with nothing.
pub proof fn law_no_answer(cands: Seq<(Seq<char>, Seq<char>)>, answers: Seq<Option<Seq<char>>>)
    requires
        answers.len() >= cands.len(),
        forall|j: int| 0 <= j < cands.len() ==> answers[j] is None,
    ensures
        version_search(cands, answers) == StepView::Done(None),
    decreases cands.len(),
{
    if cands.len() > 0 {
        let (c, a) = (cands.drop_first(), answers.drop_first());
        assert forall|j: int| 0 <= j < c.len() implies a[j] is None by {
            assert(a[j] == answers[j + 1]);
        }
        law_no_answer(c, a);
    }
}

} // verus!

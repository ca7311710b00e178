use dockerit::detection::project_type::{detect_project_type, Entry, ProjectType, PythonDependency};
use dockerit::detection::version::{
    charp_version, command_version, get_python_version, go_version_command, select_command,
    CommandOutput, VersionStep,
};

/// Runs a version search to its end, answering each command it asks for
/// with `run`, and records the commands asked.
fn drive(
    step: impl Fn(&Vec<Option<String>>) -> VersionStep,
    run: impl Fn(&str, &str) -> Option<String>,
) -> (Option<String>, Vec<String>) {
    let mut answers = Vec::new();
    let mut asked = Vec::new();
    loop {
        match step(&answers) {
            VersionStep::Run { program, arg } => {
                asked.push(format!("{program} {arg}"));
                answers.push(run(&program, &arg));
            }
            VersionStep::Done(v) => return (v, asked),
        }
    }
}

fn ok(stdout: &str, stderr: &str) -> CommandOutput {
    CommandOutput {
        success: true,
        stdout: stdout.as_bytes().to_vec(),
        stderr: stderr.as_bytes().to_vec(),
    }
}

/// A machine where only `python3` and `go` are installed.
fn machine(program: &str, arg: &str) -> Option<String> {
    match (program, arg) {
        ("python3", "--version") => command_version(Some(&ok("Python 3.11.4\n", ""))),
        ("go", "version") => command_version(Some(&ok("go version go1.21.5 linux/amd64\n", ""))),
        _ => command_version(None),
    }
}

fn entry(name: &str) -> Entry {
    let ext = name.rsplit_once('.').map(|(_, e)| e.to_string());
    Entry { extension: ext, file_name: Some(name.to_string()) }
}

#[test]
fn test_get_python_version_format() {
    if let Some(version) = drive(get_python_version, machine).0 {
        assert!(version.contains("Python") || version.contains("python"));
        assert!(version.chars().any(|c| c.is_ascii_digit()));
    }
    assert_eq!(drive(get_python_version, machine).0, Some("Python 3.11.4".to_string()));
}

#[test]
fn test_get_go_version_format() {
    if let Some(version) = drive(go_version_command, machine).0 {
        assert!(version.contains("go version"));
        assert!(version.chars().any(|c| c.is_ascii_digit()));
    }
    assert_eq!(
        drive(go_version_command, machine).0,
        Some("go version go1.21.5 linux/amd64".to_string())
    );
}

#[test]
fn test_get_project_version_python() {
    let project = detect_project_type(&vec![entry("main.py"), entry("requirements.txt")]);
    assert_eq!(project, ProjectType::Python(PythonDependency::RequirementsTxt));
    if let Some(version) = drive(|a: &Vec<Option<String>>| select_command(&project, a), machine).0 {
        assert!(version.contains("Python") || version.contains("python"));
    }
}

#[test]
fn test_get_project_version_go() {
    let project = detect_project_type(&vec![entry("main.go"), entry("go.mod")]);
    assert_eq!(project, ProjectType::Go);
    if let Some(version) = drive(|a: &Vec<Option<String>>| select_command(&project, a), machine).0 {
        assert!(version.contains("go version"));
    }
}

#[test]
fn test_get_project_version_unknown() {
    let project = detect_project_type(&vec![entry("README.md")]);
    let (version, asked) = drive(|a: &Vec<Option<String>>| select_command(&project, a), machine);
    assert_eq!(version, None);
    assert!(asked.is_empty());
}

#[test]
fn python_commands_are_tried_in_order_until_one_answers() {
    let (version, asked) = drive(get_python_version, machine);
    assert_eq!(version.as_deref(), Some("Python 3.11.4"));
    assert_eq!(asked, vec!["python --version", "python3 --version"]);

    let (version, asked) = drive(get_python_version, |p: &str, _: &str| {
        (p == "python").then(|| "Python 2.7.18".to_string())
    });
    assert_eq!(version.as_deref(), Some("Python 2.7.18"));
    assert_eq!(asked, vec!["python --version"]);
}

#[test]
fn no_python_means_no_version() {
    let (version, asked) = drive(get_python_version, |_: &str, _: &str| None);
    assert_eq!(version, None);
    assert_eq!(asked, vec!["python --version", "python3 --version", "py --version"]);
}

#[test]
fn later_answers_do_not_matter() {
    let answers = vec![None, Some("Python 3.12.0".to_string()), Some("other".to_string())];
    assert_eq!(get_python_version(&answers), VersionStep::Done(Some("Python 3.12.0".to_string())));
}

#[test]
fn each_step_names_the_next_command() {
    assert_eq!(
        get_python_version(&vec![]),
        VersionStep::Run { program: "python".to_string(), arg: "--version".to_string() }
    );
    assert_eq!(
        get_python_version(&vec![None, None]),
        VersionStep::Run { program: "py".to_string(), arg: "--version".to_string() }
    );
    assert_eq!(
        go_version_command(&vec![]),
        VersionStep::Run { program: "go".to_string(), arg: "version".to_string() }
    );
    assert_eq!(go_version_command(&vec![None]), VersionStep::Done(None));
    assert_eq!(
        charp_version(&vec![]),
        VersionStep::Run { program: "dotnet".to_string(), arg: "--version".to_string() }
    );
    assert_eq!(
        charp_version(&vec![Some("8.0.100".to_string())]),
        VersionStep::Done(Some("8.0.100".to_string()))
    );
}

#[test]
fn csharp_projects_ask_dotnet() {
    let (version, asked) = drive(
        |a: &Vec<Option<String>>| select_command(&ProjectType::CSharp, a),
        |p: &str, _: &str| (p == "dotnet").then(|| "8.0.100".to_string()),
    );
    assert_eq!(version.as_deref(), Some("8.0.100"));
    assert_eq!(asked, vec!["dotnet --version"]);
}

#[test]
fn command_version_reads_stdout_then_stderr() {
    assert_eq!(command_version(Some(&ok("  Python 3.9.1 \n", "ignored"))).as_deref(), Some("Python 3.9.1"));
    assert_eq!(command_version(Some(&ok("", "Python 2.7.18\r\n"))).as_deref(), Some("Python 2.7.18"));
}

#[test]
fn command_version_refuses_failures_and_blank_output() {
    assert_eq!(command_version(None), None);
    let failed = CommandOutput { success: false, stdout: b"go version go1.21".to_vec(), stderr: vec![] };
    assert_eq!(command_version(Some(&failed)), None);
    assert_eq!(command_version(Some(&ok(" \n\t", "Python 3"))), None);
    assert_eq!(command_version(Some(&ok("", ""))), None);
}

#[test]
fn command_version_replaces_invalid_utf8() {
    let out = CommandOutput { success: true, stdout: vec![b'v', 0xff, b'1'], stderr: vec![] };
    assert_eq!(command_version(Some(&out)).as_deref(), Some("v\u{fffd}1"));
    let out = CommandOutput { success: true, stdout: "\u{a0}v\u{e9}\u{3000}".as_bytes().to_vec(), stderr: vec![] };
    assert_eq!(command_version(Some(&out)).as_deref(), Some("v\u{e9}"));
}

#[test]
fn valid_utf8_output_is_read_exactly() {
    assert_eq!(command_version(Some(&ok("Python 3.11.4\n", ""))).as_deref(), Some("Python 3.11.4"));
    assert_eq!(command_version(Some(&ok("", "go version go1.22.0 linux/amd64"))).as_deref(), Some("go version go1.22.0 linux/amd64"));
}

use dockerit::detection::project_type::{
    detect_project_type, should_skip_dir, Entry, ProjectType, PythonDependency, ScanState,
};
use std::collections::BTreeSet;
use std::path::Path;

/// The entries that a walk of a project made of `files` meets, in the order
/// of a depth-first walk with sorted names: the project directory itself,
/// then each directory and file, down to depth 5, without entering the
/// directories that `should_skip_dir` names.
fn walk(files: &[&str]) -> Vec<Entry> {
    let mut paths: BTreeSet<String> = BTreeSet::new();
    for file in files {
        let parts: Vec<&str> = file.split('/').collect();
        for n in 1..=parts.len() {
            paths.insert(parts[..n].join("/"));
        }
    }
    let mut entries = vec![entry("project")];
    for p in paths {
        let parts: Vec<&str> = p.split('/').collect();
        if parts.len() > 5 || parts.iter().any(|c| should_skip_dir(c)) {
            continue;
        }
        entries.push(entry(&p));
    }
    entries
}

fn entry(path: &str) -> Entry {
    let path = Path::new(path);
    Entry {
        extension: path.extension().and_then(|e| e.to_str()).map(|e| e.to_string()),
        file_name: path.file_name().and_then(|n| n.to_str()).map(|n| n.to_string()),
    }
}

fn detect(files: &[&str]) -> ProjectType {
    detect_project_type(&walk(files))
}

#[test]
fn test_should_skip_common_dirs() {
    assert!(should_skip_dir("node_modules"));
    assert!(should_skip_dir(".git"));
    assert!(should_skip_dir("target"));
    assert!(should_skip_dir(".venv"));
    assert!(should_skip_dir("__pycache__"));
    assert!(!should_skip_dir("src"));
    assert!(!should_skip_dir("tests"));
}

#[test]
fn skip_list_is_exact() {
    for name in [
        "node_modules", ".git", ".venv", "venv", "__pycache__", "target", "build", "dist",
        ".idea", ".vscode", ".next", "out",
    ] {
        assert!(should_skip_dir(name), "{name}");
    }
    for name in ["", "Target", "node_module", "outs", ".gitignore", "vendor", "builds"] {
        assert!(!should_skip_dir(name), "{name}");
    }
}

#[test]
fn test_detect_python_with_requirements() {
    let project_type = detect(&["main.py", "utils.py", "requirements.txt"]);
    assert_eq!(project_type, ProjectType::Python(PythonDependency::RequirementsTxt));
}

#[test]
fn test_detect_python_with_pyproject() {
    let project_type = detect(&["src/main.py", "pyproject.toml"]);
    assert_eq!(project_type, ProjectType::Python(PythonDependency::PyProjectToml));
}

#[test]
fn test_detect_python_with_setup_py() {
    let project_type = detect(&["src/package/__init__.py", "setup.py"]);
    assert_eq!(project_type, ProjectType::Python(PythonDependency::SetupPy));
}

#[test]
fn test_detect_python_priority() {
    let project_type = detect(&["main.py", "pyproject.toml"]);
    assert_eq!(project_type, ProjectType::Python(PythonDependency::PyProjectToml));
}

#[test]
fn test_detect_go_project_with_mod() {
    let project_type = detect(&["main.go", "utils.go", "go.mod", "go.sum"]);
    assert_eq!(project_type, ProjectType::Go);
}

#[test]
fn test_detect_go_project_without_mod() {
    let project_type = detect(&["main.go", "handler.go"]);
    assert_eq!(project_type, ProjectType::Go);
}

#[test]
fn test_detect_csharp_project() {
    let project_type = detect(&["Program.cs", "MyApp.csproj"]);
    assert_eq!(project_type, ProjectType::CSharp);
}

#[test]
fn test_detect_unknown_project() {
    let project_type = detect(&["README.md", "data.json"]);
    assert_eq!(project_type, ProjectType::Unknown);
}

#[test]
fn test_python_priority_over_other_languages() {
    let project_type = detect(&["main.py", "requirements.txt", "main.go", "go.mod"]);
    match project_type {
        ProjectType::Python(_) => assert!(true),
        _ => panic!("Expected Python project type"),
    }
}

#[test]
fn test_skip_venv_directories() {
    let project_type = detect(&[
        "main.py",
        "requirements.txt",
        ".venv/lib/python3.9/site-packages/package.py",
        "venv/lib/python3.9/site-packages/another.py",
    ]);
    assert_eq!(project_type, ProjectType::Python(PythonDependency::RequirementsTxt));
}

#[test]
fn test_nested_project_structure() {
    let project_type = detect(&[
        "src/main.py",
        "src/utils/helper.py",
        "tests/test_main.py",
        "requirements.txt",
    ]);
    assert_eq!(project_type, ProjectType::Python(PythonDependency::RequirementsTxt));
}

#[test]
fn go_comes_before_csharp() {
    assert_eq!(detect(&["Program.cs", "main.go"]), ProjectType::Go);
    assert_eq!(detect(&["App.csproj", "go.sum"]), ProjectType::Go);
}

#[test]
fn rust_alone_is_unknown() {
    assert_eq!(detect(&["Cargo.toml", "src/main.rs"]), ProjectType::Unknown);
}

#[test]
fn empty_walk_is_unknown() {
    assert_eq!(detect_project_type(&Vec::new()), ProjectType::Unknown);
}

#[test]
fn setup_py_does_not_override_a_dependency_file() {
    let entries = vec![entry("requirements.txt"), entry("setup.py"), entry("app.py")];
    assert_eq!(
        detect_project_type(&entries),
        ProjectType::Python(PythonDependency::RequirementsTxt)
    );
}

#[test]
fn the_last_dependency_file_wins() {
    let entries = vec![entry("requirements.txt"), entry("pyproject.toml")];
    assert_eq!(detect_project_type(&entries), ProjectType::Python(PythonDependency::PyProjectToml));
    let entries = vec![entry("pyproject.toml"), entry("requirements.txt")];
    assert_eq!(
        detect_project_type(&entries),
        ProjectType::Python(PythonDependency::RequirementsTxt)
    );
}

#[test]
fn the_scan_stops_once_everything_is_found() {
    // After a .py file, Go, C# and Rust have all been seen, the scan stops,
    // so a later requirements.txt is never read.
    let entries = vec![
        entry("main.py"),
        entry("main.go"),
        entry("Program.cs"),
        entry("lib.rs"),
        entry("requirements.txt"),
    ];
    assert_eq!(detect_project_type(&entries), ProjectType::Python(PythonDependency::SetupPy));
    // Without the Rust file it reads on to requirements.txt.
    let entries = vec![
        entry("main.py"),
        entry("main.go"),
        entry("Program.cs"),
        entry("requirements.txt"),
    ];
    assert_eq!(
        detect_project_type(&entries),
        ProjectType::Python(PythonDependency::RequirementsTxt)
    );
}

#[test]
fn entries_without_names_teach_nothing() {
    let entries = vec![Entry { extension: None, file_name: None }];
    assert_eq!(detect_project_type(&entries), ProjectType::Unknown);
    // A hidden file has no extension.
    assert_eq!(detect(&[".py"]), ProjectType::Unknown);
}

#[test]
fn scan_state_step_by_step() {
    let mut st = ScanState::new();
    assert_eq!(st.project_type(), ProjectType::Unknown);
    st.observe(&entry("Program.cs"));
    assert_eq!(st.project_type(), ProjectType::CSharp);
    st.observe(&entry("go.mod"));
    assert_eq!(st.project_type(), ProjectType::Go);
    assert!(!st.is_complete());
    st.observe(&entry("Cargo.toml"));
    st.observe(&entry("setup.py"));
    assert!(st.is_complete());
    assert_eq!(st.project_type(), ProjectType::Python(PythonDependency::SetupPy));
}

#[test]
fn dependency_file_wins_without_csharp() {
    // Go and Rust are present but C# is not, so the scan reads every entry.
    let entries = vec![
        entry("main.py"),
        entry("main.go"),
        entry("lib.rs"),
        entry("pyproject.toml"),
        entry("setup.py"),
    ];
    assert_eq!(detect_project_type(&entries), ProjectType::Python(PythonDependency::PyProjectToml));
}

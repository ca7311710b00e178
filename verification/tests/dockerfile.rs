use dockerit::detection::dockerfile::{
    dockerfile_go, generate_docker_content, go_mod_outcome, go_mod_version, is_go_mod,
    GoModOutcome, DOCKERFILE_TEMPLATE, GO_VERSION_PLACEHOLDER,
};

fn some(s: &str) -> Option<String> {
    Some(s.to_string())
}

#[test]
fn go_mod_version_keeps_two_parts() {
    let content = "module example.com/app\n\ngo 1.21.5\n\nrequire github.com/x/y v1.2.3\n";
    assert_eq!(go_mod_version(content), some("1.21"));
    assert_eq!(go_mod_version("go 1.22"), some("1.22"));
    assert_eq!(go_mod_version("go 1"), some("1"));
    assert_eq!(go_mod_version("go 1.2.3.4"), some("1.2"));
}

#[test]
fn go_mod_version_trims_lines() {
    assert_eq!(go_mod_version("module m\r\n   go 1.20.1  \r\n"), some("1.20"));
    assert_eq!(go_mod_version("\tgo 1.19\n"), some("1.19"));
}

#[test]
fn go_mod_version_takes_the_first_directive() {
    assert_eq!(go_mod_version("go 1.18\ngo 1.21.0\n"), some("1.18"));
}

#[test]
fn go_mod_version_needs_a_go_directive() {
    assert_eq!(go_mod_version(""), None);
    assert_eq!(go_mod_version("module m\n"), None);
    assert_eq!(go_mod_version("toolchain go1.21.5\n"), None);
    assert_eq!(go_mod_version("golang 1.2\n"), None);
    assert_eq!(go_mod_version("go\n"), None);
    assert_eq!(go_mod_version("// go 1.2\n"), None);
}

#[test]
fn go_mod_version_keeps_what_follows_the_space() {
    assert_eq!(go_mod_version("go  1.21.3"), some(" 1.21"));
    assert_eq!(go_mod_version("go .5.6"), some(".5"));
}

#[test]
fn dockerfile_go_takes_the_first_declared_version() {
    let mods = vec![some("module a\n"), some("go 1.21.5\n"), some("go 1.19\n")];
    assert_eq!(dockerfile_go(&mods), some("1.21"));
}

#[test]
fn dockerfile_go_stops_at_an_unreadable_file() {
    let mods = vec![some("module a\n"), None, some("go 1.19\n")];
    assert_eq!(dockerfile_go(&mods), None);
    assert_eq!(dockerfile_go(&vec![]), None);
    assert_eq!(dockerfile_go(&vec![some("module a\n")]), None);
}

#[test]
fn is_go_mod_matches_the_name_only() {
    assert!(is_go_mod("go.mod"));
    assert!(!is_go_mod("go.sum"));
    assert!(!is_go_mod("Go.mod"));
    assert!(!is_go_mod("go.mod.bak"));
}

#[test]
fn generated_dockerfile_is_the_template_with_the_version() {
    assert_eq!(GO_VERSION_PLACEHOLDER, "{GO_VERSION}");
    for v in ["1.21", "1.22", "", "{GO_VERSION}"] {
        assert_eq!(generate_docker_content(v), DOCKERFILE_TEMPLATE.replace("{GO_VERSION}", v));
    }
    let content = generate_docker_content("1.21");
    assert!(content.starts_with("FROM golang:1.21-alpine AS builder\n"));
    assert!(content.contains("EXPOSE 8084"));
    assert!(content.ends_with("CMD [\"./app\"]"));
    assert!(!content.contains("{GO_VERSION}"));
}

#[test]
fn go_mod_outcome_decides_per_file() {
    assert_eq!(go_mod_outcome(None), GoModOutcome::Done(None));
    assert_eq!(go_mod_outcome(Some(&"go 1.21.5\n".to_string())), GoModOutcome::Done(some("1.21")));
    assert_eq!(go_mod_outcome(Some(&"module m\n".to_string())), GoModOutcome::KeepLooking);
}

#[test]
fn dockerfile_length_and_read_back() {
    let base = generate_docker_content("");
    for v in ["1.21", "1.9", "x"] {
        let d = generate_docker_content(v);
        assert_eq!(d.chars().count(), v.chars().count() + base.chars().count());
        assert_eq!(&d[12..d.len() - (base.len() - 12)], v);
    }
    assert_ne!(generate_docker_content("1.21"), generate_docker_content("1.22"));
}

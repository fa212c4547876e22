use wrapt::apt::{Change, SearchResult};
use wrapt::doctor::{Check, Status};
use wrapt::history::Entry;
use wrapt::json::{
    check_fields, entry_fields, provided_fields, result_fields, row_fields, upgrade_fields,
    why_fields, Field,
};
use wrapt::listpkgs::Row;
use wrapt::why::Explanation;

fn text(s: &str) -> Field {
    Field::Text(s.to_string())
}

fn texts(v: &[&str]) -> Field {
    Field::Texts(v.iter().map(|s| s.to_string()).collect())
}

fn change(name: &str) -> Change {
    Change {
        name: name.to_string(),
        old: None,
        new: Some("2".to_string()),
        security: true,
    }
}

#[test]
fn a_search_result_without_a_version_has_a_missing_field() {
    let r = SearchResult {
        name: "htop".to_string(),
        version: None,
        description: "viewer".to_string(),
        installed: true,
    };
    assert_eq!(
        result_fields(&r),
        vec![
            ("name", text("htop")),
            ("version", Field::Missing),
            ("description", text("viewer")),
            ("installed", Field::Flag(true)),
        ]
    );
}

#[test]
fn an_installed_package_says_how_it_came() {
    let r = Row {
        name: "htop".to_string(),
        version: "3.4".to_string(),
        auto: true,
        held: false,
    };
    assert_eq!(
        row_fields(&r),
        vec![
            ("name", text("htop")),
            ("version", text("3.4")),
            ("automatic", Field::Flag(true)),
            ("held", Field::Flag(false)),
        ]
    );
}

#[test]
fn an_upgrade_names_both_versions() {
    assert_eq!(
        upgrade_fields(&change("curl")),
        vec![
            ("name", text("curl")),
            ("current", Field::Missing),
            ("candidate", text("2")),
            ("security", Field::Flag(true)),
        ]
    );
}

#[test]
fn an_explanation_lists_its_chain() {
    let e = Explanation {
        package: "libfoo".to_string(),
        installed: true,
        manual: false,
        required_by: vec!["app".to_string()],
        chain: vec!["app".to_string(), "libfoo".to_string()],
        roots: vec![],
    };
    assert_eq!(
        why_fields(&e),
        vec![
            ("package", text("libfoo")),
            ("installed", Field::Flag(true)),
            ("manual", Field::Flag(false)),
            ("required_by", texts(&["app"])),
            ("chain", texts(&["app", "libfoo"])),
            ("roots", texts(&[])),
        ]
    );
}

#[test]
fn a_past_transaction_names_its_packages() {
    let e = Entry {
        id: 7,
        time: 0,
        command: vec!["install".to_string(), "curl".to_string()],
        label: None,
        install: vec![change("curl"), change("libcurl4")],
        remove: vec![change("wget")],
    };
    assert_eq!(
        entry_fields(&e, "2024-01-02 03:04"),
        vec![
            ("id", Field::Number(7)),
            ("date", text("2024-01-02 03:04")),
            ("command", texts(&["install", "curl"])),
            ("label", Field::Missing),
            ("installed", texts(&["curl", "libcurl4"])),
            ("removed", texts(&["wget"])),
        ]
    );
}

#[test]
fn a_check_says_how_it_went() {
    let statuses = [
        (Status::Fine, "ok"),
        (Status::Warn, "warning"),
        (Status::Problem, "problem"),
    ];
    for (status, name) in statuses {
        let c = Check {
            status,
            title: "Held packages".to_string(),
            detail: vec!["curl".to_string()],
            fix: Some("wrapt unhold".to_string()),
        };
        assert_eq!(
            check_fields(&c),
            vec![
                ("status", text(name)),
                ("title", text("Held packages")),
                ("detail", texts(&["curl"])),
                ("fix", text("wrapt unhold")),
            ]
        );
    }
}

#[test]
fn a_provided_file_names_its_package() {
    assert_eq!(
        provided_fields("coreutils", "/bin/ls", true),
        vec![
            ("package", text("coreutils")),
            ("file", text("/bin/ls")),
            ("installed", Field::Flag(true)),
        ]
    );
}

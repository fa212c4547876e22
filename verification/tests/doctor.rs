use wrapt::apt::Output;
use wrapt::doctor::{
    boot_space, broken_packages, duplicate_sources, held_packages, orphans, preview, run, status_name,
    unmet_dependencies, Check, Status,
};
use wrapt::repo::{collect_sources, FoundFile};

fn strings(n: usize) -> Vec<String> {
    (1..=n).map(|i| format!("p{i}")).collect()
}

#[test]
fn a_healthy_system_is_fine() {
    assert_eq!(broken_packages(Some("")).status, Status::Fine);
    assert_eq!(held_packages(&vec![]).status, Status::Fine);
    assert_eq!(orphans(Some("")).status, Status::Fine);
    let out = Output { success: true, stdout: String::new(), stderr: String::new() };
    assert_eq!(unmet_dependencies(Some(&out)).status, Status::Fine);
    assert_eq!(boot_space(&strings(2), Some(1 << 30)).status, Status::Fine);
    assert_eq!(status_name(Status::Fine), "ok");
    assert_eq!(status_name(Status::Warn), "warning");
    assert_eq!(status_name(Status::Problem), "problem");
}

#[test]
fn trouble_is_found() {
    let broken = broken_packages(Some("The following packages are broken:\n htop   viewer\n"));
    assert_eq!(broken.status, Status::Problem);
    let out = Output {
        success: false,
        stdout: String::new(),
        stderr: "E: Unmet dependencies\n".to_string(),
    };
    assert_eq!(unmet_dependencies(Some(&out)).status, Status::Problem);
    let held = held_packages(&strings(1));
    assert_eq!(held.status, Status::Warn);
    assert_eq!(held.title, "1 package(s) held at their current version");
    let files = vec![
        "vmlinuz-6.8.0-31-generic".to_string(),
        "initrd.img".to_string(),
        "vmlinuz-6.8.0-40-generic".to_string(),
    ];
    let boot = boot_space(&files, Some(1024));
    assert_eq!(boot.status, Status::Warn);
    assert_eq!(boot.detail, ["2 kernel(s) installed"]);
    assert_eq!(boot_space(&files, None).title, "/boot has adequate space (2 kernels)");
    assert_eq!(orphans(Some("Remv old [1]\n")).status, Status::Warn);
}

fn found(extension: &str, text: &str) -> FoundFile {
    FoundFile {
        path: format!("/etc/apt/sources.list.d/x.{extension}"),
        extension: extension.to_string(),
        text: text.to_string(),
    }
}

fn duplicates(files: Vec<FoundFile>) -> Check {
    duplicate_sources(&collect_sources(&files))
}

#[test]
fn repeated_sources_are_found_across_files() {
    let one = "deb http://x/y noble main\n";
    assert_eq!(duplicates(vec![found("list", one)]).status, Status::Fine);
    let twice = duplicates(vec![found("list", one), found("list", one)]);
    assert_eq!(twice.status, Status::Warn);
    assert_eq!(twice.title, "1 duplicate apt source line(s)");
    assert_eq!(twice.detail, ["http://x/y noble main"]);
    // Spaces and comments do not matter; options and what is disabled do.
    let spaced = "deb  http://x/y   noble main # again\n";
    assert_eq!(duplicates(vec![found("list", one), found("list", spaced)]).status, Status::Warn);
    for other in [
        "# deb http://x/y noble main\n",
        "deb-src http://x/y noble main\n",
        "deb [arch=i386] http://x/y noble main\n",
    ] {
        let v = vec![found("list", one), found("list", other)];
        assert_eq!(duplicates(v).status, Status::Fine);
    }
    let options = "deb [arch=amd64 trusted=yes] http://x/y noble main\n";
    let v = duplicates(vec![found("list", options), found("list", options)]);
    assert_eq!(v.detail, ["[arch=amd64 trusted=yes] http://x/y noble main"]);
}

#[test]
fn repeated_sources_are_found_in_stanzas() {
    let stanza = "Types: deb deb-src\nURIs: http://x/y\nSuites: noble\nComponents: main\n";
    assert_eq!(duplicates(vec![found("sources", stanza)]).status, Status::Fine);
    let twice = duplicates(vec![found("sources", stanza), found("sources", stanza)]);
    assert_eq!(twice.detail, ["http://x/y noble main"]);
    let line = "deb http://x/y noble main\n";
    let mixed = duplicates(vec![found("sources", stanza), found("list", line)]);
    assert_eq!(mixed.detail, ["http://x/y noble main"]);
    let off = format!("{stanza}Enabled: no\n");
    assert_eq!(
        duplicates(vec![found("sources", &off), found("list", line)]).status,
        Status::Fine
    );
}

#[test]
fn long_details_are_cut_short() {
    assert_eq!(preview(&strings(8)).len(), 8);
    let v = preview(&strings(10));
    assert_eq!(v.len(), 9);
    assert_eq!(v[8], "… and 2 more");
}

#[test]
fn the_checks_are_shown_with_a_summary() {
    let good = run(false, &vec![held_packages(&vec![])]);
    let bad = run(false, &vec![held_packages(&strings(2)), broken_packages(Some(" x\n"))]);
    assert!(good.len() >= 2);
    assert!(bad.len() > good.len());
}

use wrapt::cli::RepoCmd;
use wrapt::repo::{
    collect_sources, count_sources, finish, list, parse_deb822, parse_file, parse_one_line, run,
    FoundFile, Ran, SourceFile, Todo,
};
use wrapt::ui::Line;

#[test]
fn parses_one_line_sources() {
    let text = "\
# a comment\n\
deb http://archive.ubuntu.com/ubuntu noble main universe\n\
deb-src [arch=amd64] http://archive.ubuntu.com/ubuntu noble main\n\
# deb http://disabled.example/ubuntu noble main\n";
    let s = parse_one_line(text);
    assert_eq!(s.len(), 3);
    assert_eq!(s[0].kind, "deb");
    assert_eq!(s[0].uri, "http://archive.ubuntu.com/ubuntu");
    assert_eq!(s[0].suite, "noble");
    assert_eq!(s[0].components, "main universe");
    assert!(s[0].enabled);
    // The [arch=amd64] option group is skipped, not mistaken for the URI.
    assert_eq!(s[1].uri, "http://archive.ubuntu.com/ubuntu");
    // The commented `deb` line is surfaced but marked disabled.
    assert!(!s[2].enabled);
}

#[test]
fn parses_deb822_sources() {
    let text = "\
Types: deb\n\
URIs: http://archive.ubuntu.com/ubuntu\n\
Suites: noble noble-updates\n\
Components: main universe\n\
Enabled: yes\n";
    let s = parse_deb822(text);
    assert_eq!(s.len(), 2); // one per suite
    assert_eq!(s[0].suite, "noble");
    assert_eq!(s[1].suite, "noble-updates");
    assert_eq!(s[0].components, "main universe");
    assert!(s[0].enabled);
}

#[test]
fn deb822_enabled_no_is_disabled() {
    let text = "Types: deb\nURIs: http://x/y\nSuites: noble\nEnabled: no\n";
    let s = parse_deb822(text);
    assert_eq!(s.len(), 1);
    assert!(!s[0].enabled);
}

#[test]
fn a_file_is_read_by_its_extension() {
    let line = "deb http://x/y noble main\n";
    assert_eq!(parse_file("list", line).unwrap().len(), 1);
    assert_eq!(parse_file("sources", line).unwrap().len(), 0);
    assert!(parse_file("save", line).is_none());
}

#[test]
fn sources_are_counted_and_listed() {
    let files = vec![SourceFile {
        path: "/etc/apt/sources.list".to_string(),
        sources: parse_one_line("deb http://x/y noble main\n# deb http://z noble main\n"),
    }];
    assert_eq!(count_sources(&files), Some(2));
    let out = list(false, "/etc/apt", &files);
    let text: Vec<&str> = out
        .iter()
        .map(|l| match l {
            Line::Out(t) => t.as_str(),
            Line::Error(t) => t.as_str(),
        })
        .collect();
    assert!(text.iter().any(|l| l.contains("http://x/y")));
}

fn found(path: &str, extension: &str, text: &str) -> FoundFile {
    FoundFile {
        path: path.to_string(),
        extension: extension.to_string(),
        text: text.to_string(),
    }
}

#[test]
fn files_without_sources_are_left_out() {
    let line = "deb http://x/y noble main\n";
    let files = collect_sources(&vec![
        found("/etc/apt/sources.list", "list", "# nothing here\n"),
        found("/etc/apt/sources.list.d/a.list", "list", line),
        found("/etc/apt/sources.list.d/b.save", "save", line),
    ]);
    assert_eq!(files.len(), 1);
    assert_eq!(files[0].path, "/etc/apt/sources.list.d/a.list");
    assert_eq!(files[0].sources[0].uri, "http://x/y");
}

#[test]
fn a_source_is_added_on_a_yes() {
    let add = |yes| RepoCmd::Add { repo: "ppa:x/y".to_string(), yes };
    match run(false, &add(false)) {
        Todo::Modify { question, header, args, remove, .. } => {
            assert_eq!(question.as_deref(), Some("Add source 'ppa:x/y'?"));
            assert_eq!(header, ":: Adding ppa:x/y...");
            assert_eq!(args, ["-y", "ppa:x/y"]);
            assert!(!remove);
        }
        Todo::List => panic!("adding is no listing"),
    }
    let remove = RepoCmd::Remove { repo: "ppa:x/y".to_string(), yes: true };
    match run(false, &remove) {
        Todo::Modify { question, args, .. } => {
            assert_eq!(question, None);
            assert_eq!(args, ["-y", "--remove", "ppa:x/y"]);
        }
        Todo::List => panic!("removing is no listing"),
    }
    assert!(matches!(run(false, &RepoCmd::List), Todo::List));
}

#[test]
fn the_outcome_is_told() {
    let done = finish(false, "ppa:x/y", false, &Ran::Done(true)).unwrap();
    assert_eq!(done[0], Line::Out("✓ Added ppa:x/y.".to_string()));
    assert_eq!(done.len(), 2);
    let done = finish(false, "ppa:x/y", true, &Ran::Done(true)).unwrap();
    assert_eq!(done, [Line::Out("✓ Removed ppa:x/y.".to_string())]);
    let err = |ran| finish(false, "ppa:x/y", false, &ran).unwrap_err();
    assert_eq!(err(Ran::Done(false)), "add-apt-repository failed");
    assert!(err(Ran::Missing).starts_with("add-apt-repository not found"));
    assert_eq!(
        err(Ran::Failed("no memory".to_string())),
        "failed to run add-apt-repository: no memory"
    );
}

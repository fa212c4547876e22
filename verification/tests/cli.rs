use wrapt::cli::{resolve_options, run, supports_json, Cli, Command, Job, RepoCmd, Shell, TxOpts};
use wrapt::config::Config;

fn cli(command: Command) -> Cli {
    Cli { command, parallel: None, verbose: false, json: false, dry_run: false }
}

fn strings(v: &[&str]) -> Vec<String> {
    v.iter().map(|s| s.to_string()).collect()
}

#[test]
fn flags_beat_settings_beat_defaults() {
    let mut c = cli(Command::Autoremove { yes: false });
    let mut cfg = Config::default();
    assert_eq!(
        resolve_options(&c, &cfg),
        TxOpts { yes: false, jobs: 5, verbose: false, dry_run: false, history_limit: 1000 }
    );
    cfg.parallel = Some(8);
    cfg.assume_yes = Some(true);
    cfg.verbose = Some(true);
    cfg.history_limit = Some(10);
    assert_eq!(
        resolve_options(&c, &cfg),
        TxOpts { yes: true, jobs: 8, verbose: true, dry_run: false, history_limit: 10 }
    );
    c.parallel = Some(0);
    c.dry_run = true;
    let o = resolve_options(&c, &cfg);
    assert_eq!(o.jobs, 1);
    assert!(o.dry_run);
    let yes = cli(Command::Upgrade { yes: true, full: false, security_only: false });
    assert!(resolve_options(&yes, &Config::default()).yes);
}

#[test]
fn json_is_refused_where_it_would_be_ignored() {
    let mut c = cli(Command::Update);
    c.json = true;
    assert_eq!(
        run(c, &Config::default()).err().unwrap(),
        "--json is not supported by this command — it works with search, list, why, history, doctor, held, and provides"
    );
    for command in [
        Command::Search { query: "a".to_string() },
        Command::List { upgradable: false, manual: false, pattern: None },
        Command::Why { package: "a".to_string(), all: false },
        Command::History { id: None },
        Command::Doctor,
        Command::Held,
        Command::Provides { pattern: "a".to_string() },
    ] {
        assert!(supports_json(&command));
        let mut c = cli(command);
        c.json = true;
        assert!(run(c, &Config::default()).is_ok());
    }
}

#[test]
fn packages_become_arguments() {
    let job = |command| run(cli(command), &Config::default()).unwrap().0;
    match job(Command::Remove { packages: strings(&["a", "b"]), yes: false, purge: true }) {
        Job::Transaction { args, named, action } => {
            assert_eq!(args, ["purge", "a", "b"]);
            assert_eq!(named, ["a", "b"]);
            assert_eq!(action, "Removing packages...");
        }
        other => panic!("{other:?}"),
    }
    match job(Command::Remove { packages: strings(&["a"]), yes: false, purge: false }) {
        Job::Transaction { args, .. } => assert_eq!(args, ["remove", "a"]),
        other => panic!("{other:?}"),
    }
    match job(Command::Reinstall { packages: strings(&["a"]), yes: false }) {
        Job::Transaction { args, named, action } => {
            assert_eq!(args, ["install", "--reinstall", "a"]);
            assert_eq!(named, ["a"]);
            assert_eq!(action, "Reinstalling packages...");
        }
        other => panic!("{other:?}"),
    }
    match job(Command::Autoremove { yes: false }) {
        Job::Transaction { args, named, .. } => {
            assert_eq!(args, ["autoremove"]);
            assert!(named.is_empty());
        }
        other => panic!("{other:?}"),
    }
}

#[test]
fn settings_reach_the_commands() {
    let mut cfg = Config::default();
    let clean = || cli(Command::Clean { all: false, kernels: true });
    assert!(matches!(run(clean(), &cfg).unwrap().0, Job::CleanKernels { keep: 2 }));
    cfg.keep_kernels = Some(4);
    assert!(matches!(run(clean(), &cfg).unwrap().0, Job::CleanKernels { keep: 4 }));
    cfg.mirror_country = Some("AU".to_string());
    let fetch = |country| cli(Command::Fetch { apply: false, count: 10, country });
    match run(fetch(None), &cfg).unwrap().0 {
        Job::Fetch { country, .. } => assert_eq!(country.as_deref(), Some("AU")),
        other => panic!("{other:?}"),
    }
    match run(fetch(Some("DE".to_string())), &cfg).unwrap().0 {
        Job::Fetch { country, .. } => assert_eq!(country.as_deref(), Some("DE")),
        other => panic!("{other:?}"),
    }
    cfg.notify_updates = Some(true);
    let up = cli(Command::Upgrade { yes: false, full: true, security_only: false });
    assert!(matches!(
        run(up, &cfg).unwrap().0,
        Job::Upgrade { full: true, security_only: false, notify: true }
    ));
}

#[test]
fn a_lookup_needs_a_command_or_a_shell() {
    let ask = |command, init| run(cli(Command::CommandNotFound { command, init }), &Config::default());
    assert_eq!(
        ask(None, None).err().unwrap(),
        "a command name (or --init <shell>) is required"
    );
    assert!(matches!(
        ask(Some("a".to_string()), Some(Shell::Fish)).unwrap().0,
        Job::Hook { shell: Shell::Fish }
    ));
    assert!(matches!(ask(Some("a".to_string()), None).unwrap().0, Job::Lookup { .. }));
    assert_eq!(Shell::Zsh.name(), "zsh");
}

#[test]
fn a_dry_run_of_any_command_changes_nothing() {
    let preview = |command| {
        let mut c = cli(command);
        c.dry_run = true;
        run(c, &Config::default()).unwrap().0
    };
    for (command, text) in [
        (Command::Update, "Would refresh the package lists."),
        (Command::Hold { packages: strings(&["a", "b"]) }, "Would hold: a, b"),
        (Command::Unhold { packages: strings(&["a"]) }, "Would release: a"),
        (
            Command::Download { packages: strings(&["a"]) },
            "Would download into the current directory: a",
        ),
        (
            Command::Clean { all: true, kernels: false },
            "Would remove every downloaded package from the cache.",
        ),
        (
            Command::Clean { all: false, kernels: false },
            "Would remove outdated packages from the cache.",
        ),
        (
            Command::Repo { action: RepoCmd::Add { repo: "ppa:a/b".to_string(), yes: true } },
            "Would add the repository ppa:a/b",
        ),
        (
            Command::Repo { action: RepoCmd::Remove { repo: "ppa:a/b".to_string(), yes: true } },
            "Would remove the repository ppa:a/b",
        ),
        (Command::Config { init: true, path: false }, "Would write a starter config."),
    ] {
        match preview(command) {
            Job::Preview { would } => assert_eq!(would, text),
            other => panic!("{other:?}"),
        }
    }
    assert!(matches!(
        preview(Command::Fetch { apply: true, count: 10, country: None }),
        Job::Fetch { apply: false, .. }
    ));
    assert!(matches!(preview(Command::SelfUpdate { check: false }), Job::SelfUpdate { check: true }));
    assert!(matches!(
        preview(Command::Repo { action: RepoCmd::List }),
        Job::Repo { action: RepoCmd::List }
    ));
}

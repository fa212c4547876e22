use wrapt::apt::{Change, DiskUsage, Transaction};
use wrapt::cli::TxOpts;
use wrapt::names::Names;
use wrapt::transact::{
    archives_dir, collateral_of, download_header, fetch_header, next, not_recorded, outcome_line,
    run_args, show_plan, show_sizes, Outcome, Reply, Step,
};
use wrapt::ui::Line;

fn opts(yes: bool, dry_run: bool) -> TxOpts {
    TxOpts { yes, jobs: 5, verbose: false, dry_run, history_limit: 1000 }
}

fn change(name: &str, old: Option<&str>, new: Option<&str>) -> Change {
    Change {
        name: name.to_string(),
        old: old.map(Into::into),
        new: new.map(Into::into),
        security: false,
    }
}

#[test]
fn a_dry_run_stops_at_the_plan() {
    let o = opts(true, true);
    assert_eq!(next(&o, Reply::Begin), Step::Simulate);
    assert_eq!(next(&o, Reply::Simulated { empty: false }), Step::Plan);
    assert_eq!(
        next(&o, Reply::Planned { safe: true, downloads: true }),
        Step::Stop(Outcome::DryRun)
    );
    assert_eq!(
        outcome_line(false, Outcome::DryRun),
        Line::Out("✓ Dry run — nothing was changed.".to_string())
    );
}

#[test]
fn the_user_is_asked_before_anything_happens() {
    let o = opts(false, false);
    assert_eq!(next(&o, Reply::Begin), Step::CheckRoot);
    assert_eq!(next(&o, Reply::Root), Step::Simulate);
    assert_eq!(
        next(&o, Reply::Simulated { empty: true }),
        Step::Stop(Outcome::NothingToDo)
    );
    assert_eq!(
        next(&o, Reply::Planned { safe: false, downloads: true }),
        Step::Ask { default_yes: false }
    );
    assert_eq!(
        next(&o, Reply::Planned { safe: true, downloads: true }),
        Step::Ask { default_yes: true }
    );
    assert_eq!(
        next(&o, Reply::Answered { yes: false, downloads: true }),
        Step::Stop(Outcome::Aborted)
    );
    assert_eq!(next(&o, Reply::Answered { yes: true, downloads: true }), Step::Download);
    assert_eq!(next(&o, Reply::Answered { yes: true, downloads: false }), Step::Run);
    assert_eq!(next(&o, Reply::Downloaded), Step::Run);
    assert_eq!(
        outcome_line(false, Outcome::Aborted),
        Line::Error("! Aborted.".to_string())
    );
    assert_eq!(
        outcome_line(false, Outcome::NothingToDo),
        Line::Out("✓ Nothing to do — everything is up to date.".to_string())
    );
}

#[test]
fn yes_skips_the_question() {
    let o = opts(true, false);
    assert_eq!(next(&o, Reply::Planned { safe: false, downloads: false }), Step::Run);
    assert_eq!(next(&o, Reply::Planned { safe: true, downloads: true }), Step::Download);
}

#[test]
fn what_goes_unasked_is_pointed_out() {
    let tx = Transaction {
        install: vec![],
        remove: vec![
            change("ripgrep", Some("14.1"), None),
            change("libfoo", Some("1.0"), None),
            change("nano", Some("7.2"), None),
        ],
    };
    let manual = Names::of(&vec!["ripgrep".to_string(), "nano".to_string()]);
    let named = vec!["nano".to_string()];
    assert_eq!(collateral_of(&tx, &manual, &named), ["ripgrep"]);
    let (lines, safe) = show_plan(false, &tx, &manual, &named);
    assert!(!safe);
    assert_eq!(
        lines[1..],
        [
            Line::Error("! This will also remove 1 package you installed manually:".to_string()),
            Line::Error("    ripgrep".to_string()),
            Line::Out(String::new()),
        ]
    );
    let both = vec!["nano".to_string(), "ripgrep".to_string()];
    let (lines, safe) = show_plan(false, &tx, &manual, &both);
    assert!(safe);
    assert_eq!(lines.len(), 1);
}

#[test]
fn the_sizes_of_a_plan_are_shown() {
    let disk = DiskUsage { installed: 440 * 1024, net_change: -2048 };
    assert_eq!(
        show_sizes(false, 1, 177 * 1024, Some(&disk)),
        [
            "   Total download size:  177.0 KiB",
            "   Total installed size: 440.0 KiB",
            "   Net disk change: -2.0 KiB",
            "",
        ]
        .map(|t| Line::Out(t.to_string()))
    );
    let fresh = DiskUsage { installed: 1024, net_change: 1024 };
    assert_eq!(
        show_sizes(false, 0, 0, Some(&fresh)),
        ["   Total installed size: 1.0 KiB", ""].map(|t| Line::Out(t.to_string()))
    );
    let grown = DiskUsage { installed: 4096, net_change: 1024 };
    assert_eq!(
        show_sizes(false, 0, 0, Some(&grown))[1],
        Line::Out("   Net disk change: +1.0 KiB".to_string())
    );
    let least = DiskUsage { installed: 0, net_change: i64::MIN };
    assert_eq!(show_sizes(false, 0, 0, Some(&least)).len(), 2);
    assert_eq!(show_sizes(false, 0, 0, None), [Line::Out(String::new())]);
}

#[test]
fn apt_is_told_of_another_cache() {
    let args = vec!["install".to_string(), "htop".to_string()];
    assert_eq!(
        run_args(&args, Some("/tmp/c")),
        ["-o", "Dir::Cache::archives=/tmp/c", "install", "htop"]
    );
    assert_eq!(run_args(&args, None), ["install", "htop"]);
    assert_eq!(archives_dir(None), ("/var/cache/apt/archives".to_string(), false));
    assert_eq!(archives_dir(Some("/tmp/c")), ("/tmp/c".to_string(), true));
    assert_eq!(download_header(false, 1), ":: Downloading 1 package...");
    assert_eq!(fetch_header(false, 2), ":: Fetching 2 remote packages...");
    assert_eq!(not_recorded(false, "full"), "! could not record history: full");
}

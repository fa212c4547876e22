use wrapt::apt::{Change, Transaction};
use wrapt::commands::{
    clean_kernels, cleaned_line, dir_size, downloaded_line, held_lines, history_header,
    history_lines, hold_line, install_args, no_packages, plan_done, plan_empty, redo, rollback,
    security_upgrade, select, undo, updated_line, upgrade, upgrade_op, Decision,
};
use wrapt::history::Entry;
use wrapt::ui::Line;

fn change(name: &str, old: Option<&str>, new: Option<&str>, security: bool) -> Change {
    Change {
        name: name.to_string(),
        old: old.map(Into::into),
        new: new.map(Into::into),
        security,
    }
}

fn entry(id: u64) -> Entry {
    Entry {
        id,
        time: 0,
        command: vec!["install".to_string(), format!("p{id}")],
        label: None,
        install: vec![change(&format!("p{id}"), None, Some("1"), false)],
        remove: vec![],
    }
}

fn out(text: &str) -> Line {
    Line::Out(text.to_string())
}

#[test]
fn only_security_fixes_are_picked() {
    assert_eq!(upgrade_op(true), "dist-upgrade");
    assert_eq!(upgrade(false).args, ["upgrade"]);
    let tx = Transaction {
        install: vec![
            change("openssl", Some("1"), Some("2"), true),
            change("curl", Some("1"), Some("2"), false),
        ],
        remove: vec![],
    };
    match security_upgrade(false, &tx) {
        Decision::Ask(None, r) => {
            assert_eq!(r.args, ["install", "openssl"]);
            assert_eq!(r.named, ["openssl"]);
            assert_eq!(r.action, "Applying security updates...");
            assert_eq!(r.label, None);
        }
        other => panic!("{other:?}"),
    }
    let none = Transaction { install: vec![], remove: vec![] };
    match security_upgrade(false, &none) {
        Decision::Say(l) => assert_eq!(l, out("✓ No security updates pending.")),
        other => panic!("{other:?}"),
    }
}

#[test]
fn old_kernels_are_purged_as_any_transaction() {
    match clean_kernels(false, vec!["linux-image-1".to_string()], 2) {
        Decision::Ask(None, r) => {
            assert_eq!(r.args, ["purge", "linux-image-1"]);
            assert_eq!(r.named, ["linux-image-1"]);
        }
        other => panic!("{other:?}"),
    }
    match clean_kernels(false, vec![], 2) {
        Decision::Say(l) => assert_eq!(
            l,
            out("✓ No old kernels to remove — the newest 2 (and the running one) are all that's installed.")
        ),
        other => panic!("{other:?}"),
    }
}

#[test]
fn past_transactions_are_undone_and_redone() {
    let e = entry(6);
    match undo(false, &e, "2023-11-14 22:13") {
        Decision::Ask(Some(l), r) => {
            assert_eq!(l, out(":: Undoing transaction 6 (install p6 — 2023-11-14 22:13)"));
            assert_eq!(r.args, ["install", "--allow-downgrades", "p6-"]);
            assert_eq!(r.label.as_deref(), Some("undo #6"));
            assert_eq!(r.action, "Reverting...");
        }
        other => panic!("{other:?}"),
    }
    match redo(false, &e) {
        Decision::Ask(Some(l), r) => {
            assert_eq!(l, out(":: Re-applying transaction 6 (install p6)"));
            assert_eq!(r.args, ["install", "p6"]);
            assert_eq!(r.label.as_deref(), Some("redo #6"));
        }
        other => panic!("{other:?}"),
    }
}

#[test]
fn a_rollback_needs_a_known_point() {
    let es = vec![entry(1), entry(2), entry(3)];
    assert_eq!(rollback(false, &es, 9).err().unwrap(), "no transaction 9 in history");
    match rollback(false, &es, 3).unwrap() {
        Decision::Say(l) => {
            assert_eq!(l, out("✓ Already at transaction 3 — nothing to roll back."))
        }
        other => panic!("{other:?}"),
    }
    match rollback(false, &es, 1).unwrap() {
        Decision::Ask(Some(l), r) => {
            assert_eq!(l, out(":: Rolling back 2 transaction(s) to the state after #1"));
            assert!(r.args.contains(&"p2-".to_string()) && r.args.contains(&"p3-".to_string()));
            assert_eq!(r.label.as_deref(), Some("rollback to #1"));
        }
        other => panic!("{other:?}"),
    }
    assert!(matches!(rollback(false, &es, 0).unwrap(), Decision::Ask(..)));
    assert!(matches!(rollback(false, &vec![], 0).unwrap(), Decision::Say(_)));
}

#[test]
fn a_rollback_goes_by_number_not_by_place() {
    let step = |id: u64, old: &str, new: &str| {
        let mut e = entry(id);
        e.install[0].name = "p".to_string();
        e.install[0].old = Some(old.to_string());
        e.install[0].new = Some(new.to_string());
        e
    };
    // A recovered file: #3 stands before #2.
    let es = vec![entry(1), step(3, "2", "3"), step(2, "1", "2")];
    match rollback(false, &es, 1).unwrap() {
        Decision::Ask(_, r) => {
            assert_eq!(r.args, ["install", "--allow-downgrades", "p=1"]);
        }
        other => panic!("{other:?}"),
    }
}

#[test]
fn holding_reports_what_changed() {
    let two = vec!["a".to_string(), "b".to_string()];
    assert_eq!(hold_line(false, true, &two, 2), out("✓ Held 2 packages."));
    assert_eq!(hold_line(false, false, &two, 1), out("✓ Unheld 1 package."));
    assert_eq!(
        hold_line(false, true, &two, 0),
        out("✓ Nothing changed (a, b already in that state).")
    );
    assert_eq!(no_packages(false), Line::Error("! No packages given.".to_string()));
    assert_eq!(held_lines(false, &vec![]), [out("✓ No packages are held.")]);
    assert_eq!(
        held_lines(false, &two),
        [out(":: Held packages (2)"), out("   a"), out("   b")]
    );
}

#[test]
fn the_history_is_a_table() {
    let es = vec![entry(1), entry(12)];
    let dates = vec!["2023-11-14 22:13".to_string(), "?".to_string()];
    assert_eq!(
        history_lines(false, &es, &dates),
        [
            out("    ID  Date              Action"),
            out("     1  2023-11-14 22:13  install p1  (+1 ~0 -0)"),
            out("    12  ?                 install p12  (+1 ~0 -0)"),
        ]
    );
    assert_eq!(
        history_lines(true, &es[..0].iter().map(|_| entry(0)).collect(), &vec![]).len(),
        1
    );
    assert_eq!(
        history_header(false, &es[0], "today"),
        out(":: Transaction 1 — today — wrapt install p1")
    );
    // Escapes do not count for the width of a column.
    match &history_lines(true, &es, &dates)[1] {
        Line::Out(t) => assert!(t.starts_with("  \x1b[36m   1\x1b[0m  ")),
        other => panic!("{other:?}"),
    }
    let found = select(es, Some(12));
    assert_eq!(found.len(), 1);
    assert_eq!(found[0].id, 12);
    assert_eq!(select(found, None).len(), 1);
}

#[test]
fn the_end_of_a_command_is_told() {
    assert_eq!(updated_line(false, 0), out("✓ All packages are up to date."));
    assert_eq!(
        updated_line(false, 1),
        out("✓ 1 package can be upgraded (run wrapt upgrade).")
    );
    assert_eq!(
        downloaded_line(false, 2, 2048, "/tmp"),
        out("✓ Downloaded 2 files (2.0 KiB) to /tmp.")
    );
    assert_eq!(cleaned_line(false, 2048, 1024), out("✓ Freed 1.0 KiB."));
    assert_eq!(
        cleaned_line(false, 1024, 2048),
        out("✓ Nothing to clean — the package cache is already empty.")
    );
    assert_eq!(dir_size(&vec![1, 2, 3]), Some(6));
    assert_eq!(dir_size(&vec![u64::MAX, 1]), None);
    assert_eq!(
        plan_empty(false),
        out("✓ Nothing to do — those packages are already installed and up to date.")
    );
    assert_eq!(
        plan_done(false),
        out("✓ Preview only — run `wrapt install …` to apply.")
    );
    assert_eq!(install_args(&vec!["a".to_string()]), ["install", "a"]);
}

use wrapt::apt::{Change, Transaction};
use wrapt::history::{after, find, highest_id, knows, next_id, record, rollback_args, Entry};

fn entry(id: u64, command: &[&str], label: Option<&str>) -> Entry {
    Entry {
        id,
        time: 0,
        command: command.iter().map(|s| s.to_string()).collect(),
        label: label.map(Into::into),
        install: vec![],
        remove: vec![],
    }
}

fn change(name: &str, old: Option<&str>, new: Option<&str>) -> Change {
    Change {
        name: name.into(),
        old: old.map(Into::into),
        new: new.map(Into::into),
        security: false,
    }
}

#[test]
fn next_id_is_one_past_the_highest() {
    assert_eq!(next_id(&vec![]), 1);
    assert_eq!(next_id(&vec![entry(1, &["install"], None)]), 2);
    // A dropped/corrupt tail line leaves a lower id last; the next id must
    // still clear every id on file rather than collide with #3.
    let recovered = vec![
        entry(1, &["install"], None),
        entry(3, &["upgrade"], None),
        entry(2, &["remove"], None),
    ];
    assert_eq!(next_id(&recovered), 4);
}

#[test]
fn summary_prefers_the_label_over_raw_args() {
    // Undo records a pile of pinned versions; the label is what's legible.
    let e = entry(
        7,
        &["install", "--allow-downgrades", "htop=1"],
        Some("undo #6"),
    );
    assert!(e.summary().starts_with("undo #6"));
    // Without a label it still falls back to the command (old history files).
    let e = entry(7, &["install", "htop"], None);
    assert!(e.summary().starts_with("install htop"));
}

#[test]
fn rollback_restores_earliest_pre_state() {
    // #1 installed htop (new); #2 upgraded htop 1→2 and removed vlc.
    let entries = vec![
        Entry {
            id: 1,
            time: 0,
            command: vec!["install".into(), "htop".into()],
            label: None,
            install: vec![change("htop", None, Some("1"))],
            remove: vec![],
        },
        Entry {
            id: 2,
            time: 0,
            command: vec!["upgrade".into()],
            label: None,
            install: vec![change("htop", Some("1"), Some("2"))],
            remove: vec![change("vlc", Some("3"), None)],
        },
    ];
    // Rolling back both should remove htop (wasn't installed before #1)
    // and reinstall vlc at version 3.
    let args = rollback_args(&entries);
    assert!(args.contains(&"htop-".to_string()));
    assert!(args.contains(&"vlc=3".to_string()));
    // htop's target is its earliest pre-state (None), not the #2 old ("1").
    assert!(!args.iter().any(|a| a == "htop=1"));
}

#[test]
fn undoing_asks_for_the_old_state() {
    let e = Entry {
        id: 5,
        time: 0,
        command: vec!["upgrade".into()],
        label: None,
        install: vec![change("new", None, Some("1")), change("up", Some("1"), Some("2"))],
        remove: vec![change("gone", Some("3"), None), change("odd", None, None)],
    };
    assert_eq!(
        e.undo_args(),
        ["install", "--allow-downgrades", "new-", "up=1", "gone=3", "odd"]
    );
    assert_eq!(e.summary(), "upgrade  (+1 ~1 -2)");
    let tx = e.to_transaction();
    assert_eq!(tx.install.len(), 2);
    assert_eq!(tx.remove[0].name, "gone");
}

#[test]
fn a_date_is_written_in_the_given_zone() {
    let mut e = entry(1, &["upgrade"], None);
    assert_eq!(e.date(Some(0)), "1970-01-01 00:00");
    assert_eq!(e.date(Some(3600)), "1970-01-01 01:00");
    e.time = 1_700_000_000;
    assert_eq!(e.date(Some(0)), "2023-11-14 22:13");
    assert_eq!(e.date(None), "?");
    e.time = i64::MAX;
    assert_eq!(e.date(Some(0)), "?");
}

#[test]
fn entries_are_found_by_number() {
    let es = vec![entry(1, &["a"], None), entry(2, &["b"], None), entry(4, &["c"], None)];
    assert_eq!(find(&es, Some(2)).unwrap().command, ["b"]);
    assert_eq!(find(&es, None).unwrap().id, 4);
    assert_eq!(find(&es, Some(3)).err().unwrap(), "no transaction 3 in history");
    assert_eq!(find(&vec![], None).err().unwrap(), "the transaction history is empty");
    assert!(knows(&es, 4) && !knows(&es, 3));
    assert_eq!(after(&es, 1).len(), 2);
    assert_eq!(highest_id(&es), 4);
}

#[test]
fn later_entries_come_in_ascending_order() {
    let ids = |es: Vec<Entry>| es.iter().map(|e| e.id).collect::<Vec<u64>>();
    let recovered = vec![
        entry(1, &["install"], None),
        entry(3, &["upgrade"], None),
        entry(2, &["remove"], None),
    ];
    assert_eq!(ids(after(&recovered, 0)), [1, 2, 3]);
    assert_eq!(ids(after(&recovered, 1)), [2, 3]);
    assert_eq!(ids(after(&recovered, 3)), []);
}

#[test]
fn a_summary_holds_every_count() {
    let mut e = entry(1, &["install", "htop"], None);
    assert_eq!(e.summary(), "install htop  (+0 ~0 -0)");
    e.install = vec![
        change("a", None, Some("1")),
        change("b", None, Some("1")),
        change("c", Some("1"), Some("2")),
    ];
    assert_eq!(e.summary(), "install htop  (+2 ~1 -0)");
}

#[test]
fn recording_keeps_the_newest_entries_only() {
    let tx = Transaction { install: vec![change("htop", None, Some("1"))], remove: vec![] };
    let command = vec!["install".to_string(), "htop".to_string()];
    let mut es = vec![];
    for n in 0..5 {
        es = record(es, &command, None, &tx, n, 3);
    }
    let ids: Vec<u64> = es.iter().map(|e| e.id).collect();
    assert_eq!(ids, [3, 4, 5]);
    assert_eq!(es[2].command, command);
    assert_eq!(es[2].install[0].name, "htop");
    assert_eq!(find(&es, None).unwrap().time, 4);
}

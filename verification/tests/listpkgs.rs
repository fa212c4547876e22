use wrapt::apt::{Change, Transaction};
use wrapt::listpkgs::{installed_rows, run, upgradable_rows, Listing};
use wrapt::names::Names;
use wrapt::ui::Line;

fn versions() -> Vec<(String, String)> {
    [("nano", "7.2"), ("htop", "3.4.1"), ("libssl3", "3.0.2")]
        .iter()
        .map(|(n, v)| (n.to_string(), v.to_string()))
        .collect()
}

fn names(v: &[&str]) -> Names {
    Names::of(&v.iter().map(|s| s.to_string()).collect())
}

fn change(name: &str, old: Option<&str>, security: bool) -> Change {
    Change {
        name: name.to_string(),
        old: old.map(Into::into),
        new: Some("2".to_string()),
        security,
    }
}

#[test]
fn installed_packages_are_listed_in_order() {
    let rows = installed_rows(&versions(), &names(&["htop"]), &names(&["nano"]), false, None);
    let listed: Vec<&str> = rows.iter().map(|r| r.name.as_str()).collect();
    assert_eq!(listed, ["htop", "libssl3", "nano"]);
    assert!(!rows[0].auto && rows[1].auto && rows[2].held);
    let rows = installed_rows(&versions(), &names(&["htop"]), &names(&[]), true, None);
    assert_eq!(rows.len(), 1);
    let rows = installed_rows(&versions(), &names(&[]), &names(&[]), false, Some("ssl"));
    assert_eq!(rows[0].name, "libssl3");
}

#[test]
fn upgrades_are_listed_in_order() {
    let tx = Transaction {
        install: vec![
            change("zsh", Some("1"), false),
            change("new", None, false),
            change("curl", Some("1"), true),
        ],
        remove: vec![],
    };
    let v = upgradable_rows(&tx, None);
    let listed: Vec<&str> = v.iter().map(|c| c.name.as_str()).collect();
    assert!(listed.contains(&"curl") && listed.contains(&"zsh"));
    assert_eq!(listed[0], "curl");
}

#[test]
fn an_empty_list_says_so() {
    let none = Listing::Installed { versions: vec![], manual: names(&[]), held: names(&[]) };
    assert_eq!(
        run(false, &none, false, None),
        [Line::Error("! No matching packages.".to_string())]
    );
    let tx = Transaction { install: vec![], remove: vec![] };
    assert_eq!(
        run(false, &Listing::Upgradable { tx }, false, None),
        [Line::Out("✓ Everything is up to date.".to_string())]
    );
}

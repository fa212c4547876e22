use wrapt::apt::{Change, Transaction};
use wrapt::names::Names;
use wrapt::ui::Line;
use wrapt::whynot::{already_installed, run};

#[test]
fn an_installable_package_shows_its_plan() {
    let tx = Transaction {
        install: vec![Change {
            name: "htop".to_string(),
            old: None,
            new: Some("3.4.1".to_string()),
            security: false,
        }],
        remove: vec![],
    };
    let out = run(false, "htop", Ok(&tx), &Names::new(), None).unwrap();
    assert_eq!(out[0], Line::Out("✓ htop can be installed.".to_string()));
    assert_eq!(out[2], Line::Out(":: Installing (1)\n   htop  3.4.1\n".to_string()));
    assert_eq!(out[3], Line::Out("   Run wrapt install htop to proceed.".to_string()));
}

#[test]
fn a_refused_package_is_explained() {
    let none = Transaction { install: vec![], remove: vec![] };
    let out = run(false, "mta", Ok(&none), &Names::new(), None).unwrap();
    assert!(matches!(&out[0], Line::Error(t) if t.contains("virtual package")));
    let raw = "E: Unable to locate package pyton3\n";
    let why = run(false, "pyton3", Err(raw), &Names::new(), Some("python3\n")).err().unwrap();
    assert!(why.contains("python3"));
    assert_eq!(
        already_installed(false, "htop"),
        [Line::Out(
            "✓ htop is already installed — run `wrapt why htop` to see why.".to_string()
        )]
    );
}

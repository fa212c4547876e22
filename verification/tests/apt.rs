use wrapt::apt::{
    apt_error, disk_usage, ensure_root, held, hold_action, install_specs, installed_set,
    installed_versions, manual_set, old_names, print_uris, search, set_hold, show, simulate,
    try_disk_usage, update_line, update_result, Output, Transaction,
};
use wrapt::download::ExpectedHash;
use wrapt::names::Names;

fn output(success: bool, stdout: &str, stderr: &str) -> Output {
    Output { success, stdout: stdout.to_string(), stderr: stderr.to_string() }
}

const SIMULATED: &str = "\
Reading package lists...
Inst libssl3 [3.0.1] (3.0.2 Ubuntu:24.04/noble-security [amd64])
Inst htop (3.4.1 Ubuntu:24.04/noble [amd64])
Conf htop (3.4.1 Ubuntu:24.04/noble [amd64])
Remv nano [7.2]
";

#[test]
fn a_simulation_tells_the_changes() {
    let tx = simulate(&output(true, SIMULATED, "")).unwrap();
    assert!(!tx.is_empty());
    assert_eq!(tx.install.len(), 2);
    assert_eq!(tx.install[0].name, "libssl3");
    assert_eq!(tx.install[0].old.as_deref(), Some("3.0.1"));
    assert_eq!(tx.install[0].new.as_deref(), Some("3.0.2"));
    assert!(tx.install[0].security);
    assert_eq!(tx.install[1].old, None);
    assert!(!tx.install[1].security);
    assert_eq!(tx.remove.len(), 1);
    assert_eq!(tx.remove[0].old.as_deref(), Some("7.2"));
    assert!(simulate(&output(true, "", "")).unwrap().is_empty());
    assert_eq!(
        simulate(&output(false, "", "W: hm\nE: Unable to locate package x\n")).err().unwrap(),
        apt_error("W: hm\nE: Unable to locate package x\n")
    );
}

#[test]
fn disk_usage_weighs_new_against_old() {
    let tx = simulate(&output(true, SIMULATED, "")).unwrap();
    assert_eq!(install_specs(&tx), ["libssl3=3.0.2", "htop=3.4.1"]);
    assert_eq!(old_names(&tx), ["libssl3", "nano"]);
    let show = "Package: libssl3\nInstalled-Size: 10\n\nPackage: htop\nInstalled-Size: 5\n";
    let d = disk_usage(&tx, Some(show), Some("4\n20\n")).unwrap();
    assert_eq!(d.installed, 15 * 1024);
    assert_eq!(d.net_change, -9 * 1024);
    assert!(disk_usage(&tx, None, Some("4\n")).is_none());
    let huge = "Installed-Size: 18446744073709551615\n";
    assert!(try_disk_usage(&tx, Some(huge), None).is_none());
    assert!(try_disk_usage(&tx, Some(show), None).is_some());
}

#[test]
fn download_addresses_are_read_with_their_checksums() {
    let out = "\
'http://a/htop.deb' htop_3.4.1_amd64.deb 123 SHA256:abcd
'http://a/nano.deb' nano_7.2_amd64.deb 45 MD5Sum:ef01
noise
";
    let v = print_uris(&output(true, out, "")).unwrap();
    assert_eq!(v.len(), 2);
    assert_eq!(v[0].url, "http://a/htop.deb");
    assert_eq!(v[0].filename, "htop_3.4.1_amd64.deb");
    assert_eq!(v[0].size, 123);
    assert!(matches!(&v[0].hash, Some(ExpectedHash::Sha256(h)) if h == "abcd"));
    assert!(matches!(&v[1].hash, Some(ExpectedHash::Md5(h)) if h == "ef01"));
    assert!(print_uris(&output(false, "", "E: no\n")).is_err());
}

#[test]
fn refreshing_is_shown_line_by_line() {
    assert_eq!(
        update_line(false, "Hit:1 http://a noble InRelease").unwrap(),
        "  ✓ http://a noble InRelease"
    );
    assert_eq!(update_line(false, "Get:2 http://a x").unwrap(), "  ↓ http://a x");
    assert_eq!(update_line(false, "Ign:3 http://a x").unwrap(), "  – http://a x");
    assert_eq!(update_line(false, "Err:4 http://a x").unwrap(), "  ✗ http://a x");
    assert_eq!(update_line(false, "Reading package lists..."), None);
    let lines = vec!["W: old".to_string(), "E: one".to_string(), "E: two".to_string()];
    let (warnings, end) = update_result(&lines, false);
    assert_eq!(warnings, ["old"]);
    assert_eq!(end.err().unwrap(), "one\ntwo");
    assert!(update_result(&lines, true).1.is_ok());
}

#[test]
fn packages_are_known_with_and_without_architecture() {
    let s = installed_set("installed libssl3:amd64\nconfig-files nano\n");
    assert!(s.contains("libssl3") && s.contains("libssl3:amd64") && !s.contains("nano"));
    let m = manual_set("htop\nlibssl3:amd64\n");
    assert!(m.contains("htop"));
    let v = installed_versions("installed\thtop\t3.4.1\nconfig-files\tnano\t7.2\n");
    assert_eq!(v, [("htop".to_string(), "3.4.1".to_string())]);
}

#[test]
fn holds_report_what_changed() {
    assert_eq!(hold_action(true), "hold");
    assert_eq!(hold_action(false), "unhold");
    assert_eq!(held(Some("htop\nnano\n")), ["htop", "nano"]);
    assert!(held(None).is_empty());
    let out = output(true, "htop set on hold.\n", "");
    assert_eq!(set_hold(&out).unwrap().len(), 1);
    assert!(set_hold(&output(false, "", "E: no\n")).is_err());
}

#[test]
fn the_first_record_is_shown() {
    assert!(show(&output(false, "", "E: No packages found\n")).is_err());
    assert_eq!(
        show(&output(true, "Package: htop\n\nPackage: htop\nVersion: 2\n", "")).unwrap(),
        "Package: htop"
    );
}

#[test]
fn results_that_match_best_come_first() {
    let installed = Names::new();
    let out = output(true, "zhtop - a\nhtop - b\nhtop-extra - c\n", "");
    let v = search("htop", &out, &installed).unwrap();
    let names: Vec<&str> = v.iter().map(|r| r.name.as_str()).collect();
    assert_eq!(names[0], "htop");
    assert_eq!(names.len(), 3);
    assert_eq!(v[0].description, "b");
    assert!(search("x", &output(false, "", "E: no\n"), &installed).is_err());
}

#[test]
fn only_root_may_change_the_system() {
    assert!(ensure_root(true).is_ok());
    assert_eq!(
        ensure_root(false).err().unwrap(),
        "this operation requires root privileges — try: sudo wrapt ..."
    );
}

#[test]
fn what_a_program_wrote_is_decoded() {
    let out = Output::captured(true, b"caf\xc3\xa9\n", b"bad \xff byte");
    assert!(out.success);
    assert_eq!(out.stdout, "café\n");
    assert_eq!(out.stderr, "bad \u{fffd} byte");
    assert!(Transaction::default().is_empty());
}

use wrapt::apt::SearchResult;
use wrapt::config::{describe, Config};
use wrapt::report::{
    no_home, no_results, pick, show_config, show_paths, show_record, show_results, show_status,
    show_why, show_written, summarize,
};
use wrapt::ui::Line;
use wrapt::why::Explanation;

fn out(text: &str) -> Line {
    Line::Out(text.to_string())
}

fn result(name: &str, version: Option<&str>, installed: bool) -> SearchResult {
    SearchResult {
        name: name.to_string(),
        version: version.map(Into::into),
        description: format!("about {name}"),
        installed,
    }
}

fn strings(n: usize) -> Vec<String> {
    (1..=n).map(|i| format!("p{i}")).collect()
}

#[test]
fn results_are_numbered_where_the_user_can_pick() {
    let v = vec![result("htop", Some("3.4.1"), true), result("btop", None, false)];
    assert_eq!(
        show_results(false, &v, true),
        [
            out("1. htop 3.4.1 [installed]"),
            out("   about htop"),
            out("2. btop"),
            out("   about btop"),
        ]
    );
    assert_eq!(
        show_results(false, &v, false),
        [
            out("htop 3.4.1 [installed]"),
            out("    about htop"),
            out("btop"),
            out("    about btop"),
        ]
    );
    let many: Vec<SearchResult> = (0..10).map(|i| result(&format!("p{i}"), None, false)).collect();
    assert_eq!(show_results(false, &many, true)[0], out(" 1. p0"));
    assert_eq!(
        no_results(false, "xyz"),
        Line::Error("! No packages found matching 'xyz'.".to_string())
    );
}

#[test]
fn picked_results_that_are_installed_are_left_out() {
    let v = vec![result("htop", None, true), result("btop", None, false)];
    let r = pick(&v, &vec![1, 2]).unwrap();
    assert_eq!(r.args, ["install", "btop"]);
    assert_eq!(r.named, ["btop"]);
    assert!(pick(&v, &vec![1]).is_none());
    assert!(pick(&v, &vec![]).is_none());
}

#[test]
fn a_record_is_shown_with_human_sizes() {
    let record = "Package: htop\nInstalled-Size: 440\nDescription: viewer\n more: text\nplain\n";
    assert_eq!(
        show_record(false, record).unwrap(),
        [
            out("Package: htop"),
            out("Installed-Size: 440.0 KiB"),
            out("Description: viewer"),
            out(" more: text"),
            out("plain"),
        ]
    );
    assert!(show_record(false, "Installed-Size: 18446744073709551615\n").is_none());
    assert_eq!(
        show_record(false, "Installed-Size: lots\n").unwrap(),
        [out("Installed-Size: lots")]
    );
}

#[test]
fn a_long_list_is_cut_short() {
    assert_eq!(summarize(&strings(2)), "p1, p2");
    assert_eq!(summarize(&strings(6)), "p1, p2, p3, p4, p5, p6");
    assert_eq!(summarize(&strings(8)), "p1, p2, p3, p4, p5, p6, … (+2 more)");
    assert_eq!(summarize(&vec![]), "");
}

fn explanation(manual: bool, required_by: usize) -> Explanation {
    Explanation {
        package: "lib".to_string(),
        installed: true,
        manual,
        required_by: strings(required_by),
        chain: if manual { vec![] } else { vec!["root".to_string(), "lib".to_string()] },
        roots: vec![],
    }
}

#[test]
fn the_status_is_added_to_a_record() {
    assert_eq!(
        show_status(false, &explanation(false, 1)),
        [
            out(""),
            out("Status: installed (automatic)"),
            out("Reason: root pulls it in"),
            out("Required by: 1 package(s): p1"),
        ]
    );
    assert_eq!(
        show_status(false, &explanation(true, 0)),
        [out(""), out("Status: installed (manual)")]
    );
    let mut gone = explanation(true, 0);
    gone.installed = false;
    assert!(show_status(false, &gone).is_empty());
}

#[test]
fn reasons_are_told_one_way_or_the_other() {
    assert_eq!(
        show_why(false, &explanation(true, 1), false),
        [
            out(":: lib"),
            out("   Installed manually — you asked for this package directly."),
            out("   Other installed packages also depend on it: p1"),
        ]
    );
    let mut lost = explanation(false, 0);
    lost.chain = vec![];
    assert_eq!(
        show_why(false, &lost, false)[2..],
        [
            out(""),
            out("   Nothing installed depends on it — it looks orphaned."),
            out("   Remove unused packages with: wrapt autoremove"),
        ]
    );
    assert_eq!(
        show_why(false, &lost, true)[2..],
        [out(""), out("   Couldn't trace it to any manually-installed package.")]
    );
    lost.roots = vec!["mpv".to_string(), "vlc".to_string()];
    assert_eq!(
        show_why(false, &lost, true)[2..],
        [
            out(""),
            out("   Pulled in by these packages you installed manually (2):"),
            out("     mpv"),
            out("     vlc"),
        ]
    );
    let many = show_why(false, &explanation(false, 12), false);
    assert_eq!(many.last().unwrap(), &out("     … and 2 more"));
    assert_eq!(many[many.len() - 2], out("     p10"));
}

#[test]
fn the_configuration_is_shown_with_its_sources() {
    let mut system = Config::default();
    system.parallel = Some(8);
    let mut user = Config::default();
    user.restart = Some("never".to_string());
    let merged = Config::effective(&system, &user);
    let rows = describe(&merged, &system, &user);
    let lines = show_config(false, "/etc/wrapt/config.toml", true, Some("/u"), false, &rows);
    assert_eq!(lines[0], out(":: Configuration files:"));
    assert_eq!(lines[1], out("   system  /etc/wrapt/config.toml "));
    assert_eq!(lines[2], out("   user    /u (not present)"));
    assert_eq!(lines[4], out(":: Effective settings:"));
    assert_eq!(lines[5], out("   parallel        8                            (system)"));
    assert_eq!(lines[9], out("   restart         never                        (user)"));
    assert_eq!(lines[11], out("   keep_kernels    2                            (default)"));
    let lines = show_config(false, "/s", true, None, false, &rows);
    assert_eq!(lines[2], out("   user    (no HOME — none read)"));
    assert_eq!(
        show_paths("/s", Some("/u")),
        [out("system  /s"), out("user    /u")]
    );
    assert_eq!(
        show_paths("/s", None),
        [out("system  /s"), out("user    (no HOME — none read)")]
    );
    assert_eq!(
        show_written(false, "/u"),
        [
            out("✓ Wrote a starter config to /u"),
            out("   Every setting is commented out — uncomment what you want to change."),
        ]
    );
    assert_eq!(no_home(), "cannot work out where your config should go (no HOME)");
}

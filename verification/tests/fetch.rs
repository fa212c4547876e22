use wrapt::fetch::{
    benchmark_header, check_listed, check_supported, current_archive_mirror, decide, detect_distro,
    mirror_list, mirror_list_url, rank, rewrite_archive_uris, same_mirror, with_current, Choice,
    Probe, Speed,
};

const MIRROR: &str = "http://mirror.example/ubuntu";

#[test]
fn rewrites_deb822_archive_but_not_security() {
    let text = "\
Types: deb\n\
URIs: http://archive.ubuntu.com/ubuntu\n\
Suites: noble noble-updates\n\
Components: main universe\n\
\n\
Types: deb\n\
URIs: http://security.ubuntu.com/ubuntu\n\
Suites: noble-security\n";
    let (out, n) = rewrite_archive_uris(text, MIRROR);
    assert_eq!(n, 1);
    assert!(out.contains("URIs: http://mirror.example/ubuntu"));
    // Security pocket is left exactly as it was.
    assert!(out.contains("URIs: http://security.ubuntu.com/ubuntu"));
}

#[test]
fn rewrites_classic_and_country_mirror() {
    let text = "\
deb http://us.archive.ubuntu.com/ubuntu noble main\n\
# deb http://archive.ubuntu.com/ubuntu noble main\n\
deb http://security.ubuntu.com/ubuntu noble-security main\n";
    let (out, n) = rewrite_archive_uris(text, MIRROR);
    assert_eq!(n, 1); // only the live archive line
    assert!(out.contains("deb http://mirror.example/ubuntu noble main"));
    // Comment preserved verbatim, security untouched.
    assert!(out.contains("# deb http://archive.ubuntu.com/ubuntu noble main"));
    assert!(out.contains("deb http://security.ubuntu.com/ubuntu noble-security main"));
}

#[test]
fn no_archive_uris_changes_nothing() {
    let text = "deb http://security.ubuntu.com/ubuntu noble-security main\n";
    let (out, n) = rewrite_archive_uris(text, MIRROR);
    assert_eq!(n, 0);
    assert_eq!(out, text);
}

#[test]
fn same_mirror_ignores_trailing_slash() {
    assert!(same_mirror(
        "http://au.archive.ubuntu.com/ubuntu",
        "http://au.archive.ubuntu.com/ubuntu/"
    ));
    assert!(!same_mirror(
        "http://au.archive.ubuntu.com/ubuntu",
        "http://archive.ubuntu.com/ubuntu"
    ));
}

#[test]
fn the_distribution_is_read_from_os_release() {
    let d = detect_distro("ID=ubuntu\nVERSION_CODENAME=noble\n", "/etc/os-release").unwrap();
    assert_eq!(d.id, "ubuntu");
    assert_eq!(d.codename, "noble");
    assert!(check_supported(&d).is_ok());
    let d = detect_distro("ID=debian\nVERSION_CODENAME=trixie\n", "/etc/os-release").unwrap();
    assert!(check_supported(&d).is_err());
    assert!(detect_distro("ID=ubuntu\n", "/etc/os-release").is_err());
}

#[test]
fn a_country_has_a_list_of_its_own_in_capitals() {
    assert!(mirror_list_url(Some("au")).contains("AU"));
    assert!(!mirror_list_url(None).contains("AU"));
}

#[test]
fn the_mirror_list_is_read_line_by_line() {
    let v = mirror_list("http://a.example/ubuntu/\n\nhttp://b.example/ubuntu/\n");
    assert_eq!(v.len(), 2);
    // The mirror in use is ranked too.
    let v = with_current(v, Some("http://c.example/ubuntu"));
    assert_eq!(v.len(), 3);
    let v = with_current(v, Some("http://a.example/ubuntu"));
    assert_eq!(v.len(), 3);
}

#[test]
fn the_mirror_in_use_is_found_in_the_sources() {
    let contents = vec![
        "deb http://security.ubuntu.com/ubuntu noble-security main\n".to_string(),
        "URIs: http://au.archive.ubuntu.com/ubuntu/\n".to_string(),
    ];
    assert!(same_mirror(
        &current_archive_mirror(&contents).unwrap(),
        "http://au.archive.ubuntu.com/ubuntu"
    ));
}

fn probe(url: &str, order: Option<u64>) -> Probe {
    Probe { url: url.to_string(), speed: order.map(|order| Speed { order, rate: order }) }
}

#[test]
fn mirrors_are_ranked_fastest_first_and_dead_ones_dropped() {
    let v = vec![probe("slow", Some(1)), probe("dead", None), probe("fast", Some(9))];
    let ranked = rank(&v).unwrap();
    let urls: Vec<&str> = ranked.iter().map(|p| p.url.as_str()).collect();
    assert_eq!(urls, ["fast", "slow"]);
    assert!(rank(&vec![probe("dead", None)]).is_err());
}

#[test]
fn a_mirror_is_applied_only_where_it_is_a_win() {
    let v = vec![probe("http://a/ubuntu", Some(9)), probe("http://b/ubuntu", Some(1))];
    let ranked = rank(&v).unwrap();
    assert_eq!(decide(&ranked, Some("http://a/ubuntu/")), Choice::AlreadyFastest);
    assert_eq!(decide(&ranked, Some("http://b/ubuntu")), Choice::Compare(1));
    assert_eq!(decide(&ranked, Some("http://c/ubuntu")), Choice::Switch);
    assert_eq!(decide(&ranked, None), Choice::Switch);
    let alone = rank(&vec![probe("http://a/ubuntu", Some(9))]).unwrap();
    assert_eq!(decide(&alone, None), Choice::TooFew);
}

#[test]
fn lines_that_are_no_archive_are_left_alone() {
    let text = "# comment
deb http://archive.ubuntu.com/ubuntu noble main

other
";
    let (out, n) = rewrite_archive_uris(text, MIRROR);
    assert_eq!(n, 1);
    assert_eq!(out, "# comment\ndeb http://mirror.example/ubuntu noble main\n\nother\n");
}

#[test]
fn an_empty_mirror_list_is_an_error() {
    assert_eq!(
        check_listed(&mirror_list("\n\n")).unwrap_err(),
        "the mirror list was empty — try again, or pass --country <CC>"
    );
    assert!(check_listed(&mirror_list("http://a.example/ubuntu/\n")).is_ok());
}

#[test]
fn the_number_of_mirrors_is_told() {
    assert!(benchmark_header(false, 1).contains("Benchmarking 1 mirror..."));
    assert!(benchmark_header(false, 12).contains("Benchmarking 12 mirrors..."));
}

#[test]
fn rewriting_again_replaces_nothing() {
    let text = "deb  http://archive.ubuntu.com/ubuntu noble main\n# deb http://archive.ubuntu.com/ubuntu\n\n  URIs: http://us.archive.ubuntu.com/ubuntu";
    let (once, n) = rewrite_archive_uris(text, MIRROR);
    assert_eq!(n, 2);
    assert_eq!(rewrite_archive_uris(&once, MIRROR), (once.clone(), 0));
    assert_eq!(once.split('\n').count(), text.split('\n').count());
    assert_eq!(once.split('\n').nth(1), text.split('\n').nth(1));
}

use wrapt::apt::Output;
use wrapt::selfupdate::{
    asset_os_version, dpkg_arch, host_os_tag, is_newer, pick_asset, release_url, resolve_repo, run,
    version_of_tag, Asset, DEFAULT_REPO,
};

fn asset(name: &str) -> Asset {
    Asset {
        name: name.to_string(),
        browser_download_url: format!("https://example/{name}"),
        size: 0,
    }
}

#[test]
fn picks_arch_specific_deb() {
    let assets = vec![
        asset("wrapt_0.2.0_arm64.deb"),
        asset("wrapt_0.2.0_amd64.deb"),
        asset("wrapt-0.2.0.tar.gz"),
    ];
    let got = pick_asset(&assets, "amd64", None).unwrap();
    assert_eq!(got.name, "wrapt_0.2.0_amd64.deb");
}

#[test]
fn prefers_matching_host_os() {
    let assets = vec![
        asset("wrapt_0.2.0_ubuntu24.04_amd64.deb"),
        asset("wrapt_0.2.0_ubuntu25.04_amd64.deb"),
        asset("wrapt_0.2.0_ubuntu26.04_amd64.deb"),
    ];
    let got = pick_asset(&assets, "amd64", Some("ubuntu25.04")).unwrap();
    assert_eq!(got.name, "wrapt_0.2.0_ubuntu25.04_amd64.deb");
}

#[test]
fn without_host_match_takes_lowest_os_version() {
    // An unknown host (e.g. Debian) should get the widest-compatibility build.
    let assets = vec![
        asset("wrapt_0.2.0_ubuntu26.04_amd64.deb"),
        asset("wrapt_0.2.0_ubuntu24.04_amd64.deb"),
        asset("wrapt_0.2.0_ubuntu25.04_amd64.deb"),
    ];
    let got = pick_asset(&assets, "amd64", Some("debian12")).unwrap();
    assert_eq!(got.name, "wrapt_0.2.0_ubuntu24.04_amd64.deb");
}

#[test]
fn untagged_general_deb_wins_as_safest() {
    let assets = vec![
        asset("wrapt_0.2.0_ubuntu26.04_amd64.deb"),
        asset("wrapt_0.2.0_amd64.deb"),
    ];
    let got = pick_asset(&assets, "amd64", None).unwrap();
    assert_eq!(got.name, "wrapt_0.2.0_amd64.deb");
}

#[test]
fn falls_back_to_any_deb() {
    let assets = vec![asset("wrapt_0.2.0_all.deb"), asset("notes.txt")];
    assert_eq!(
        pick_asset(&assets, "amd64", None).unwrap().name,
        "wrapt_0.2.0_all.deb"
    );
}

#[test]
fn no_deb_yields_none() {
    let assets = vec![asset("wrapt-0.2.0.tar.gz")];
    assert!(pick_asset(&assets, "amd64", None).is_none());
}

#[test]
fn parses_asset_os_version() {
    assert_eq!(
        asset_os_version("wrapt_0.2.0_ubuntu24.04_amd64.deb").as_deref(),
        Some("24.04")
    );
    assert_eq!(asset_os_version("wrapt_0.2.0_amd64.deb"), None);
}

#[test]
fn resolve_repo_precedence() {
    // Config value is used when no env override is set.
    assert_eq!(resolve_repo(None, Some("acme/wrapt")), "acme/wrapt");
    assert_eq!(resolve_repo(None, None), DEFAULT_REPO);
    assert_eq!(resolve_repo(None, Some("  ")), DEFAULT_REPO);
}

#[test]
fn the_environment_beats_the_config() {
    assert_eq!(resolve_repo(Some("mine/wrapt"), Some("acme/wrapt")), "mine/wrapt");
    assert_eq!(resolve_repo(Some(" "), Some("acme/wrapt")), "acme/wrapt");
    assert!(release_url("acme/wrapt").contains("acme/wrapt"));
}

#[test]
fn a_release_is_newer_by_its_version() {
    assert_eq!(version_of_tag("v0.10.0"), "0.10.0");
    assert!(is_newer("0.10.0", "0.9.0"));
    assert!(!is_newer("0.9.0", "0.9.0"));
    let (_, install) = run(false, false, "0.9.0", "0.10.0");
    assert!(install);
    let (_, install) = run(false, true, "0.9.0", "0.10.0");
    assert!(!install);
    let (_, install) = run(false, false, "0.10.0", "0.10.0");
    assert!(!install);
}

#[test]
fn the_host_is_known_by_its_release_and_architecture() {
    assert_eq!(host_os_tag("ID=ubuntu\nVERSION_ID=\"24.04\"\n").as_deref(), Some("ubuntu24.04"));
    assert_eq!(host_os_tag("ID=ubuntu\n"), None);
    let out = Output { success: true, stdout: "arm64\n".to_string(), stderr: String::new() };
    assert_eq!(dpkg_arch(Some(&out)), "arm64");
    assert_eq!(dpkg_arch(None), "amd64");
}

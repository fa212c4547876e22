use wrapt::apt::Output;
use wrapt::report::show_why;
use wrapt::ui::Line;
use wrapt::why::{parse_names, strip_arch, Graph};

fn strings(v: &[&str]) -> Vec<String> {
    v.iter().map(|s| s.to_string()).collect()
}

fn edges(v: &[(&str, &str)]) -> Vec<(String, String)> {
    v.iter().map(|(a, b)| (a.to_string(), b.to_string())).collect()
}

#[test]
fn parses_relationship_fields() {
    assert_eq!(
        parse_names("libc6 (>= 2.38), libtinfo6 (>= 6)"),
        ["libc6", "libtinfo6"]
    );
    // Alternatives both expand.
    assert_eq!(
        parse_names("default-mta | mail-transport-agent"),
        ["default-mta", "mail-transport-agent"]
    );
    // Arch qualifiers dropped; empty field yields nothing.
    assert_eq!(parse_names("libfoo:amd64 (= 1.2)"), ["libfoo"]);
    assert!(parse_names("").is_empty());
}

#[test]
fn chain_walks_to_manual_root() {
    // vlc (manual) → libvlc5 → libvlccore9 (target, auto)
    let installed = strings(&["vlc", "libvlc5", "libvlccore9"]);
    let auto = strings(&["libvlc5", "libvlccore9"]);
    let rdeps = edges(&[("libvlccore9", "libvlc5"), ("libvlc5", "vlc")]);
    let g = Graph::from_edges(&installed, &auto, &rdeps);

    let e = g.explain("libvlccore9", false);
    assert!(e.installed && !e.manual);
    assert_eq!(e.required_by, ["libvlc5"]);
    assert_eq!(e.chain, ["vlc", "libvlc5", "libvlccore9"]);

    assert!(g.explain("vlc", false).manual);
    assert!(!g.explain("nonexistent", false).installed);
}

#[test]
fn all_mode_lists_every_manual_root() {
    // Two manual roots (vlc, mpv) both pull in libavcodec60 (target, auto)
    // via an intermediate auto lib; ffmpeg-lib is auto and not a root.
    let installed = strings(&["vlc", "mpv", "ffmpeg-lib", "libavcodec60"]);
    let auto = strings(&["ffmpeg-lib", "libavcodec60"]);
    let rdeps = edges(&[
        ("libavcodec60", "ffmpeg-lib"),
        ("ffmpeg-lib", "vlc"),
        ("ffmpeg-lib", "mpv"),
    ]);
    let g = Graph::from_edges(&installed, &auto, &rdeps);

    let e = g.explain("libavcodec60", true);
    assert_eq!(e.roots, ["mpv", "vlc"]);
    assert!(e.chain.is_empty());
}

#[test]
fn the_shortest_chain_wins() {
    let installed = strings(&["long", "mid", "near", "target"]);
    let auto = strings(&["mid", "target"]);
    let rdeps = edges(&[("target", "mid"), ("mid", "long"), ("target", "near")]);
    let g = Graph::from_edges(&installed, &auto, &rdeps);
    assert_eq!(g.explain("target", false).chain, ["near", "target"]);
    assert_eq!(g.chain_to_root("target"), ["near", "target"]);
    assert_eq!(g.manual_roots("target"), ["long", "near"]);
}

#[test]
fn a_cycle_of_automatic_packages_is_traced_to_nothing() {
    let installed = strings(&["a", "b"]);
    let auto = strings(&["a", "b"]);
    let rdeps = edges(&[("a", "b"), ("b", "a")]);
    let g = Graph::from_edges(&installed, &auto, &rdeps);
    assert!(g.explain("a", false).chain.is_empty());
    assert!(g.explain("a", true).roots.is_empty());
}

#[test]
fn a_graph_is_built_from_dpkg() {
    let packages = "installed\tvlc\tplayer-lib (= 3)\t\t\t\ninstalled\tlibvlc5\t\t\t\tplayer-lib\nconfig-files\tnano\t\t\t\t\n";
    // A byte that is no UTF-8 is read as a replacement character.
    let out = Output::captured(true, packages.as_bytes(), b"odd \xff byte");
    assert_eq!(out.stderr, "odd \u{fffd} byte");
    let Ok(g) = Graph::build(&out, "libvlc5\n") else {
        panic!("dpkg-query succeeded");
    };
    let e = g.explain("libvlc5:amd64", false);
    assert_eq!(e.package, "libvlc5");
    assert!(e.installed && !e.manual);
    // What a package provides stands for the package.
    assert_eq!(e.chain, ["vlc", "libvlc5"]);
    assert!(!g.explain("nano", false).installed);
    assert_eq!(strip_arch("libfoo:amd64"), "libfoo");
    // The chain begins at one of the reasons.
    assert_eq!(g.explain("libvlc5", true).roots, ["vlc"]);
    let failed = Output::captured(false, b"", b"");
    let Err(e) = Graph::build(&failed, "") else {
        panic!("dpkg-query failed");
    };
    assert_eq!(e, "dpkg-query failed");
}

#[test]
fn the_reason_is_shown() {
    let installed = strings(&["vlc", "libvlc5"]);
    let auto = strings(&["libvlc5"]);
    let g = Graph::from_edges(&installed, &auto, &edges(&[("libvlc5", "vlc")]));
    let out = show_why(false, &g.explain("libvlc5", false), false);
    assert_eq!(
        out,
        [
            ":: libvlc5",
            "   Installed automatically, as a dependency.",
            "",
            "   vlc installed it manually, which pulls in:",
            "     vlc → libvlc5",
            "",
            "   Directly required by (1):",
            "     vlc",
        ]
        .map(|t| Line::Out(t.to_string()))
    );
    let out = show_why(false, &g.explain("nano", false), false);
    assert_eq!(out, [Line::Error("! nano is not installed.".to_string())]);
}

use wrapt::apt::Output;
use wrapt::names::Names;
use wrapt::provides::{dpkg_owner, found_rows, is_command, owned_by, parse_pairs, run};
use wrapt::ui::Line;

#[test]
fn owners_are_read_from_dpkg() {
    assert!(is_command("htop") && !is_command("/usr/bin/htop"));
    let out = Output {
        success: true,
        stdout: "htop: /usr/bin/htop\n".to_string(),
        stderr: String::new(),
    };
    assert_eq!(dpkg_owner(Some(&out)).as_deref(), Some("htop"));
    assert_eq!(dpkg_owner(None), None);
    assert_eq!(
        parse_pairs("libc6:amd64, libc6:i386: /usr/lib/x\nnoise\n"),
        [("libc6".to_string(), "/usr/lib/x".to_string())]
    );
}

#[test]
fn found_files_are_listed_once() {
    let pair = |p: &str, f: &str| (p.to_string(), f.to_string());
    let installed = vec![pair("htop", "/usr/bin/htop")];
    let available = vec![pair("btop", "/usr/share/htop"), pair("htop", "/usr/bin/htop")];
    let rows = found_rows("htop", &installed, &available);
    assert_eq!(rows.len(), 2);
    let shown = run(false, "htop", &rows, &Names::of(&vec!["htop".to_string()]), true);
    assert!(shown.len() >= 2);
    assert_eq!(
        run(false, "x", &vec![], &Names::new(), true)[0],
        Line::Error("! No package found providing 'x'.".to_string())
    );
    let owner = owned_by(false, "htop", "/usr/bin/htop", "htop");
    assert_eq!(owner[1], Line::Out("   /usr/bin/htop is provided by htop [installed]".to_string()));
}

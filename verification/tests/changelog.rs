use wrapt::changelog::{render_line, run};
use wrapt::ui::Line;

#[test]
fn highlights_entry_headers_and_cves() {
    // Header line is recognised (contains parenthesised version).
    assert_ne!(
        render_line(true, "htop (3.4.1-1) noble; urgency=medium"),
        "htop (3.4.1-1) noble; urgency=medium"
    );
    // A plain body line is returned unchanged.
    assert_eq!(
        render_line(true, "  * Some ordinary change"),
        "  * Some ordinary change"
    );
    // A CVE mention is decorated (not returned verbatim).
    assert_ne!(
        render_line(true, "  * Fix CVE-2024-1234"),
        "  * Fix CVE-2024-1234"
    );
}

#[test]
fn a_security_line_is_found_whatever_its_case() {
    assert_ne!(render_line(true, "  * SECURITY UPDATE: fix"), "  * SECURITY UPDATE: fix");
    // Without colour nothing carries escapes.
    assert!(!render_line(false, "htop (3.4.1-1) noble; urgency=medium").contains('\x1b'));
}

#[test]
fn a_changelog_is_shown_line_by_line() {
    let out = run(false, "htop", "htop (1) noble\n  * Change\n");
    assert!(out.contains(&Line::Out("  * Change".to_string())));
}

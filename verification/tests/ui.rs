use wrapt::apt::{Change, Transaction};
use wrapt::names::Names;
use wrapt::ui::{
    bold_green, confirm, confirm_prompt, format_size, header_line, parse_selection,
    render_transaction, success_line, warn_line, Paint,
};

fn change(name: &str, old: Option<&str>, new: Option<&str>, security: bool) -> Change {
    Change {
        name: name.to_string(),
        old: old.map(Into::into),
        new: new.map(Into::into),
        security,
    }
}

#[test]
fn renders_installs_upgrades_and_removals_aligned() {
    let tx = Transaction {
        install: vec![
            change("htop", None, Some("3.4.1"), false),
            change("libssl3", Some("3.0.1"), Some("3.0.2"), false),
        ],
        remove: vec![change("nano", Some("7.2"), None, false)],
    };
    // Names pad to the widest across every section, so the columns line up.
    assert_eq!(
        render_transaction(false, &tx, &Names::new()),
        ":: Installing (1)\n\
         \x20  htop     3.4.1\n\
         :: Upgrading (1)\n\
         \x20  libssl3  3.0.1 → 3.0.2\n\
         :: Removing (1)\n\
         \x20  nano     7.2\n"
    );
}

#[test]
fn security_upgrades_are_counted_and_badged() {
    let tx = Transaction {
        install: vec![
            change("openssl", Some("3.0.1"), Some("3.0.2"), true),
            change("curl", Some("8.1"), Some("8.2"), false),
        ],
        remove: vec![],
    };
    let out = render_transaction(false, &tx, &Names::new());
    assert!(
        out.starts_with(":: Upgrading (2, 1 security)\n"),
        "header should count security upgrades: {out}"
    );
    assert!(out.contains("openssl  3.0.1 → 3.0.2 🔒 security"));
    // The non-security upgrade carries no badge.
    assert!(out.contains("curl     8.1 → 8.2\n"));
}

#[test]
fn removing_a_manually_installed_package_is_flagged() {
    let tx = Transaction {
        install: vec![],
        remove: vec![
            change("ripgrep", Some("14.1"), None, false),
            change("libfoo", Some("1.0"), None, false),
        ],
    };
    let manual = Names::of(&vec!["ripgrep".to_string()]);
    let out = render_transaction(false, &tx, &manual);
    assert!(out.contains("ripgrep  14.1 (you installed this)"));
    // A dependency pulled in automatically gets no warning.
    assert!(out.contains("libfoo   1.0\n"));
}

#[test]
fn an_empty_transaction_renders_nothing() {
    let tx = Transaction {
        install: vec![],
        remove: vec![],
    };
    assert_eq!(render_transaction(false, &tx, &Names::new()), "");
}

#[test]
fn colour_is_emitted_only_when_enabled() {
    let tx = Transaction {
        install: vec![change("htop", None, Some("3.4.1"), false)],
        remove: vec![],
    };
    let with_colour = render_transaction(true, &tx, &Names::new());
    let plain_out = render_transaction(false, &tx, &Names::new());
    assert!(with_colour.contains('\x1b'), "should carry escapes when on");
    assert!(!plain_out.contains('\x1b'), "must be clean when off");
    // Padding must measure the text, not the escape bytes.
    assert!(plain_out.contains("   htop  3.4.1\n"));
}

/// The text with its escapes taken out.
fn strip(text: &str) -> String {
    let mut out = String::new();
    let mut rest = text;
    while let Some((before, after)) = rest.split_once('\x1b') {
        out.push_str(before);
        rest = after.split_once('m').expect("an escape ends in m").1;
    }
    out + rest
}

#[test]
fn colour_adds_nothing_but_escapes() {
    let tx = Transaction {
        install: vec![
            change("htop", None, Some("3.4.1"), false),
            change("openssl", Some("1"), Some("2"), true),
        ],
        remove: vec![change("nano", Some("7"), None, false)],
    };
    let manual = Names::of(&vec!["nano".to_string()]);
    let coloured = render_transaction(true, &tx, &manual);
    let plain = render_transaction(false, &tx, &manual);
    assert!(coloured.contains('\x1b'));
    assert_eq!(strip(&coloured), plain);
    // With nothing to do there is nothing to colour.
    assert_eq!(render_transaction(true, &Transaction::default(), &manual), "");
}

#[test]
fn parses_ranges_and_singles() {
    assert_eq!(parse_selection("1 3-5 8", 10), [1, 3, 4, 5, 8]);
    // Out-of-range values are dropped; duplicates collapse.
    assert_eq!(parse_selection("2 2 9-99", 5), [2]);
    assert!(parse_selection("", 5).is_empty());
    assert!(parse_selection("abc", 5).is_empty());
}

#[test]
fn sizes_are_shown_in_human_units() {
    assert_eq!(format_size(0), "0 B");
    assert_eq!(format_size(1023), "1023 B");
    assert_eq!(format_size(1024), "1.0 KiB");
    assert_eq!(format_size(177 * 1024), "177.0 KiB");
    assert_eq!(format_size(440 * 1024), "440.0 KiB");
    for n in [1u64, 1535, 1536, 1587, 10_485_760, 123_456_789_012] {
        let mut size = n as f64;
        let mut unit = 0;
        let units = ["B", "KiB", "MiB", "GiB"];
        while size >= 1024.0 && unit < units.len() - 1 {
            size /= 1024.0;
            unit += 1;
        }
        let want = if unit == 0 { format!("{n} B") } else { format!("{size:.1} {}", units[unit]) };
        assert_eq!(format_size(n), want);
    }
}

#[test]
fn an_answer_is_yes_or_the_default() {
    assert!(confirm(Some("\n"), true));
    assert!(!confirm(Some("\n"), false));
    assert!(confirm(Some("y\n"), false));
    assert!(confirm(Some("YES\n"), false));
    assert!(!confirm(Some("n\n"), true));
    assert!(!confirm(Some("maybe\n"), true));
    assert!(!confirm(None, true));
    assert!(confirm_prompt(false, "Proceed?", true).contains("Proceed?"));
}

#[test]
fn styles_wrap_a_text_in_escapes() {
    assert_eq!(bold_green(true, "✓"), "\x1b[1m\x1b[32m✓\x1b[0m\x1b[0m");
    assert_eq!(bold_green(false, "✓"), "✓");
    assert_eq!("x".bold().render(true), "\x1b[1mx\x1b[0m");
    assert_eq!("x".red().render(false), "x");
    assert_eq!(header_line(false, "Title"), ":: Title");
    assert_eq!(warn_line(false, "careful"), "! careful");
    assert_eq!(success_line(false, "done"), "✓ done");
}

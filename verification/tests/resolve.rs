use wrapt::resolve::{damerau, did_you_mean, explain, hint, hint_with, original_of, review_lines};
use wrapt::ui::Line;

#[test]
fn damerau_distance() {
    assert_eq!(damerau("htop", "htop"), 0);
    assert_eq!(damerau("htpo", "htop"), 1); // adjacent transposition = 1
    assert_eq!(damerau("gti", "git"), 1); // gti → git is one transposition
    assert_eq!(damerau("pyton3", "python3"), 1); // one insertion
    assert_eq!(damerau("abc", "xyz"), 3);
}

#[test]
fn hint_detects_unknown_package() {
    // No package names → suggestions empty, but the "no package" branch still
    // fires with actionable text.
    let raw = "E: Unable to locate package pyton3\n";
    let h = hint(raw, &vec!["pyton3".to_string()], None).unwrap();
    assert!(h.contains("pyton3"));
}

#[test]
fn hint_detects_conflict() {
    let raw = "Unable to satisfy dependencies. Reached two conflicting assignments";
    let h = hint(raw, &vec!["libfoo".to_string()], None).unwrap();
    assert!(h.contains("wrapt why libfoo"));
}

#[test]
fn distance_does_not_depend_on_the_side() {
    for (a, b) in [("", "abc"), ("htop", "htpo"), ("kitten", "sitting"), ("a", "b")] {
        assert_eq!(damerau(a, b), damerau(b, a));
    }
    assert_eq!(damerau("", "abc"), 3);
}

#[test]
fn a_typo_is_answered_with_close_names() {
    let names = "python3\npyton\nzsh\nperl\n";
    let found = did_you_mean("pyton3", Some(names));
    assert!(found.contains(&"python3".to_string()));
    assert!(!found.contains(&"zsh".to_string()));
    assert!(did_you_mean("pyton3", None).is_empty());
}

#[test]
fn suggestions_are_part_of_the_hint() {
    let raw = "E: Unable to locate package pyton3\n";
    let named = vec!["pyton3".to_string()];
    let h = hint_with(raw, &named, &vec!["python3".to_string()]).unwrap();
    assert!(h.contains("python3"));
    assert!(hint("E: something else\n", &named, None).is_none());
}

#[test]
fn an_explanation_keeps_the_error() {
    let raw = "E: Unable to locate package pyton3\n";
    let text = explain(raw, &vec!["pyton3".to_string()], None);
    assert!(text.starts_with("E: Unable to locate package pyton3\n\n"));
    assert_eq!(explain("E: odd", &Vec::new(), None), "E: odd");
}

#[test]
fn the_original_of_a_new_config_file_is_known() {
    assert_eq!(original_of("/etc/foo.conf.dpkg-dist").as_deref(), Some("/etc/foo.conf"));
    assert_eq!(original_of("/etc/foo.conf"), None);
}

#[test]
fn a_difference_is_shown_line_by_line() {
    let out = review_lines(false, "/etc/a.dpkg-dist", "/etc/a", Some("-old\n+new\n same\n"));
    let text: Vec<&str> = out
        .iter()
        .map(|l| match l {
            Line::Out(t) => t.as_str(),
            Line::Error(t) => t.as_str(),
        })
        .collect();
    assert!(text.iter().any(|l| l.contains("+new")));
    assert!(text.iter().any(|l| l.contains("-old")));
}

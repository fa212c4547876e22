use wrapt::apt::Output;
use wrapt::cli::Shell;
use wrapt::cnf::{apt_file_lookup, on_path, print_hook, regex_escape, resolve, shell_quote, suggestions};
use wrapt::ui::Line;

fn output(success: bool, stdout: &str) -> Output {
    Output { success, stdout: stdout.to_string(), stderr: String::new() }
}

#[test]
fn escapes_regex_metacharacters() {
    assert_eq!(regex_escape("g++"), r"g\+\+");
    assert_eq!(regex_escape("a.b"), r"a\.b");
    assert_eq!(regex_escape("plain"), "plain");
}

#[test]
fn shell_quote_handles_quotes() {
    assert_eq!(shell_quote("a'b"), r"'a'\''b'");
    assert_eq!(shell_quote("safe"), "'safe'");
}

#[test]
fn a_command_on_the_path_is_found() {
    let found = output(true, "/usr/bin/htop\n");
    assert_eq!(on_path(Some(&found)).as_deref(), Some("/usr/bin/htop"));
    let missing = output(false, "");
    assert_eq!(on_path(Some(&missing)), None);
    assert_eq!(on_path(None), None);
}

#[test]
fn the_packages_of_a_command_are_listed_once_and_in_order() {
    let out = output(true, "zed\nabc\nzed\n");
    let found = apt_file_lookup(Some(&out));
    assert_eq!(suggestions("foo", &found, false), ["abc", "zed"]);
    // A package named like the command is the last resort.
    assert_eq!(suggestions("foo", &Vec::new(), true), ["foo"]);
    assert!(suggestions("foo", &Vec::new(), false).is_empty());
}

#[test]
fn an_unknown_command_is_not_resolved() {
    let (lines, found) = resolve(false, "nosuch", None, &Vec::new(), true);
    assert!(!found);
    assert!(!lines.is_empty());
    let pkgs = vec!["cowsay".to_string()];
    let (lines, found) = resolve(false, "cowsay", None, &pkgs, true);
    assert!(!found);
    let shown: Vec<String> = lines
        .iter()
        .map(|l| match l {
            Line::Out(t) => t.clone(),
            Line::Error(t) => t.clone(),
        })
        .collect();
    assert!(shown.iter().any(|l| l.contains("sudo wrapt install cowsay")));
}

#[test]
fn hooks_exist_for_the_supported_shells_only() {
    assert!(print_hook(Shell::Bash).unwrap().contains("command_not_found_handle"));
    assert!(print_hook(Shell::Zsh).unwrap().contains("command_not_found_handler"));
    assert!(print_hook(Shell::Fish).is_ok());
    assert!(print_hook(Shell::PowerShell).is_err());
    assert!(print_hook(Shell::Elvish).is_err());
}

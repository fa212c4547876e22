use wrapt::progress::{
    apt_args, frontend, looks_like_prompt, reveal_line, strip_arch, take_lines, verbose_args,
    Action, Run,
};
use wrapt::ui::Line;

#[test]
fn tracks_package_completion_for_trigger_phase() {
    let mut run = Run::new(false);
    let mut out = Vec::new();

    // Mid-package milestones are not completions.
    run.handle_status(
        false,
        "pmstatus:htop:60.0000:Configuring htop (amd64)",
        &mut out,
    );
    assert!(!run.last_completion, "'Configuring' should not count as a completion");

    // "Installed" (the last line apt sends) is what precedes the silent
    // trigger-processing tail.
    run.handle_status(
        false,
        "pmstatus:htop:80.0000:Installed htop (amd64)",
        &mut out,
    );
    assert!(run.last_completion, "'Installed' should mark a completion");

    // A following package's preparation clears it again (multi-package runs).
    run.handle_status(
        false,
        "pmstatus:tree:0.0000:Preparing tree (amd64)",
        &mut out,
    );
    assert!(!run.last_completion, "next package's 'Preparing' should clear the flag");
}

#[test]
fn apt_progress_chatter_is_not_a_prompt() {
    // The exact lines that used to trigger a spurious reveal.
    for line in [
        "Building dependency tree...",
        "Reading state information...",
        "Solving dependencies...",
        "The following NEW packages will be installed:",
        "(Reading database ... 45%",
        "Preparing to unpack .../gcc-16_16_amd64.deb ...",
        "",
    ] {
        assert!(!looks_like_prompt(line), "false positive on: {line:?}");
    }
}

#[test]
fn real_prompts_are_detected() {
    for line in [
        "Do you want to continue? [Y/n] ",
        "Remove obsolete package? [y/N]",
        "*** file.conf (Y/I/N/O/D/Z) [default=N] ? ",
        "  What would you like to do about it ? ",
        "(Enter the item number) [1]: ",
    ] {
        assert!(looks_like_prompt(line), "missed prompt: {line:?}");
    }
}

#[test]
fn only_the_last_line_matters() {
    // Completed lines before the stalled one shouldn't matter.
    let buf = "Unpacking gcc-16 ...\nSetting up gcc-16 ...\nContinue? [Y/n] ";
    assert!(looks_like_prompt(buf));
    let buf = "Continue? [Y/n] yes\nBuilding dependency tree...";
    assert!(!looks_like_prompt(buf));
}

#[test]
fn complete_lines_are_taken_and_the_rest_stays() {
    let mut buf = b"one\r\ntwo\n\nthr".to_vec();
    assert_eq!(take_lines(&mut buf), ["one", "two", ""]);
    assert_eq!(buf, b"thr");
    buf.extend_from_slice(b"ee\n");
    assert_eq!(take_lines(&mut buf), ["three"]);
    assert!(buf.is_empty());
    // What is no UTF-8 is replaced.
    let mut buf = b"caf\xff \xe2\x9c\x93\n".to_vec();
    assert_eq!(take_lines(&mut buf), ["caf\u{fffd} ✓"]);
}

#[test]
fn a_stream_may_be_cut_anywhere() {
    let all = b"one\r\ntwo caf\xc3\xa9\n\nthr";
    let mut whole = all.to_vec();
    let lines = take_lines(&mut whole);
    for cut in 0..=all.len() {
        let mut buf = all[..cut].to_vec();
        let mut seen = take_lines(&mut buf);
        buf.extend_from_slice(&all[cut..]);
        seen.extend(take_lines(&mut buf));
        assert_eq!(seen, lines);
        assert_eq!(buf, whole);
    }
    assert_eq!(lines.len(), 3);
    assert!(lines.iter().all(|l| !l.contains('\n') && !l.ends_with('\r')));
}

#[test]
fn a_package_is_announced_once() {
    let mut run = Run::new(false);
    run.status = b"pmstatus:htop:80.0:Installed htop (amd64)\npmstatus:htop:80.0:Installed htop (amd64)\npmstatus:nano:90:Removed nano\n".to_vec();
    let out = run.round(false, false);
    let printed: Vec<String> = out
        .iter()
        .filter_map(|a| match a {
            Action::Print(Line::Out(t)) => Some(t.clone()),
            _ => None,
        })
        .collect();
    assert_eq!(printed, ["  ✓ htop", "  - nano"]);
    assert!(run.last_completion);
}

#[test]
fn chatter_is_hidden_and_errors_are_kept() {
    let mut run = Run::new(false);
    run.stdout = b"Unpacking htop ...\n\n".to_vec();
    run.stderr = b"E: broken\nW: careful\nnoise\n".to_vec();
    let out = run.round(false, false);
    assert_eq!(out.len(), 1);
    assert!(matches!(&out[0], Action::Print(Line::Error(t)) if t == "! careful"));
    assert_eq!(run.log, ["Unpacking htop ...", "E: broken", "W: careful", "noise"]);
    assert_eq!(run.errors, ["broken"]);
    let (lines, end) = run.finish(false, false, "exit status: 100");
    assert_eq!(end.err().unwrap(), "broken");
    assert_eq!(lines[0], Line::Error("! apt output:".to_string()));
    assert_eq!(lines[1], Line::Error("    Unpacking htop ...".to_string()));
    assert_eq!(lines.len(), 5);
}

#[test]
fn a_failure_without_errors_tells_the_status() {
    let (lines, end) = Run::new(true).finish(false, false, "exit status: 100");
    assert!(lines.is_empty());
    assert_eq!(end.err().unwrap(), "apt-get exited with exit status: 100");
}

#[test]
fn a_question_is_revealed_to_somebody_who_can_answer() {
    let mut run = Run::new(true);
    run.stdout = b"Continue? [Y/n] ".to_vec();
    assert!(run.round(false, false).is_empty());
    let out = run.round(false, true);
    assert!(matches!(&out[0], Action::Reveal));
    assert!(matches!(&out[1], Action::Prompt(t) if t == "Continue? [Y/n] "));
    assert!(run.revealing && run.stdout.is_empty());
    // From then on output is shown.
    run.stdout = b"Setting up htop\n".to_vec();
    let out = run.round(false, false);
    assert!(matches!(&out[0], Action::Print(Line::Out(t)) if t == "Setting up htop"));
    assert!(run.log.is_empty());
    // Nobody is asked where nobody can answer.
    let mut run = Run::new(false);
    run.stdout = b"Continue? [Y/n] ".to_vec();
    assert!(run.round(false, true).is_empty());
}

#[test]
fn changed_config_files_are_reported() {
    let mut run = Run::new(false);
    run.status = b"pmconffile:b:0:x\npmconffile:a:0:x\npmconffile:b:0:x\npmerror:c:0:oops\n".to_vec();
    let out = run.round(false, false);
    assert!(matches!(&out[0], Action::Print(Line::Out(t)) if t == "  ✗ oops"));
    let (lines, end) = run.finish(false, true, "");
    assert!(end.is_ok());
    assert_eq!(
        lines,
        [
            "! 2 packages shipped changed config files; kept your existing versions (new ones saved alongside as *.dpkg-dist):",
            "    a",
            "    b",
        ]
        .map(|t| Line::Error(t.to_string()))
    );
    let mut run = Run::new(true);
    run.status = b"pmconffile:b:0:x\n".to_vec();
    let out = run.round(false, false);
    assert!(matches!(&out[0], Action::Reveal));
    let (lines, _) = run.finish(false, true, "");
    assert!(lines.is_empty());
}

#[test]
fn the_parked_bar_is_relabelled() {
    let mut run = Run::new(false);
    run.status = b"pmstatus:htop:80:Installed htop\n".to_vec();
    run.round(false, false);
    let out = run.round(false, true);
    assert!(matches!(&out[0], Action::Message(t) if t == "Finishing up..."));
    run.stdout = b"Processing triggers for man-db ...\n".to_vec();
    let out = run.round(false, false);
    assert!(matches!(&out[0], Action::Message(t) if t == "Finishing up..."));
}

#[test]
fn a_message_may_hold_colons() {
    let mut run = Run::new(false);
    run.status = b"pmstatus:libc6:12.5:Unpacking libc6:amd64 (amd64)\n".to_vec();
    let out = run.round(false, false);
    assert!(matches!(&out[0], Action::Position(t) if t == "12.5"));
    assert!(matches!(&out[1], Action::Message(t) if t == "Unpacking libc6:amd64"));
    assert_eq!(strip_arch("htop (amd64) 3.4.1"), "htop 3.4.1");
}

#[test]
fn apt_is_told_where_to_report() {
    let args = vec!["install".to_string(), "htop".to_string()];
    assert_eq!(
        apt_args(&args),
        ["-y", "-o", "APT::Status-Fd=3", "-o", "Dpkg::Use-Pty=0", "install", "htop"]
    );
    assert_eq!(
        verbose_args(&args),
        ["-y", "-o", "Dpkg::Progress-Fancy=1", "install", "htop"]
    );
    assert_eq!(frontend(true), "readline");
    assert_eq!(frontend(false), "noninteractive");
    assert_eq!(reveal_line(false), Line::Error("! apt needs your input:".to_string()));
}

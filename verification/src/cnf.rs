//! `wrapt command-not-found`: suggests a package for an unrecognised command,
//! and writes the shell hooks that call it.

use vstd::prelude::*;
use vstd::string::StringExecFns;

use crate::apt::Output;
use crate::cli::Shell;
use crate::order::{listing, sort_texts};
use crate::text::{
    cat2, cat3, cat4, cat6, chars_of, copy_strings, has_prefix, lemma_texts_push, lines, lines_of,
    opt_text, pieces, replace_char, replace_char_of, starts, string_of, texts, trim, trim_of,
};
use crate::ui::{
    bold, bold_text, bold_yellow, complain, cyan, cyan_text, dim_text, dimmed, line_views, no_lines,
    say, success_line, success_text, yellow_text, Line, LineView,
};

verus! {

// ---------------------------------------------------------------------------
// Quoting
// ---------------------------------------------------------------------------

/// The character means something in an extended regular expression.
pub open spec fn is_meta(c: char) -> bool {
    ||| c == '.'
    ||| c == '^'
    ||| c == '$'
    ||| c == '*'
    ||| c == '+'
    ||| c == '?'
    ||| c == '('
    ||| c == ')'
    ||| c == '['
    ||| c == ']'
    ||| c == '{'
    ||| c == '}'
    ||| c == '|'
    ||| c == '\\'
    ||| c == '/'
}

/// The text with a backslash before every such character.
pub open spec fn escaped(s: Seq<char>) -> Seq<char>
    decreases s.len(),
{
    if s.len() == 0 {
        seq![]
    } else if is_meta(s.last()) {
        escaped(s.drop_last()).push('\\').push(s.last())
    } else {
        escaped(s.drop_last()).push(s.last())
    }
}

/// What a regular expression matches literally: a backslash takes its meaning
/// from the character behind it, and any other character with a meaning makes
/// it no literal.
pub open spec fn literal(s: Seq<char>) -> Option<Seq<char>>
    decreases s.len(),
{
    if s.len() == 0 {
        Some(seq![])
    } else if s[0] == '\\' {
        if s.len() == 1 {
            None
        } else {
            match literal(s.skip(2)) {
                Some(rest) => Some(seq![s[1]] + rest),
                None => None,
            }
        }
    } else if is_meta(s[0]) {
        None
    } else {
        match literal(s.skip(1)) {
            Some(rest) => Some(seq![s[0]] + rest),
            None => None,
        }
    }
}

proof fn lemma_literal_concat(a: Seq<char>, b: Seq<char>)
    requires
        literal(a) is Some,
        literal(b) is Some,
    ensures
        literal(a + b) == Some(literal(a)->0 + literal(b)->0),
    decreases a.len(),
{
    if a.len() == 0 {
        assert(a + b =~= b);
        assert(literal(a)->0 + literal(b)->0 =~= literal(b)->0);
    } else if a[0] == '\\' {
        assert((a + b).skip(2) =~= a.skip(2) + b);
        lemma_literal_concat(a.skip(2), b);
        assert(literal(a)->0 + literal(b)->0 =~= seq![a[1]] + (literal(a.skip(2))->0 + literal(
            b,
        )->0));
    } else {
        assert((a + b).skip(1) =~= a.skip(1) + b);
        lemma_literal_concat(a.skip(1), b);
        assert(literal(a)->0 + literal(b)->0 =~= seq![a[0]] + (literal(a.skip(1))->0 + literal(
            b,
        )->0));
    }
}

/// An escaped text matches itself and nothing else.
pub proof fn an_escaped_text_is_literal(s: Seq<char>)
    ensures
        literal(escaped(s)) == Some(s),
    decreases s.len(),
{
    if s.len() > 0 {
        let before = s.drop_last();
        let c = s.last();
        an_escaped_text_is_literal(before);
        let tail = if is_meta(c) {
            seq!['\\', c]
        } else {
            seq![c]
        };
        assert(tail.skip(tail.len() as int) =~= seq![]);
        assert(literal(Seq::<char>::empty()) == Some(Seq::<char>::empty()));
        assert(literal(tail) == Some(seq![c] + Seq::<char>::empty()));
        assert(seq![c] + Seq::<char>::empty() =~= seq![c]);
        lemma_literal_concat(escaped(before), tail);
        assert(escaped(s) =~= escaped(before) + tail);
        assert(before + seq![c] =~= s);
    }
}

fn meta(c: char) -> (r: bool)
    ensures
        r == is_meta(c),
{
    c == '.' || c == '^' || c == '$' || c == '*' || c == '+' || c == '?' || c == '(' || c == ')'
        || c == '[' || c == ']' || c == '{' || c == '}' || c == '|' || c == '\\' || c == '/'
}

/// Escapes a string for safe use in an extended regular expression.
pub fn regex_escape(s: &str) -> (r: String)
    ensures
        r@ == escaped(s@),
{
    let chars = chars_of(s);
    let mut out = String::new();
    let mut i: usize = 0;
    while i < chars.len()
        invariant
            i <= chars@.len(),
            out@ == escaped(chars@.take(i as int)),
        decreases chars@.len() - i,
    {
        assert(chars@.take(i + 1).drop_last() =~= chars@.take(i as int));
        if meta(chars[i]) {
            out.push('\\');
        }
        out.push(chars[i]);
        i += 1;
    }
    assert(chars@.take(chars@.len() as int) =~= chars@);
    out
}

/// The text between single quotes, each quote in it written as `'\''`.
pub open spec fn quoted(s: Seq<char>) -> Seq<char> {
    "'"@ + replace_char(s, '\'', "'\\''"@) + "'"@
}

/// What a POSIX shell makes of a word of quoted text: in single quotes every
/// character stands for itself; outside them a backslash makes the next one
/// stand for itself. Anything else is no such word.
pub open spec fn shell_word(s: Seq<char>, quoting: bool) -> Option<Seq<char>>
    decreases s.len(),
{
    if s.len() == 0 {
        if quoting {
            None
        } else {
            Some(seq![])
        }
    } else if s[0] == '\'' {
        shell_word(s.skip(1), !quoting)
    } else if quoting {
        match shell_word(s.skip(1), quoting) {
            Some(rest) => Some(seq![s[0]] + rest),
            None => None,
        }
    } else if s[0] == '\\' && s.len() > 1 {
        match shell_word(s.skip(2), quoting) {
            Some(rest) => Some(seq![s[1]] + rest),
            None => None,
        }
    } else {
        None
    }
}

proof fn lemma_inside_quotes(s: Seq<char>, tail: Seq<char>)
    requires
        shell_word(tail, true) is Some,
    ensures
        shell_word(replace_char(s, '\'', "'\\''"@) + tail, true) == Some(
            s + shell_word(tail, true)->0,
        ),
    decreases s.len(),
{
    let mark = "'\\''"@;
    if s.len() == 0 {
        assert(replace_char(s, '\'', mark) + tail =~= tail);
        assert(s + shell_word(tail, true)->0 =~= shell_word(tail, true)->0);
    } else {
        let before = s.drop_last();
        let c = s.last();
        let rest = shell_word(tail, true)->0;
        if c == '\'' {
            reveal_strlit("'\\''");
            let more = mark + tail;
            assert(more[0] == '\'' && more[1] == '\\' && more[2] == '\'' && more[3] == '\'');
            let m1 = more.skip(1);
            let m2 = m1.skip(2);
            assert(m2[0] == '\'');
            assert(m2.skip(1) =~= tail);
            assert(shell_word(m2, false) == Some(rest));
            assert(shell_word(m1, false) == Some(seq![c] + rest));
            assert(shell_word(more, true) == Some(seq![c] + rest));
            lemma_inside_quotes(before, more);
            assert(replace_char(s, '\'', mark) + tail =~= replace_char(before, '\'', mark) + more);
            assert(before + (seq![c] + rest) =~= s + rest);
        } else {
            let more = seq![c] + tail;
            assert(more.skip(1) =~= tail);
            assert(shell_word(more, true) == Some(seq![c] + rest));
            lemma_inside_quotes(before, more);
            assert(replace_char(s, '\'', mark) + tail =~= replace_char(before, '\'', mark) + more);
            assert(before + (seq![c] + rest) =~= s + rest);
        }
    }
}

/// A shell reads a quoted text back as that text.
pub proof fn a_quoted_text_is_read_back(s: Seq<char>)
    ensures
        shell_word(quoted(s), false) == Some(s),
{
    reveal_strlit("'");
    let mark = "'\\''"@;
    let tail = "'"@;
    assert(tail[0] == '\'');
    assert(tail.skip(1) =~= seq![]);
    assert(shell_word(Seq::<char>::empty(), false) == Some(Seq::<char>::empty()));
    assert(shell_word(tail, true) == Some(Seq::<char>::empty()));
    lemma_inside_quotes(s, tail);
    let inner = replace_char(s, '\'', mark) + tail;
    assert(quoted(s)[0] == '\'');
    assert(quoted(s).skip(1) =~= inner);
    assert(s + Seq::<char>::empty() =~= s);
}

/// Single-quotes a string for a POSIX shell command line.
pub fn shell_quote(s: &str) -> (r: String)
    ensures
        r@ == quoted(s@),
{
    let chars = chars_of(s);
    let inner = replace_char_of(chars.as_slice(), '\'', "'\\''");
    cat3("'", inner.as_str(), "'")
}

// ---------------------------------------------------------------------------
// Looking a command up
// ---------------------------------------------------------------------------

/// The script that tells where a command is on the path.
pub fn path_script(cmd: &str) -> (r: String)
    ensures
        r@ == "command -v -- "@ + quoted(cmd@),
{
    cat2("command -v -- ", shell_quote(cmd).as_str())
}

/// The expression that finds an executable of that name in a bin directory.
pub fn lookup_pattern(cmd: &str) -> (r: String)
    ensures
        r@ == "/(bin|sbin|games)/"@ + escaped(cmd@) + "$"@,
{
    cat3("/(bin|sbin|games)/", regex_escape(cmd).as_str(), "$")
}

/// The absolute path that a shell printed, if it found one.
pub open spec fn found_path(success: bool, stdout: Seq<char>) -> Option<Seq<char>> {
    if success && has_prefix(trim(stdout), "/"@) {
        Some(trim(stdout))
    } else {
        None
    }
}

/// The absolute path of a command, from what the shell printed if it could be
/// run.
pub fn on_path(out: Option<&Output>) -> (r: Option<String>)
    ensures
        opt_text(r) == match out {
            Some(o) => found_path(o.success, o.stdout@),
            None => None,
        },
{
    match out {
        Some(o) => {
            if !o.success {
                return None;
            }
            let chars = chars_of(o.stdout.as_str());
            let path = trim_of(chars.as_slice());
            if starts(path, "/") {
                Some(string_of(path))
            } else {
                None
            }
        },
        None => None,
    }
}

/// The lines, trimmed, without empty ones.
pub open spec fn full_lines(ls: Seq<Seq<char>>) -> Seq<Seq<char>>
    decreases ls.len(),
{
    if ls.len() == 0 {
        seq![]
    } else if trim(ls.last()).len() == 0 {
        full_lines(ls.drop_last())
    } else {
        full_lines(ls.drop_last()).push(trim(ls.last()))
    }
}

/// Packages that ship a command, from the output of `apt-file` if it could be
/// run.
pub fn apt_file_lookup(out: Option<&Output>) -> (r: Vec<String>)
    ensures
        texts(r@) == match out {
            Some(o) => if o.success {
                full_lines(lines(o.stdout@))
            } else {
                seq![]
            },
            None => seq![],
        },
{
    let mut v: Vec<String> = Vec::new();
    assert(texts(v@) =~= seq![]);
    if let Some(o) = out {
        if o.success {
            let chars = chars_of(o.stdout.as_str());
            let ls = lines_of(chars.as_slice());
            let ghost all = pieces(ls@);
            let mut i: usize = 0;
            assert(all.take(0) =~= seq![]);
            while i < ls.len()
                invariant
                    all == pieces(ls@),
                    i <= ls@.len(),
                    texts(v@) == full_lines(all.take(i as int)),
                decreases ls@.len() - i,
            {
                broadcast use lemma_texts_push;

                assert(all.take(i + 1).drop_last() =~= all.take(i as int));
                assert(all.take(i + 1).last() == ls@[i as int]@);
                let line = trim_of(ls[i]);
                if line.len() > 0 {
                    v.push(string_of(line));
                }
                i += 1;
            }
            assert(all.take(all.len() as int) =~= all);
        }
    }
    v
}

/// The packages that may be meant: those that ship the command or, where none
/// is known, the one of the same name if there is one.
pub open spec fn meant(cmd: Seq<char>, found: Seq<Seq<char>>, same_named: bool) -> Set<Seq<char>> {
    if found.len() > 0 {
        found.to_set()
    } else if same_named {
        seq![cmd].to_set()
    } else {
        Set::empty()
    }
}

/// The packages to suggest, each once and in order.
pub fn suggestions(cmd: &str, found: &Vec<String>, same_named: bool) -> (r: Vec<String>)
    ensures
        listing(texts(r@), meant(cmd@, texts(found@), same_named)),
{
    broadcast use lemma_texts_push;

    let mut v = copy_strings(found);
    assert(texts(v@).len() == v@.len());
    if v.len() == 0 && same_named {
        v.push(cmd.to_owned());
        assert(texts(v@) =~= seq![cmd@]);
    }
    let ghost all = texts(v@).to_set();
    assert(all =~= meant(cmd@, texts(found@), same_named));
    sort_texts(v)
}

/// The command that installs a package.
pub open spec fn install_hint(color: bool, pkg: Seq<char>) -> LineView {
    LineView::Error("  "@ + cyan_text(color, "sudo wrapt install "@ + pkg))
}

/// The commands that install packages, below the given lines.
pub open spec fn install_hints(
    above: Seq<LineView>,
    color: bool,
    pkgs: Seq<Seq<char>>,
) -> Seq<LineView>
    decreases pkgs.len(),
{
    if pkgs.len() == 0 {
        above
    } else {
        install_hints(above, color, pkgs.drop_last()).push(install_hint(color, pkgs.last()))
    }
}

/// What is said of a command that is not there.
pub open spec fn missing_lines(
    color: bool,
    cmd: Seq<char>,
    pkgs: Seq<Seq<char>>,
    apt_file: bool,
) -> Seq<LineView> {
    let none: Seq<LineView> = seq![];
    let mark = bold_text(color, yellow_text(color, "!"@));
    let name = bold_text(color, cmd);
    if pkgs.len() == 0 {
        let told = none.push(LineView::Error(mark + " command not found: "@ + name));
        if apt_file {
            told
        } else {
            told.push(
                LineView::Error(
                    "  "@ + dim_text(
                        color,
                        "For suggestions across all packages, install apt-file:"@,
                    ),
                ),
            ).push(
                LineView::Error(
                    "  "@ + cyan_text(color, "wrapt install apt-file && sudo apt-file update"@),
                ),
            )
        }
    } else if pkgs.len() == 1 {
        none.push(
            LineView::Error(
                mark + " the program "@ + name + " is not installed. Install it with:"@,
            ),
        ).push(install_hint(color, pkgs[0]))
    } else {
        install_hints(
            none.push(
                LineView::Error(
                    mark + " "@ + name + " is provided by several packages. Install one of:"@,
                ),
            ),
            color,
            pkgs,
        )
    }
}

fn hint_of(color: bool, pkg: &str) -> (r: String)
    ensures
        LineView::Error(r@) == install_hint(color, pkg@),
{
    cat2("  ", cyan(color, cat2("sudo wrapt install ", pkg).as_str()).as_str())
}

fn missing(color: bool, cmd: &str, pkgs: &Vec<String>, apt_file: bool) -> (out: Vec<Line>)
    ensures
        line_views(out@) == missing_lines(color, cmd@, texts(pkgs@), apt_file),
{
    let ghost all = texts(pkgs@);
    let mut out = no_lines();
    let mark = bold_yellow(color, "!");
    let name = bold(color, cmd);
    assert(all.len() == pkgs@.len());
    if pkgs.len() == 0 {
        complain(&mut out, cat3(mark.as_str(), " command not found: ", name.as_str()));
        if !apt_file {
            let advice = dimmed(color, "For suggestions across all packages, install apt-file:");
            complain(&mut out, cat2("  ", advice.as_str()));
            let command = cyan(color, "wrapt install apt-file && sudo apt-file update");
            complain(&mut out, cat2("  ", command.as_str()));
        }
    } else if pkgs.len() == 1 {
        assert(all[0] == pkgs@[0]@);
        complain(
            &mut out,
            cat4(
                mark.as_str(),
                " the program ",
                name.as_str(),
                " is not installed. Install it with:",
            ),
        );
        complain(&mut out, hint_of(color, pkgs[0].as_str()));
    } else {
        complain(
            &mut out,
            cat4(
                mark.as_str(),
                " ",
                name.as_str(),
                " is provided by several packages. Install one of:",
            ),
        );
        let ghost above = line_views(out@);
        let mut i: usize = 0;
        assert(all.take(0) =~= seq![]);
        while i < pkgs.len()
            invariant
                all == texts(pkgs@),
                i <= pkgs@.len(),
                line_views(out@) == install_hints(above, color, all.take(i as int)),
            decreases pkgs@.len() - i,
        {
            assert(all.take(i + 1).drop_last() =~= all.take(i as int));
            assert(all.take(i + 1).last() == pkgs@[i as int]@);
            complain(&mut out, hint_of(color, pkgs[i].as_str()));
            i += 1;
        }
        assert(all.take(all.len() as int) =~= all);
    }
    out
}

/// What is said of a command, and whether it is on the path after all. `pkgs`
/// are the packages to suggest.
pub fn resolve(
    color: bool,
    cmd: &str,
    path: Option<&str>,
    pkgs: &Vec<String>,
    apt_file: bool,
) -> (r: (Vec<Line>, bool))
    ensures
        r.1 == path is Some,
        match path {
            Some(p) => line_views(r.0@) == seq![
                LineView::Out(
                    success_text(
                        color,
                        cmd@ + " is already available at "@ + cyan_text(color, p@) + "."@,
                    ),
                ),
            ],
            None => line_views(r.0@) == missing_lines(color, cmd@, texts(pkgs@), apt_file),
        },
{
    match path {
        Some(p) => {
            let mut out = no_lines();
            let text = cat4(cmd, " is already available at ", cyan(color, p).as_str(), ".");
            say(&mut out, success_line(color, text.as_str()));
            assert(line_views(out@) =~= seq![
                LineView::Out(
                    success_text(
                        color,
                        cmd@ + " is already available at "@ + cyan_text(color, p@) + "."@,
                    ),
                ),
            ]);
            (out, true)
        },
        None => (missing(color, cmd, pkgs, apt_file), false),
    }
}

// ---------------------------------------------------------------------------
// Shell hooks
// ---------------------------------------------------------------------------

/// A hook with a label before it and a reminder behind it of how to enable it.
pub open spec fn hook_text(body: Seq<char>, rc: Seq<char>, enable: Seq<char>) -> Seq<char> {
    "# wrapt command-not-found handler\n"@ + body
        + "#\n# To enable, add the following line to "@ + rc + ":\n#   "@ + enable + "\n"@
}

/// The hook of a shell, if there is one.
pub open spec fn shell_hook(shell: Shell) -> Option<Seq<char>> {
    match shell {
        Shell::Bash => Some(
            hook_text(
                "command_not_found_handle() {\n\twrapt command-not-found -- \"$1\"\n\treturn 127\n}\n"@,
                "~/.bashrc"@,
                "eval \"$(wrapt command-not-found --init bash)\""@,
            ),
        ),
        Shell::Zsh => Some(
            hook_text(
                "command_not_found_handler() {\n\twrapt command-not-found -- \"$1\"\n\treturn 127\n}\n"@,
                "~/.zshrc"@,
                "eval \"$(wrapt command-not-found --init zsh)\""@,
            ),
        ),
        Shell::Fish => Some(
            hook_text(
                "function fish_command_not_found\n\twrapt command-not-found -- $argv[1]\nend\n"@,
                "~/.config/fish/config.fish"@,
                "wrapt command-not-found --init fish | source"@,
            ),
        ),
        _ => None,
    }
}

fn hook_of(body: &str, rc: &str, enable: &str) -> (r: String)
    ensures
        r@ == hook_text(body@, rc@, enable@),
{
    let mut out = cat6(
        "# wrapt command-not-found handler\n",
        body,
        "#\n# To enable, add the following line to ",
        rc,
        ":\n#   ",
        enable,
    );
    out.append("\n");
    out
}

/// The shell hook that routes unknown commands through wrapt.
pub fn print_hook(shell: Shell) -> (r: Result<String, String>)
    ensures
        match r {
            Ok(text) => shell_hook(shell) == Some(text@),
            Err(e) => shell_hook(shell) is None && e@ == "no command-not-found hook for "@
                + shell.title() + " — supported shells are bash, zsh, and fish"@,
        },
{
    match shell {
        Shell::Bash => Ok(
            hook_of(
                "command_not_found_handle() {\n\twrapt command-not-found -- \"$1\"\n\treturn 127\n}\n",
                "~/.bashrc",
                "eval \"$(wrapt command-not-found --init bash)\"",
            ),
        ),
        Shell::Zsh => Ok(
            hook_of(
                "command_not_found_handler() {\n\twrapt command-not-found -- \"$1\"\n\treturn 127\n}\n",
                "~/.zshrc",
                "eval \"$(wrapt command-not-found --init zsh)\"",
            ),
        ),
        Shell::Fish => Ok(
            hook_of(
                "function fish_command_not_found\n\twrapt command-not-found -- $argv[1]\nend\n",
                "~/.config/fish/config.fish",
                "wrapt command-not-found --init fish | source",
            ),
        ),
        other => Err(
            cat3(
                "no command-not-found hook for ",
                other.name(),
                " — supported shells are bash, zsh, and fish",
            ),
        ),
    }
}

} // verus!

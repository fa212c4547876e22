//! `wrapt changelog`: a package's changelog, with security fixes highlighted.

use vstd::prelude::*;

use crate::text::{
    cat2, cat3, chars_of, has_prefix, has_text, holds, is_space, lines, lines_of, lowercase, pieces,
    space, starts, string_of, trim, trim_end, trim_end_of, trim_of,
};
use crate::ui::{
    bold_cyan, bold_text, complain, cyan_text, header_line, header_text, line_views, no_lines, say,
    warn_line, warn_text, yellow, yellow_text, Line, LineView,
};

verus! {

/// The line is one of apt's download progress, which it prints ahead of the
/// changelog.
pub open spec fn is_noise(line: Seq<char>) -> bool {
    ||| has_prefix(line, "Get:"@)
    ||| has_prefix(line, "Hit:"@)
    ||| has_prefix(line, "Ign:"@)
    ||| has_prefix(line, "Err:"@)
    ||| has_prefix(line, "Fetched "@)
    ||| has_prefix(line, "Reading "@)
}

/// The line heads an entry, e.g. `htop (3.4.1-1) noble; urgency=medium`.
pub open spec fn is_entry(line: Seq<char>) -> bool {
    line.len() > 0 && !is_space(line[0]) && has_text(line, "("@) && has_text(line, ")"@)
}

/// The line, given in small letters, speaks of security.
pub open spec fn is_security(lower: Seq<char>) -> bool {
    ||| has_text(lower, "cve-"@)
    ||| has_text(lower, "security"@)
    ||| has_text(lower, "urgency=high"@)
    ||| has_text(lower, "urgency=critical"@)
}

/// A line in its colour: entry headers in cyan, security-relevant lines in
/// yellow, everything else plain.
pub open spec fn rendered(color: bool, line: Seq<char>, lower: Seq<char>) -> Seq<char> {
    if is_entry(line) {
        bold_text(color, cyan_text(color, line))
    } else if is_security(lower) {
        yellow_text(color, line)
    } else {
        line
    }
}

fn is_acquire_noise(line: &[char]) -> (r: bool)
    ensures
        r == is_noise(line@),
{
    starts(line, "Get:") || starts(line, "Hit:") || starts(line, "Ign:") || starts(line, "Err:")
        || starts(line, "Fetched ") || starts(line, "Reading ")
}

/// A line in its colour, given the line in small letters, too.
pub fn render_lowered(color: bool, line: &str, lower: &str) -> (r: String)
    ensures
        r@ == rendered(color, line@, lower@),
{
    let chars = chars_of(line);
    let s = chars.as_slice();
    if s.len() > 0 && !space(s[0]) && holds(s, "(") && holds(s, ")") {
        return bold_cyan(color, line);
    }
    let lowered = chars_of(lower);
    let l = lowered.as_slice();
    if holds(l, "cve-") || holds(l, "security") || holds(l, "urgency=high") || holds(
        l,
        "urgency=critical",
    ) {
        return yellow(color, line);
    }
    line.to_owned()
}

/// A line in its colour.
pub fn render_line(color: bool, line: &str) -> (r: String)
    ensures
        r@ == rendered(color, line@, lowercase(line@)),
{
    render_lowered(color, line, line.to_lowercase().as_str())
}

/// The lines of a changelog, below the given ones.
pub open spec fn changelog_lines(
    above: Seq<LineView>,
    color: bool,
    ls: Seq<Seq<char>>,
) -> Seq<LineView>
    decreases ls.len(),
{
    if ls.len() == 0 {
        above
    } else {
        let told = changelog_lines(above, color, ls.drop_last());
        if is_noise(ls.last()) {
            told
        } else {
            told.push(LineView::Out(rendered(color, ls.last(), lowercase(ls.last()))))
        }
    }
}

/// The changelog as it is shown.
pub open spec fn shown(color: bool, package: Seq<char>, text: Seq<char>) -> Seq<LineView> {
    let body = trim_end(text);
    let none: Seq<LineView> = seq![];
    if trim(body).len() == 0 {
        none.push(
            LineView::Error(warn_text(color, "No changelog available for "@ + package + "."@)),
        )
    } else {
        changelog_lines(
            none.push(LineView::Out(header_text(color, "Changelog for "@ + package))),
            color,
            lines(body),
        )
    }
}

/// The changelog of a package as it is shown.
pub fn run(color: bool, package: &str, text: &str) -> (out: Vec<Line>)
    ensures
        line_views(out@) == shown(color, package@, text@),
{
    let chars = chars_of(text);
    let body = trim_end_of(chars.as_slice());
    let mut out = no_lines();
    if trim_of(body).len() == 0 {
        let message = cat3("No changelog available for ", package, ".");
        complain(&mut out, warn_line(color, message.as_str()));
        return out;
    }
    say(&mut out, header_line(color, cat2("Changelog for ", package).as_str()));
    let ghost above = line_views(out@);
    let ls = lines_of(body);
    let ghost all = pieces(ls@);
    let mut i: usize = 0;
    assert(all.take(0) =~= seq![]);
    while i < ls.len()
        invariant
            all == pieces(ls@),
            i <= ls@.len(),
            line_views(out@) == changelog_lines(above, color, all.take(i as int)),
        decreases ls@.len() - i,
    {
        assert(all.take(i + 1).drop_last() =~= all.take(i as int));
        assert(all.take(i + 1).last() == ls@[i as int]@);
        if !is_acquire_noise(ls[i]) {
            say(&mut out, render_line(color, string_of(ls[i]).as_str()));
        }
        i += 1;
    }
    assert(all.take(all.len() as int) =~= all);
    out
}

} // verus!

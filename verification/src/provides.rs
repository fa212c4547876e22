//! `wrapt provides <file-or-command>`: finds which package owns a file or would
//! provide a command.

use vstd::prelude::*;

use crate::apt::{pairs, Output};
use crate::names::Names;
use crate::number::{decimal, decimal_usize};
use crate::order::{
    by_rank, comes_first, in_order, lemma_in_order_mapped, lemma_text_le_total, lemma_text_le_trans,
    sort, text_le, Ranked,
};
use crate::text::{
    cat2, cat3, cat6, chars_of, cut, cut_at, has_text, holds, lines, lines_of, opt_text, pieces,
    reads, same_str, split, split_at_char, string_of, trim, trim_of,
};
use crate::ui::{
    bold, bold_text, complain, cyan, cyan_text, dim_text, dimmed, green, green_text, header_line,
    header_text, line_views, no_lines, say, warn_line, warn_text, Line, LineView, Paint,
};

verus! {

// ---------------------------------------------------------------------------
// Reading what the tools found
// ---------------------------------------------------------------------------

/// A pattern that may be a command: it names no directory.
pub fn is_command(pattern: &str) -> (r: bool)
    ensures
        r == !has_text(pattern@, "/"@),
{
    let chars = chars_of(pattern);
    !holds(chars.as_slice(), "/")
}

/// The package and the file of a line `package: /path/to/file`. The first of
/// several packages counts, without its architecture.
pub open spec fn line_pair(line: Seq<char>) -> Option<(Seq<char>, Seq<char>)> {
    match cut(line, ": "@) {
        Some((pkgs, file)) => Some((trim(split(split(pkgs, ',')[0], ':')[0]), trim(file))),
        None => None,
    }
}

/// The packages and files of the lines that name them.
pub open spec fn line_pairs(ls: Seq<Seq<char>>) -> Seq<(Seq<char>, Seq<char>)>
    decreases ls.len(),
{
    if ls.len() == 0 {
        seq![]
    } else {
        let before = line_pairs(ls.drop_last());
        match line_pair(ls.last()) {
            Some(p) => before.push(p),
            None => before,
        }
    }
}

pub broadcast proof fn lemma_pairs_push(v: Seq<(String, String)>, p: (String, String))
    ensures
        #[trigger] pairs(v.push(p)) == pairs(v).push((p.0@, p.1@)),
{
    assert(pairs(v.push(p)) =~= pairs(v).push((p.0@, p.1@)));
}

/// The packages and files in the output of `dpkg -S` or `apt-file search`.
pub fn parse_pairs(text: &str) -> (v: Vec<(String, String)>)
    ensures
        pairs(v@) == line_pairs(lines(text@)),
{
    let chars = chars_of(text);
    let ls = lines_of(chars.as_slice());
    let ghost all = pieces(ls@);
    let mut v: Vec<(String, String)> = Vec::new();
    let mut i: usize = 0;
    assert(all.take(0) =~= seq![]);
    assert(pairs(v@) =~= seq![]);
    while i < ls.len()
        invariant
            all == pieces(ls@),
            i <= ls@.len(),
            pairs(v@) == line_pairs(all.take(i as int)),
        decreases ls@.len() - i,
    {
        broadcast use lemma_pairs_push;

        assert(all.take(i + 1).drop_last() =~= all.take(i as int));
        assert(all.take(i + 1).last() == ls@[i as int]@);
        if let Some((pkgs, file)) = cut_at(ls[i], ": ") {
            let names = split_at_char(pkgs, ',');
            assert(pieces(names@)[0] == names@[0]@);
            let parts = split_at_char(names[0], ':');
            assert(pieces(parts@)[0] == parts@[0]@);
            v.push((string_of(trim_of(parts[0])), string_of(trim_of(file))));
        }
        i += 1;
    }
    assert(all.take(all.len() as int) =~= all);
    v
}

/// The package that owns a file.
pub open spec fn owner_of(success: bool, stdout: Seq<char>) -> Option<Seq<char>> {
    if success && lines(stdout).len() > 0 {
        Some(split(lines(stdout)[0], ':')[0])
    } else {
        None
    }
}

/// The package that owns a file, from the output of `dpkg -S` if it could be
/// run.
pub fn dpkg_owner(out: Option<&Output>) -> (r: Option<String>)
    ensures
        opt_text(r) == match out {
            Some(o) => owner_of(o.success, o.stdout@),
            None => None,
        },
{
    match out {
        Some(o) => {
            if !o.success {
                return None;
            }
            let chars = chars_of(o.stdout.as_str());
            let ls = lines_of(chars.as_slice());
            if ls.len() == 0 {
                assert(pieces(ls@).len() == 0);
                return None;
            }
            assert(pieces(ls@)[0] == ls@[0]@);
            let parts = split_at_char(ls[0], ':');
            assert(pieces(parts@)[0] == parts@[0]@);
            Some(string_of(parts[0]))
        },
        None => None,
    }
}

// ---------------------------------------------------------------------------
// Rows
// ---------------------------------------------------------------------------

/// The pairs without repetitions; the first of each stays.
pub open spec fn once(ps: Seq<(Seq<char>, Seq<char>)>) -> Seq<(Seq<char>, Seq<char>)>
    decreases ps.len(),
{
    if ps.len() == 0 {
        seq![]
    } else if once(ps.drop_last()).contains(ps.last()) {
        once(ps.drop_last())
    } else {
        once(ps.drop_last()).push(ps.last())
    }
}

/// The file name at the end of a path.
pub open spec fn base_name(file: Seq<char>) -> Seq<char> {
    split(file, '/').last()
}

/// The order of rows: files that are named exactly by the pattern first, then by
/// path.
pub open spec fn by_file(pattern: Seq<char>) -> spec_fn(
    (Seq<char>, Seq<char>),
    (Seq<char>, Seq<char>),
) -> bool {
    |a: (Seq<char>, Seq<char>), b: (Seq<char>, Seq<char>)|
        {
            let x = base_name(a.1) == pattern;
            let y = base_name(b.1) == pattern;
            if x != y {
                x
            } else {
                text_le(a.1, b.1)
            }
        }
}

struct Owned {
    exact: bool,
    package: String,
    file: String,
}

impl Ranked for Owned {
    closed spec fn rank_le(&self, other: &Self) -> bool {
        if self.exact != other.exact {
            self.exact
        } else {
            text_le(self.file@, other.file@)
        }
    }

    proof fn rank_total(a: &Self, b: &Self) {
        lemma_text_le_total(a.file@, b.file@);
    }

    proof fn rank_trans(a: &Self, b: &Self, c: &Self) {
        if a.exact == b.exact && b.exact == c.exact {
            lemma_text_le_trans(a.file@, b.file@, c.file@);
        }
    }

    fn at_most(&self, other: &Self) -> (r: bool) {
        if self.exact != other.exact {
            self.exact
        } else {
            comes_first(self.file.as_str(), other.file.as_str())
        }
    }
}

spec fn owned(v: Seq<Owned>) -> Seq<(Seq<char>, Seq<char>)> {
    v.map_values(|o: Owned| (o.package@, o.file@))
}

fn is_exact(file: &str, pattern: &str) -> (r: bool)
    ensures
        r == (base_name(file@) == pattern@),
{
    let chars = chars_of(file);
    let parts = split_at_char(chars.as_slice(), '/');
    let last = parts[parts.len() - 1];
    assert(pieces(parts@).last() == last@);
    reads(last, pattern)
}

fn is_listed(v: &Vec<Owned>, package: &str, file: &str) -> (r: bool)
    ensures
        r == owned(v@).contains((package@, file@)),
{
    let mut i: usize = 0;
    while i < v.len()
        invariant
            i <= v@.len(),
            forall|k: int| 0 <= k < i ==> #[trigger] owned(v@)[k] != (package@, file@),
        decreases v@.len() - i,
    {
        assert(owned(v@)[i as int] == (v@[i as int].package@, v@[i as int].file@));
        if same_str(v[i].package.as_str(), package) && same_str(v[i].file.as_str(), file) {
            return true;
        }
        i += 1;
    }
    false
}

/// The packages and files found, each pair once, the best matches first.
pub fn found_rows(
    pattern: &str,
    installed: &Vec<(String, String)>,
    available: &Vec<(String, String)>,
) -> (r: Vec<(String, String)>)
    ensures
        in_order(pairs(r@), once(pairs(installed@) + pairs(available@)), by_file(pattern@)),
{
    let ghost all = pairs(installed@) + pairs(available@);
    let mut v: Vec<Owned> = Vec::new();
    let n: usize = installed.len();
    let mut i: usize = 0;
    let mut k: usize = 0;
    assert(all.take(0) =~= seq![]);
    assert(owned(v@) =~= seq![]);
    loop
        invariant
            all == pairs(installed@) + pairs(available@),
            n == installed@.len(),
            i <= n,
            k <= available@.len(),
            k > 0 ==> i == n,
            owned(v@) == once(all.take(i + k)),
            forall|j: int|
                0 <= j < v@.len() ==> (#[trigger] v@[j]).exact == (base_name(v@[j].file@)
                    == pattern@),
        ensures
            i == n,
            k == available@.len(),
        decreases n - i + available@.len() - k,
    {
        if i == n && k == available.len() {
            break;
        }
        let p = if i < n {
            &installed[i]
        } else {
            &available[k]
        };
        let ghost pv = (p.0@, p.1@);
        assert(all[i + k] == pv);
        assert(all.take(i + k + 1).drop_last() =~= all.take(i + k));
        assert(all.take(i + k + 1).last() == pv);
        if !is_listed(&v, p.0.as_str(), p.1.as_str()) {
            let ghost before = v@;
            let exact = is_exact(p.1.as_str(), pattern);
            v.push(Owned { exact, package: p.0.clone(), file: p.1.clone() });
            assert(owned(v@) =~= owned(before).push(pv));
        }
        if i < n {
            i += 1;
        } else {
            k += 1;
        }
    }
    assert(all.take(all.len() as int) =~= all);
    let ghost given = v@;
    let sorted = sort(v);
    let ghost f = |o: Owned| (o.package@, o.file@);
    proof {
        assert forall|a: int, b: int|
            #![trigger given[a], given[b]]
            0 <= a < given.len() && 0 <= b < given.len() implies by_rank::<Owned>()(
            given[a],
            given[b],
        ) == by_file(pattern@)(f(given[a]), f(given[b])) by {
        }
        lemma_in_order_mapped(sorted@, given, by_rank::<Owned>(), f, by_file(pattern@));
    }
    let mut out: Vec<(String, String)> = Vec::new();
    let mut j: usize = 0;
    while j < sorted.len()
        invariant
            j <= sorted@.len(),
            out@.len() == j,
            forall|m: int|
                0 <= m < j ==> (#[trigger] out@[m]).0@ == sorted@[m].package@ && out@[m].1@
                    == sorted@[m].file@,
        decreases sorted@.len() - j,
    {
        out.push((sorted[j].package.clone(), sorted[j].file.clone()));
        j += 1;
    }
    assert(pairs(out@) =~= sorted@.map_values(f));
    out
}

// ---------------------------------------------------------------------------
// The report
// ---------------------------------------------------------------------------

/// What is said of a command that is installed.
pub open spec fn owner_lines(
    color: bool,
    pattern: Seq<char>,
    path: Seq<char>,
    pkg: Seq<char>,
) -> Seq<LineView> {
    let none: Seq<LineView> = seq![];
    none.push(LineView::Out(header_text(color, pattern))).push(
        LineView::Out(
            "   "@ + cyan_text(color, path) + " is provided by "@ + green_text(
                color,
                bold_text(color, pkg),
            ) + " "@ + green_text(color, "[installed]"@),
        ),
    )
}

/// What is said of a command that is installed, given where it is and which
/// package owns it.
pub fn owned_by(color: bool, pattern: &str, path: &str, pkg: &str) -> (out: Vec<Line>)
    ensures
        line_views(out@) == owner_lines(color, pattern@, path@, pkg@),
{
    let mut out = no_lines();
    say(&mut out, header_line(color, pattern));
    say(
        &mut out,
        cat6(
            "   ",
            cyan(color, path).as_str(),
            " is provided by ",
            pkg.bold().green().render(color).as_str(),
            " ",
            green(color, "[installed]").as_str(),
        ),
    );
    out
}

/// The rows, two lines each, below the given lines.
pub open spec fn found_lines(
    above: Seq<LineView>,
    color: bool,
    installed: Set<Seq<char>>,
    ps: Seq<(Seq<char>, Seq<char>)>,
) -> Seq<LineView>
    decreases ps.len(),
{
    if ps.len() == 0 {
        above
    } else {
        let (pkg, file) = ps.last();
        let tag = if installed.contains(pkg) {
            " "@ + green_text(color, "[installed]"@)
        } else {
            ""@
        };
        found_lines(above, color, installed, ps.drop_last()).push(
            LineView::Out("   "@ + bold_text(color, pkg) + tag),
        ).push(LineView::Out("     "@ + dim_text(color, file)))
    }
}

/// The report on the rows: the first fifteen, and how many more there are.
pub open spec fn provided_lines(
    color: bool,
    pattern: Seq<char>,
    installed: Set<Seq<char>>,
    apt_file: bool,
    ps: Seq<(Seq<char>, Seq<char>)>,
) -> Seq<LineView> {
    let none: Seq<LineView> = seq![];
    if ps.len() == 0 {
        let told = none.push(
            LineView::Error(warn_text(color, "No package found providing '"@ + pattern + "'."@)),
        );
        if apt_file {
            told
        } else {
            told.push(
                LineView::Out(
                    "   "@ + dim_text(
                        color,
                        "Only installed files were searched. For all packages, install apt-file:"@,
                    ),
                ),
            ).push(
                LineView::Out(
                    "     "@ + cyan_text(color, "wrapt install apt-file && sudo apt-file update"@),
                ),
            )
        }
    } else {
        let title = none.push(
            LineView::Out(header_text(color, "Packages providing '"@ + pattern + "'"@)),
        );
        if ps.len() > 15 {
            found_lines(title, color, installed, ps.take(15)).push(
                LineView::Out(
                    "   "@ + dim_text(
                        color,
                        "… and "@ + decimal((ps.len() - 15) as nat) + " more match(es)"@,
                    ),
                ),
            )
        } else {
            found_lines(title, color, installed, ps)
        }
    }
}

/// The report on the rows found. `installed` are the installed packages, and
/// `apt_file` tells whether packages that are not installed were searched, too.
pub fn run(
    color: bool,
    pattern: &str,
    found: &Vec<(String, String)>,
    installed: &Names,
    apt_file: bool,
) -> (out: Vec<Line>)
    ensures
        line_views(out@) == provided_lines(color, pattern@, installed@, apt_file, pairs(found@)),
{
    let ghost all = pairs(found@);
    let mut out = no_lines();
    if found.len() == 0 {
        let text = cat3("No package found providing '", pattern, "'.");
        complain(&mut out, warn_line(color, text.as_str()));
        if !apt_file {
            let advice = dimmed(
                color,
                "Only installed files were searched. For all packages, install apt-file:",
            );
            say(&mut out, cat2("   ", advice.as_str()));
            let command = cyan(color, "wrapt install apt-file && sudo apt-file update");
            say(&mut out, cat2("     ", command.as_str()));
        }
        return out;
    }
    say(
        &mut out,
        header_line(color, cat3("Packages providing '", pattern, "'").as_str()),
    );
    let ghost title = line_views(out@);
    let mut i: usize = 0;
    assert(all.take(0) =~= seq![]);
    while i < found.len() && i < 15
        invariant
            all == pairs(found@),
            i <= found@.len(),
            i <= 15,
            line_views(out@) == found_lines(title, color, installed@, all.take(i as int)),
        decreases found@.len() - i,
    {
        assert(all.take(i + 1).drop_last() =~= all.take(i as int));
        assert(all.take(i + 1).last() == (found@[i as int].0@, found@[i as int].1@));
        let (pkg, file) = (found[i].0.as_str(), found[i].1.as_str());
        let tag = if installed.contains(pkg) {
            cat2(" ", green(color, "[installed]").as_str())
        } else {
            "".to_owned()
        };
        say(&mut out, cat3("   ", bold(color, pkg).as_str(), tag.as_str()));
        say(&mut out, cat2("     ", dimmed(color, file).as_str()));
        i += 1;
    }
    if found.len() > 15 {
        let text = cat3("… and ", decimal_usize(found.len() - 15).as_str(), " more match(es)");
        say(&mut out, cat2("   ", dimmed(color, text.as_str()).as_str()));
    } else {
        assert(all.take(all.len() as int) =~= all);
    }
    out
}

} // verus!

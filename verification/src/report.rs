//! What is shown of search results, package records, the reasons for a package
//! and the configuration.

use vstd::prelude::*;

use crate::apt::{results, ResultView, SearchResult};
use crate::commands::{install_args, Request, RequestView};
use crate::config::{row_view, row_views, RowView, Source};
use crate::number::{
    decimal, decimal_usize, pad, pad_left, padded, padded_left, parse_u64, unsigned_up_to,
};
use crate::text::{
    cat2, cat3, cat4, cat5, cat6, chars_of, copy_strings, cut, cut_at, has_prefix, join,
    join_strings, lemma_texts_push, lines, lines_of, opt_str, pieces, reads, starts, string_of,
    texts, trim, trim_of,
};
use crate::ui::{
    bold, bold_cyan, bold_green, bold_text, complain, cyan, cyan_text, dim_text, dimmed,
    format_size, green, green_text, header_line, header_text, line_views, no_lines, say, size_text,
    success_line, success_text, warn_line, warn_text, yellow, yellow_text, Line, LineView,
};
use crate::why::{Explanation, ExplanationView};

verus! {

// ---------------------------------------------------------------------------
// Search results
// ---------------------------------------------------------------------------

/// The two lines of a search result. Where the user can pick, it is numbered.
pub open spec fn result_lines(color: bool, r: ResultView, number: Option<nat>, width: nat) -> (
    LineView,
    LineView,
) {
    let index = match number {
        Some(n) => cyan_text(color, padded_left(decimal(n), width)) + ". "@,
        None => ""@,
    };
    let version = match r.version {
        Some(v) => " "@ + cyan_text(color, v),
        None => ""@,
    };
    let installed = if r.installed {
        " "@ + bold_text(color, green_text(color, "[installed]"@))
    } else {
        ""@
    };
    let indent = if number is Some {
        width + 2
    } else {
        4
    };
    (
        LineView::Out(index + bold_text(color, r.name) + version + installed),
        LineView::Out(padded(""@, indent) + dim_text(color, r.description)),
    )
}

/// The search results, one below the other.
pub open spec fn result_rows(
    color: bool,
    v: Seq<ResultView>,
    interactive: bool,
    width: nat,
) -> Seq<LineView>
    decreases v.len(),
{
    if v.len() == 0 {
        seq![]
    } else {
        let number = if interactive {
            Some(v.len())
        } else {
            None
        };
        let (first, second) = result_lines(color, v.last(), number, width);
        result_rows(color, v.drop_last(), interactive, width).push(first).push(second)
    }
}

fn say_result(
    color: bool,
    out: &mut Vec<Line>,
    r: &SearchResult,
    number: Option<usize>,
    width: usize,
)
    ensures
        ({
            let n = match number {
                Some(n) => Some(n as nat),
                None => None,
            };
            let (first, second) = result_lines(color, r@, n, width as nat);
            line_views(final(out)@) == line_views(old(out)@).push(first).push(second)
        }),
{
    let index = match number {
        Some(n) => cat2(
            cyan(color, pad_left(decimal_usize(n).as_str(), width).as_str()).as_str(),
            ". ",
        ),
        None => "".to_owned(),
    };
    let version = match &r.version {
        Some(v) => cat2(" ", cyan(color, v.as_str()).as_str()),
        None => "".to_owned(),
    };
    let installed = if r.installed {
        cat2(" ", bold_green(color, "[installed]").as_str())
    } else {
        "".to_owned()
    };
    proof {
        reveal_strlit("");
        reveal_strlit("  ");
    }
    let indent = match number {
        Some(_) => cat2(pad("", width).as_str(), "  "),
        None => pad("", 4),
    };
    assert(number is Some ==> indent@ =~= padded(""@, width as nat + 2));
    say(
        out,
        cat4(
            index.as_str(),
            bold(color, r.name.as_str()).as_str(),
            version.as_str(),
            installed.as_str(),
        ),
    );
    say(
        out,
        cat2(indent.as_str(), dimmed(color, r.description.as_str()).as_str()),
    );
}

/// The search results as they are shown. Where the user can pick some to install,
/// they are numbered.
pub fn show_results(color: bool, v: &Vec<SearchResult>, interactive: bool) -> (out: Vec<Line>)
    ensures
        line_views(out@) == result_rows(
            color,
            results(v@),
            interactive,
            decimal(v@.len()).len(),
        ),
{
    let ghost all = results(v@);
    let width: usize = chars_of(decimal_usize(v.len()).as_str()).len();
    let mut out = no_lines();
    let mut i: usize = 0;
    assert(all.take(0).len() == 0);
    while i < v.len()
        invariant
            i <= v@.len(),
            all == results(v@),
            width == decimal(v@.len()).len(),
            line_views(out@) == result_rows(
                color,
                all.take(i as int),
                interactive,
                width as nat,
            ),
        decreases v@.len() - i,
    {
        assert(all.take(i + 1).drop_last() =~= all.take(i as int));
        assert(all.take(i + 1).last() == v@[i as int]@);
        let number: Option<usize> = if interactive {
            Some(i + 1)
        } else {
            None
        };
        say_result(color, &mut out, &v[i], number, width);
        i += 1;
    }
    assert(all.take(all.len() as int) =~= all);
    out
}

/// What is said where a search finds nothing.
pub fn no_results(color: bool, query: &str) -> (r: Line)
    ensures
        r@ == LineView::Error(
            warn_text(color, "No packages found matching '"@ + query@ + "'."@),
        ),
{
    Line::Error(warn_line(color, cat3("No packages found matching '", query, "'.").as_str()))
}

/// The names of the picked results that are not installed. Results are counted
/// from 1.
pub open spec fn picked(v: Seq<ResultView>, picks: Seq<usize>) -> Seq<Seq<char>>
    decreases picks.len(),
{
    if picks.len() == 0 {
        seq![]
    } else {
        let before = picked(v, picks.drop_last());
        let n = picks.last() as int;
        if 1 <= n <= v.len() && !v[n - 1].installed {
            before.push(v[n - 1].name)
        } else {
            before
        }
    }
}

/// The install of the picked results, where there is one that is not installed.
pub fn pick(v: &Vec<SearchResult>, picks: &Vec<usize>) -> (r: Option<Request>)
    ensures
        match r {
            Some(q) => picked(results(v@), picks@).len() > 0 && q@ == (RequestView {
                args: seq!["install"@] + picked(results(v@), picks@),
                named: picked(results(v@), picks@),
                action: "Installing packages..."@,
                label: None,
            }),
            None => picked(results(v@), picks@).len() == 0,
        },
{
    let ghost all = results(v@);
    let mut names: Vec<String> = Vec::new();
    let mut i: usize = 0;
    proof {
        assert(picks@.take(0).len() == 0);
        assert(texts(names@) =~= seq![]);
    }
    while i < picks.len()
        invariant
            i <= picks@.len(),
            all == results(v@),
            texts(names@) == picked(all, picks@.take(i as int)),
        decreases picks@.len() - i,
    {
        broadcast use lemma_texts_push;

        assert(picks@.take(i + 1).drop_last() =~= picks@.take(i as int));
        let n: usize = picks[i];
        if 1 <= n && n <= v.len() {
            assert(all[n - 1] == v@[n - 1]@);
            if !v[n - 1].installed {
                names.push(v[n - 1].name.clone());
            }
        }
        i += 1;
    }
    assert(picks@.take(picks@.len() as int) =~= picks@);
    assert(texts(names@).len() == names@.len());
    if names.len() == 0 {
        return None;
    }
    Some(
        Request {
            args: install_args(&names),
            named: names,
            action: "Installing packages...",
            label: None,
        },
    )
}

// ---------------------------------------------------------------------------
// Package records
// ---------------------------------------------------------------------------

/// The size in KiB that a field states.
pub open spec fn stated_kib(value: Seq<char>) -> Option<nat> {
    unsigned_up_to(trim(value), u64::MAX as nat)
}

/// A line of a record states a size that is too large to show in bytes.
pub open spec fn is_too_large(line: Seq<char>) -> bool {
    match cut(line, ": "@) {
        Some((field, value)) => field == "Installed-Size"@ && !has_prefix(line, " "@)
            && stated_kib(value) is Some && stated_kib(value)->0 * 1024 > u64::MAX,
        None => false,
    }
}

/// A line of a record as it is shown: the field stands out, and a size is in
/// human units.
pub open spec fn record_line(color: bool, line: Seq<char>) -> Seq<char> {
    match cut(line, ": "@) {
        Some((field, value)) => if has_prefix(line, " "@) {
            line
        } else {
            let shown = if field == "Installed-Size"@ && stated_kib(value) is Some {
                size_text(stated_kib(value)->0 * 1024)
            } else {
                value
            };
            bold_text(color, cyan_text(color, field)) + bold_text(color, cyan_text(color, ":"@))
                + " "@ + shown
        },
        None => line,
    }
}

/// The lines of a record as they are shown.
pub open spec fn record_lines(color: bool, ls: Seq<Seq<char>>) -> Seq<LineView> {
    ls.map_values(|l: Seq<char>| LineView::Out(record_line(color, l)))
}

fn show_record_line(color: bool, line: &[char]) -> (r: Option<String>)
    ensures
        match r {
            Some(t) => !is_too_large(line@) && t@ == record_line(color, line@),
            None => is_too_large(line@),
        },
{
    match cut_at(line, ": ") {
        Some((field, value)) => {
            if starts(line, " ") {
                return Some(string_of(line));
            }
            let mut shown = string_of(value);
            if reads(field, "Installed-Size") {
                if let Some(kib) = parse_u64(trim_of(value)) {
                    if kib > u64::MAX / 1024 {
                        return None;
                    }
                    shown = format_size(kib * 1024);
                }
            }
            Some(
                cat4(
                    bold_cyan(color, string_of(field).as_str()).as_str(),
                    bold_cyan(color, ":").as_str(),
                    " ",
                    shown.as_str(),
                ),
            )
        },
        None => Some(string_of(line)),
    }
}

/// A package record as it is shown. `None` where a size in it is too large.
pub fn show_record(color: bool, record: &str) -> (r: Option<Vec<Line>>)
    ensures
        match r {
            Some(out) => line_views(out@) == record_lines(color, lines(record@)) && forall|i: int|
                0 <= i < lines(record@).len() ==> !is_too_large(#[trigger] lines(record@)[i]),
            None => exists|i: int|
                0 <= i < lines(record@).len() && is_too_large(#[trigger] lines(record@)[i]),
        },
{
    let chars = chars_of(record);
    let ls = lines_of(chars.as_slice());
    let ghost all = pieces(ls@);
    let mut out = no_lines();
    let mut i: usize = 0;
    while i < ls.len()
        invariant
            i <= ls@.len(),
            all == pieces(ls@),
            all == lines(record@),
            line_views(out@) == record_lines(color, all.take(i as int)),
            forall|j: int| 0 <= j < i ==> !is_too_large(#[trigger] all[j]),
        decreases ls@.len() - i,
    {
        assert(all[i as int] == ls@[i as int]@);
        match show_record_line(color, ls[i]) {
            Some(t) => {
                say(&mut out, t);
            },
            None => {
                return None;
            },
        }
        assert(all.take(i + 1) =~= all.take(i as int).push(all[i as int]));
        assert(record_lines(color, all.take(i + 1)) =~= record_lines(
            color,
            all.take(i as int),
        ).push(LineView::Out(record_line(color, all[i as int]))));
        i += 1;
    }
    assert(all.take(all.len() as int) =~= all);
    Some(out)
}

/// A list for inline display; a long one is cut short.
pub open spec fn summary(v: Seq<Seq<char>>) -> Seq<char> {
    if v.len() <= 6 {
        join(v, ", "@)
    } else {
        join(v.take(6), ", "@) + ", … (+"@ + decimal((v.len() - 6) as nat) + " more)"@
    }
}

fn first_strings(v: &Vec<String>, n: usize) -> (r: Vec<String>)
    requires
        n <= v@.len(),
    ensures
        texts(r@) == texts(v@).take(n as int),
{
    let mut out = copy_strings(v);
    let ghost all = texts(out@);
    assert(out@.len() == texts(out@).len());
    assert(v@.len() == texts(v@).len());
    out.truncate(n);
    assert(texts(out@) =~= all.take(n as int));
    out
}

/// A list for inline display; a long one is cut short.
pub fn summarize(items: &Vec<String>) -> (r: String)
    ensures
        r@ == summary(texts(items@)),
{
    if items.len() <= 6 {
        join_strings(items, ", ")
    } else {
        let first = first_strings(items, 6);
        cat4(
            join_strings(&first, ", ").as_str(),
            ", … (+",
            decimal_usize(items.len() - 6).as_str(),
            " more)",
        )
    }
}

/// A title that stands out.
pub open spec fn field_text(color: bool, title: Seq<char>) -> Seq<char> {
    bold_text(color, cyan_text(color, title))
}

/// Whether and why the package is installed, which its record leaves out.
pub open spec fn status_text(color: bool, e: ExplanationView) -> Seq<LineView> {
    let none: Seq<LineView> = seq![];
    if !e.installed {
        none
    } else {
        let state = if e.manual {
            "installed (manual)"@
        } else {
            "installed (automatic)"@
        };
        let a = none.push(LineView::Out(""@)).push(
            LineView::Out(field_text(color, "Status:"@) + " "@ + green_text(color, state)),
        );
        let b = if !e.manual && e.chain.len() >= 2 {
            a.push(
                LineView::Out(
                    field_text(color, "Reason:"@) + " "@ + green_text(color, e.chain[0])
                        + " pulls it in"@,
                ),
            )
        } else {
            a
        };
        if e.required_by.len() > 0 {
            b.push(
                LineView::Out(
                    field_text(color, "Required by:"@) + " "@ + decimal(e.required_by.len())
                        + " package(s): "@ + summary(e.required_by),
                ),
            )
        } else {
            b
        }
    }
}

/// Whether and why the package is installed.
pub fn show_status(color: bool, e: &Explanation) -> (out: Vec<Line>)
    ensures
        line_views(out@) == status_text(color, e@),
{
    let mut out = no_lines();
    if !e.installed {
        return out;
    }
    say(&mut out, "".to_owned());
    let state = if e.manual {
        "installed (manual)"
    } else {
        "installed (automatic)"
    };
    say(
        &mut out,
        cat3(bold_cyan(color, "Status:").as_str(), " ", green(color, state).as_str()),
    );
    if !e.manual && e.chain.len() >= 2 {
        assert(texts(e.chain@)[0] == e.chain@[0]@);
        say(
            &mut out,
            cat4(
                bold_cyan(color, "Reason:").as_str(),
                " ",
                green(color, e.chain[0].as_str()).as_str(),
                " pulls it in",
            ),
        );
    }
    if e.required_by.len() > 0 {
        say(
            &mut out,
            cat5(
                bold_cyan(color, "Required by:").as_str(),
                " ",
                decimal_usize(e.required_by.len()).as_str(),
                " package(s): ",
                summarize(&e.required_by).as_str(),
            ),
        );
    }
    out
}

// ---------------------------------------------------------------------------
// Why a package is installed
// ---------------------------------------------------------------------------

/// The names, one in each line, in green.
pub open spec fn green_list(above: Seq<LineView>, color: bool, v: Seq<Seq<char>>) -> Seq<LineView>
    decreases v.len(),
{
    if v.len() == 0 {
        above
    } else {
        green_list(above, color, v.drop_last()).push(
            LineView::Out("     "@ + green_text(color, v.last())),
        )
    }
}

/// The names, one in each line.
pub open spec fn plain_list(above: Seq<LineView>, v: Seq<Seq<char>>) -> Seq<LineView>
    decreases v.len(),
{
    if v.len() == 0 {
        above
    } else {
        plain_list(above, v.drop_last()).push(LineView::Out("     "@ + v.last()))
    }
}

/// The chain from a package that was installed on purpose (the first) to the one
/// it pulls in (the last); both stand out.
pub open spec fn chain_texts(color: bool, chain: Seq<Seq<char>>) -> Seq<Seq<char>> {
    chain.map(
        |i: int, p: Seq<char>|
            if i == 0 {
                bold_text(color, green_text(color, p))
            } else if i == chain.len() - 1 {
                bold_text(color, p)
            } else {
                p
            },
    )
}

/// What is said of a package that was installed on purpose.
pub open spec fn manual_lines(above: Seq<LineView>, color: bool, e: ExplanationView) -> Seq<
    LineView,
> {
    let a = above.push(
        LineView::Out(
            "   "@ + green_text(
                color,
                "Installed manually — you asked for this package directly."@,
            ),
        ),
    );
    if e.required_by.len() > 0 {
        a.push(
            LineView::Out(
                "   "@ + dim_text(color, "Other installed packages also depend on it:"@) + " "@
                    + dim_text(color, summary(e.required_by)),
            ),
        )
    } else {
        a
    }
}

/// Every package that pulls it in.
pub open spec fn root_lines(above: Seq<LineView>, color: bool, roots: Seq<Seq<char>>) -> Seq<
    LineView,
> {
    let a = above.push(LineView::Out(""@));
    if roots.len() == 0 {
        a.push(
            LineView::Out(
                "   "@ + yellow_text(
                    color,
                    "Couldn't trace it to any manually-installed package."@,
                ),
            ),
        )
    } else {
        green_list(
            a.push(
                LineView::Out(
                    "   "@ + bold_text(
                        color,
                        "Pulled in by these packages you installed manually"@,
                    ) + " ("@ + decimal(roots.len()) + "):"@,
                ),
            ),
            color,
            roots,
        )
    }
}

/// The chain that pulls it in.
pub open spec fn chain_lines(above: Seq<LineView>, color: bool, chain: Seq<Seq<char>>) -> Seq<
    LineView,
> {
    above.push(LineView::Out(""@)).push(
        LineView::Out(
            "   "@ + bold_text(color, green_text(color, chain[0]))
                + " installed it manually, which pulls in:"@,
        ),
    ).push(
        LineView::Out(
            "     "@ + join(chain_texts(color, chain), " "@ + cyan_text(color, "→"@) + " "@),
        ),
    )
}

/// That nothing needs it.
pub open spec fn orphan_lines(above: Seq<LineView>, color: bool) -> Seq<LineView> {
    above.push(LineView::Out(""@)).push(
        LineView::Out(
            "   "@ + yellow_text(color, "Nothing installed depends on it — it looks orphaned."@),
        ),
    ).push(
        LineView::Out(
            "   "@ + dim_text(color, "Remove unused packages with:"@) + " "@ + cyan_text(
                color,
                "wrapt autoremove"@,
            ),
        ),
    )
}

/// The packages that depend on it, the first ten of them.
pub open spec fn dependent_lines(above: Seq<LineView>, color: bool, by: Seq<Seq<char>>) -> Seq<
    LineView,
> {
    if by.len() == 0 {
        above
    } else {
        let a = above.push(LineView::Out(""@)).push(
            LineView::Out(
                "   "@ + bold_text(color, "Directly required by"@) + " ("@ + decimal(by.len())
                    + "):"@,
            ),
        );
        if by.len() > 10 {
            plain_list(a, by.take(10)).push(
                LineView::Out(
                    "     "@ + dim_text(
                        color,
                        "… and "@ + decimal((by.len() - 10) as nat) + " more"@,
                    ),
                ),
            )
        } else {
            plain_list(a, by)
        }
    }
}

/// Why the package is installed, as it is shown.
pub open spec fn why_text(color: bool, e: ExplanationView, all: bool) -> Seq<LineView> {
    let none: Seq<LineView> = seq![];
    if !e.installed {
        none.push(LineView::Error(warn_text(color, e.package + " is not installed."@)))
    } else {
        let head = none.push(LineView::Out(header_text(color, e.package)));
        if e.manual {
            manual_lines(head, color, e)
        } else {
            let a = head.push(
                LineView::Out(
                    "   "@ + yellow_text(color, "Installed automatically, as a dependency."@),
                ),
            );
            let b = if all {
                root_lines(a, color, e.roots)
            } else if e.chain.len() >= 2 {
                chain_lines(a, color, e.chain)
            } else if e.required_by.len() == 0 {
                orphan_lines(a, color)
            } else {
                a
            };
            dependent_lines(b, color, e.required_by)
        }
    }
}

fn say_green(color: bool, out: &mut Vec<Line>, v: &Vec<String>)
    ensures
        line_views(final(out)@) == green_list(line_views(old(out)@), color, texts(v@)),
{
    let ghost above = line_views(out@);
    let ghost all = texts(v@);
    let mut i: usize = 0;
    while i < v.len()
        invariant
            i <= v@.len(),
            all == texts(v@),
            line_views(out@) == green_list(above, color, all.take(i as int)),
        decreases v@.len() - i,
    {
        say(out, cat2("     ", green(color, v[i].as_str()).as_str()));
        assert(all.take(i + 1).drop_last() =~= all.take(i as int));
        assert(all.take(i + 1).last() == v@[i as int]@);
        i += 1;
    }
    assert(all.take(all.len() as int) =~= all);
}

fn say_plain(out: &mut Vec<Line>, v: &Vec<String>)
    ensures
        line_views(final(out)@) == plain_list(line_views(old(out)@), texts(v@)),
{
    let ghost above = line_views(out@);
    let ghost all = texts(v@);
    let mut i: usize = 0;
    while i < v.len()
        invariant
            i <= v@.len(),
            all == texts(v@),
            line_views(out@) == plain_list(above, all.take(i as int)),
        decreases v@.len() - i,
    {
        say(out, cat2("     ", v[i].as_str()));
        assert(all.take(i + 1).drop_last() =~= all.take(i as int));
        assert(all.take(i + 1).last() == v@[i as int]@);
        i += 1;
    }
    assert(all.take(all.len() as int) =~= all);
}

fn render_chain(color: bool, chain: &Vec<String>) -> (r: Vec<String>)
    ensures
        texts(r@) == chain_texts(color, texts(chain@)),
{
    let ghost all = texts(chain@);
    let mut out: Vec<String> = Vec::new();
    let mut i: usize = 0;
    while i < chain.len()
        invariant
            i <= chain@.len(),
            all == texts(chain@),
            texts(out@) == chain_texts(color, all).take(i as int),
        decreases chain@.len() - i,
    {
        broadcast use lemma_texts_push;

        assert(all[i as int] == chain@[i as int]@);
        let p = chain[i].as_str();
        let shown = if i == 0 {
            bold_green(color, p)
        } else if i == chain.len() - 1 {
            bold(color, p)
        } else {
            p.to_owned()
        };
        out.push(shown);
        assert(texts(out@) =~= chain_texts(color, all).take(i + 1));
        i += 1;
    }
    assert(texts(out@) =~= chain_texts(color, all));
    out
}

fn say_roots(color: bool, out: &mut Vec<Line>, roots: &Vec<String>)
    ensures
        line_views(final(out)@) == root_lines(line_views(old(out)@), color, texts(roots@)),
{
    say(out, "".to_owned());
    if roots.len() == 0 {
        say(
            out,
            cat2(
                "   ",
                yellow(color, "Couldn't trace it to any manually-installed package.").as_str(),
            ),
        );
        return;
    }
    say(
        out,
        cat5(
            "   ",
            bold(color, "Pulled in by these packages you installed manually").as_str(),
            " (",
            decimal_usize(roots.len()).as_str(),
            "):",
        ),
    );
    say_green(color, out, roots);
}

fn say_chain(color: bool, out: &mut Vec<Line>, chain: &Vec<String>)
    requires
        chain@.len() >= 1,
    ensures
        line_views(final(out)@) == chain_lines(line_views(old(out)@), color, texts(chain@)),
{
    assert(texts(chain@)[0] == chain@[0]@);
    say(out, "".to_owned());
    say(
        out,
        cat3(
            "   ",
            bold_green(color, chain[0].as_str()).as_str(),
            " installed it manually, which pulls in:",
        ),
    );
    let arrow = cat3(" ", cyan(color, "→").as_str(), " ");
    let parts = render_chain(color, chain);
    say(out, cat2("     ", join_strings(&parts, arrow.as_str()).as_str()));
}

fn say_orphan(color: bool, out: &mut Vec<Line>)
    ensures
        line_views(final(out)@) == orphan_lines(line_views(old(out)@), color),
{
    say(out, "".to_owned());
    say(
        out,
        cat2(
            "   ",
            yellow(color, "Nothing installed depends on it — it looks orphaned.").as_str(),
        ),
    );
    say(
        out,
        cat4(
            "   ",
            dimmed(color, "Remove unused packages with:").as_str(),
            " ",
            cyan(color, "wrapt autoremove").as_str(),
        ),
    );
}

fn say_dependents(color: bool, out: &mut Vec<Line>, by: &Vec<String>)
    ensures
        line_views(final(out)@) == dependent_lines(line_views(old(out)@), color, texts(by@)),
{
    if by.len() == 0 {
        return;
    }
    say(out, "".to_owned());
    say(
        out,
        cat5(
            "   ",
            bold(color, "Directly required by").as_str(),
            " (",
            decimal_usize(by.len()).as_str(),
            "):",
        ),
    );
    if by.len() > 10 {
        let first = first_strings(by, 10);
        say_plain(out, &first);
        let more = cat3("… and ", decimal_usize(by.len() - 10).as_str(), " more");
        say(out, cat2("     ", dimmed(color, more.as_str()).as_str()));
    } else {
        say_plain(out, by);
    }
}

/// Why the package is installed, as it is shown.
pub fn show_why(color: bool, e: &Explanation, all: bool) -> (out: Vec<Line>)
    ensures
        line_views(out@) == why_text(color, e@, all),
{
    let mut out = no_lines();
    if !e.installed {
        complain(
            &mut out,
            warn_line(color, cat2(e.package.as_str(), " is not installed.").as_str()),
        );
        return out;
    }
    say(&mut out, header_line(color, e.package.as_str()));
    if e.manual {
        say(
            &mut out,
            cat2(
                "   ",
                green(color, "Installed manually — you asked for this package directly.").as_str(),
            ),
        );
        if e.required_by.len() > 0 {
            say(
                &mut out,
                cat4(
                    "   ",
                    dimmed(color, "Other installed packages also depend on it:").as_str(),
                    " ",
                    dimmed(color, summarize(&e.required_by).as_str()).as_str(),
                ),
            );
        }
        return out;
    }
    say(
        &mut out,
        cat2("   ", yellow(color, "Installed automatically, as a dependency.").as_str()),
    );
    if all {
        say_roots(color, &mut out, &e.roots);
    } else if e.chain.len() >= 2 {
        say_chain(color, &mut out, &e.chain);
    } else if e.required_by.len() == 0 {
        say_orphan(color, &mut out);
    }
    say_dependents(color, &mut out, &e.required_by);
    out
}

// ---------------------------------------------------------------------------
// The configuration
// ---------------------------------------------------------------------------

/// What is said where there is no place for a starter config.
pub fn no_home() -> (r: String)
    ensures
        r@ == "cannot work out where your config should go (no HOME)"@,
{
    "cannot work out where your config should go (no HOME)".to_owned()
}

/// What is said once a starter config is written.
pub open spec fn written_text(color: bool, path: Seq<char>) -> Seq<LineView> {
    let none: Seq<LineView> = seq![];
    none.push(LineView::Out(success_text(color, "Wrote a starter config to "@ + path))).push(
        LineView::Out(
            "   "@ + dim_text(
                color,
                "Every setting is commented out — uncomment what you want to change."@,
            ),
        ),
    )
}

/// What is said once a starter config is written.
pub fn show_written(color: bool, path: &str) -> (out: Vec<Line>)
    ensures
        line_views(out@) == written_text(color, path@),
{
    let mut out = no_lines();
    say(&mut out, success_line(color, cat2("Wrote a starter config to ", path).as_str()));
    say(
        &mut out,
        cat2(
            "   ",
            dimmed(
                color,
                "Every setting is commented out — uncomment what you want to change.",
            ).as_str(),
        ),
    );
    out
}

/// The paths that configuration is read from.
pub open spec fn paths_text(system: Seq<char>, user: Option<Seq<char>>) -> Seq<LineView> {
    let none: Seq<LineView> = seq![];
    none.push(LineView::Out("system  "@ + system)).push(
        match user {
            Some(p) => LineView::Out("user    "@ + p),
            None => LineView::Out("user    (no HOME — none read)"@),
        },
    )
}

/// The paths that configuration is read from.
pub fn show_paths(system: &str, user: Option<&str>) -> (out: Vec<Line>)
    ensures
        line_views(out@) == paths_text(system@, opt_str(user)),
{
    let mut out = no_lines();
    say(&mut out, cat2("system  ", system));
    match user {
        Some(p) => {
            say(&mut out, cat2("user    ", p));
        },
        None => {
            say(&mut out, "user    (no HOME — none read)".to_owned());
        },
    }
    out
}

/// A config file, and whether it is there.
pub open spec fn file_text(color: bool, title: Seq<char>, path: Seq<char>, exists: bool) -> Seq<
    char,
> {
    "   "@ + padded(title, 7) + " "@ + path + " "@ + if exists {
        ""@
    } else {
        dim_text(color, "(not present)"@)
    }
}

/// A setting with its value and source.
pub open spec fn setting_text(color: bool, r: RowView) -> Seq<char> {
    "   "@ + padded(r.name, 15) + " "@ + padded(r.value, 28) + " "@ + dim_text(
        color,
        "("@ + r.source.title() + ")"@,
    )
}

/// The settings, one in each line.
pub open spec fn setting_lines(above: Seq<LineView>, color: bool, rows: Seq<RowView>) -> Seq<
    LineView,
>
    decreases rows.len(),
{
    if rows.len() == 0 {
        above
    } else {
        setting_lines(above, color, rows.drop_last()).push(
            LineView::Out(setting_text(color, rows.last())),
        )
    }
}

/// The config files and the effective settings.
pub open spec fn config_text(
    color: bool,
    system: Seq<char>,
    system_exists: bool,
    user: Option<Seq<char>>,
    user_exists: bool,
    rows: Seq<RowView>,
) -> Seq<LineView> {
    let none: Seq<LineView> = seq![];
    let user_line = match user {
        Some(p) => file_text(color, "user"@, p, user_exists),
        None => "   "@ + padded("user"@, 7) + " "@ + dim_text(color, "(no HOME — none read)"@),
    };
    setting_lines(
        none.push(LineView::Out(header_text(color, "Configuration files:"@))).push(
            LineView::Out(file_text(color, "system"@, system, system_exists)),
        ).push(LineView::Out(user_line)).push(LineView::Out(""@)).push(
            LineView::Out(header_text(color, "Effective settings:"@)),
        ),
        color,
        rows,
    )
}

fn file_line(color: bool, title: &str, path: &str, exists: bool) -> (r: String)
    ensures
        r@ == file_text(color, title@, path@, exists),
{
    let note = if exists {
        "".to_owned()
    } else {
        dimmed(color, "(not present)")
    };
    cat6("   ", pad(title, 7).as_str(), " ", path, " ", note.as_str())
}

/// The config files and the effective settings.
pub fn show_config(
    color: bool,
    system: &str,
    system_exists: bool,
    user: Option<&str>,
    user_exists: bool,
    rows: &Vec<(String, String, Source)>,
) -> (out: Vec<Line>)
    ensures
        line_views(out@) == config_text(
            color,
            system@,
            system_exists,
            opt_str(user),
            user_exists,
            row_views(rows@),
        ),
{
    let mut out = no_lines();
    say(&mut out, header_line(color, "Configuration files:"));
    say(&mut out, file_line(color, "system", system, system_exists));
    match user {
        Some(p) => {
            say(&mut out, file_line(color, "user", p, user_exists));
        },
        None => {
            say(
                &mut out,
                cat4(
                    "   ",
                    pad("user", 7).as_str(),
                    " ",
                    dimmed(color, "(no HOME — none read)").as_str(),
                ),
            );
        },
    }
    say(&mut out, "".to_owned());
    say(&mut out, header_line(color, "Effective settings:"));
    let ghost above = line_views(out@);
    let ghost all = row_views(rows@);
    let mut i: usize = 0;
    while i < rows.len()
        invariant
            i <= rows@.len(),
            all == row_views(rows@),
            line_views(out@) == setting_lines(above, color, all.take(i as int)),
        decreases rows@.len() - i,
    {
        assert(all.take(i + 1).drop_last() =~= all.take(i as int));
        assert(all.take(i + 1).last() == row_view(rows@[i as int]));
        let name = pad(rows[i].0.as_str(), 15);
        let value = pad(rows[i].1.as_str(), 28);
        let source = cat3("(", rows[i].2.label(), ")");
        say(
            &mut out,
            cat6(
                "   ",
                name.as_str(),
                " ",
                value.as_str(),
                " ",
                dimmed(color, source.as_str()).as_str(),
            ),
        );
        i += 1;
    }
    assert(all.take(all.len() as int) =~= all);
    out
}

} // verus!

//! `wrapt why-not`: explains, in plain English, why a package can't be
//! installed. The install is simulated and, if apt refuses, the failure is
//! explained as that of any other transaction.

use vstd::prelude::*;

use crate::apt::Transaction;
use crate::names::Names;
use crate::resolve::{explain, explained, hints};
use crate::text::{cat2, cat3, cat4, cat5, opt_str, texts};
use crate::ui::{
    complain, cyan, cyan_text, line_views, no_lines, plan_text, render_transaction, say,
    success_line, success_text, warn_line, warn_text, Line, LineView,
};

verus! {

/// What is said of a package that is installed already.
pub open spec fn already_text(package: Seq<char>) -> Seq<char> {
    package + " is already installed — run `wrapt why "@ + package + "` to see why."@
}

/// What is said of a package for which apt has nothing to do.
pub open spec fn nothing_text(package: Seq<char>) -> Seq<char> {
    "apt has nothing concrete to install for '"@ + package
        + "'. It may be a virtual package provided by another — try `wrapt search "@ + package
        + "`."@
}

/// What is said of a package that is installed already.
pub fn already_installed(color: bool, package: &str) -> (out: Vec<Line>)
    ensures
        line_views(out@) == seq![LineView::Out(success_text(color, already_text(package@)))],
{
    let mut out = no_lines();
    let text = cat4(
        package,
        " is already installed — run `wrapt why ",
        package,
        "` to see why.",
    );
    say(&mut out, success_line(color, text.as_str()));
    assert(line_views(out@) =~= seq![LineView::Out(success_text(color, already_text(package@)))]);
    out
}

/// What is said of a package that apt would install. The plan ends with a line
/// break of its own, which leaves an empty line below it.
pub open spec fn installable_lines(
    color: bool,
    package: Seq<char>,
    plan: Seq<char>,
) -> Seq<LineView> {
    let none: Seq<LineView> = seq![];
    none.push(LineView::Out(success_text(color, package + " can be installed."@))).push(
        LineView::Out(""@),
    ).push(LineView::Out(plan)).push(
        LineView::Out(
            "   Run "@ + cyan_text(color, "wrapt install "@ + package) + " to proceed."@,
        ),
    )
}

/// What `wrapt why-not` says once apt was asked to install the package: what
/// apt would do, or why it refuses.
pub fn run(
    color: bool,
    package: &str,
    simulated: Result<&Transaction, &str>,
    manual: &Names,
    pkgnames: Option<&str>,
) -> (r: Result<Vec<Line>, String>)
    ensures
        match simulated {
            Ok(tx) => r matches Ok(v) && line_views(v@) == if tx@.install.len() + tx@.remove.len()
                > 0 {
                installable_lines(color, package@, plan_text(color, tx@, manual@))
            } else {
                seq![LineView::Error(warn_text(color, nothing_text(package@)))]
            },
            Err(raw) => r matches Err(e) && exists|h: Option<Seq<char>>| #[trigger]
                hints(h, raw@, seq![package@], opt_str(pkgnames)) && e@ == explained(raw@, h),
        },
{
    match simulated {
        Ok(tx) => {
            let mut out = no_lines();
            if tx.is_empty() {
                let text = cat5(
                    "apt has nothing concrete to install for '",
                    package,
                    "'. It may be a virtual package provided by another — try `wrapt search ",
                    package,
                    "`.",
                );
                complain(&mut out, warn_line(color, text.as_str()));
                assert(line_views(out@) =~= seq![
                    LineView::Error(warn_text(color, nothing_text(package@))),
                ]);
            } else {
                say(&mut out, success_line(color, cat2(package, " can be installed.").as_str()));
                say(&mut out, "".to_owned());
                say(&mut out, render_transaction(color, tx, manual));
                let command = cyan(color, cat2("wrapt install ", package).as_str());
                say(&mut out, cat3("   Run ", command.as_str(), " to proceed."));
            }
            Ok(out)
        },
        Err(raw) => {
            let mut named: Vec<String> = Vec::new();
            named.push(package.to_owned());
            assert(texts(named@) =~= seq![package@]);
            Err(explain(raw, &named, pkgnames))
        },
    }
}

} // verus!

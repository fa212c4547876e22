//! What the user sees: colours, sizes, questions and the plan of a transaction.

use vstd::prelude::*;
use vstd::string::StringExecFns;
use vstd::utf8::encode_utf8;

use crate::apt::{changes, Change, ChangeView, Transaction, TransactionView};
use crate::names::Names;
use crate::number::{
    blanks, decimal, decimal_u64, decimal_usize, lemma_decimal_digits, pad, padded, parse_usize,
    unsigned_up_to,
};
use crate::order::lemma_push_contains;
use crate::text::{
    cat2, cat3, cat5, cat6, chars_of, cut, cut_at, is_digit, lowercase, opt_str, opt_text, pieces,
    same_str, string_of, trim, trim_of, words, words_of,
};

verus! {

// ---------------------------------------------------------------------------
// Colours
// ---------------------------------------------------------------------------

/// A text between the escapes that switch a style on and off, where colour is
/// wanted; otherwise the text itself.
pub open spec fn painted(color: bool, code: Seq<char>, s: Seq<char>) -> Seq<char> {
    if color {
        "\x1b["@ + code + "m"@ + s + "\x1b[0m"@
    } else {
        s
    }
}

pub open spec fn bold_text(color: bool, s: Seq<char>) -> Seq<char> {
    painted(color, "1"@, s)
}

pub open spec fn dim_text(color: bool, s: Seq<char>) -> Seq<char> {
    painted(color, "2"@, s)
}

pub open spec fn red_text(color: bool, s: Seq<char>) -> Seq<char> {
    painted(color, "31"@, s)
}

pub open spec fn green_text(color: bool, s: Seq<char>) -> Seq<char> {
    painted(color, "32"@, s)
}

pub open spec fn yellow_text(color: bool, s: Seq<char>) -> Seq<char> {
    painted(color, "33"@, s)
}

pub open spec fn cyan_text(color: bool, s: Seq<char>) -> Seq<char> {
    painted(color, "36"@, s)
}

/// Something wrapped in one style, which shows only where colour is wanted.
pub struct Painted<T> {
    pub inner: T,
    pub code: &'static str,
}

/// Colouring that respects the user's choice: what is painted says how it looks
/// with colour and without.
pub trait Paint: Sized {
    /// How it looks.
    spec fn look(&self, color: bool) -> Seq<char>;

    /// How it looks.
    fn render(&self, color: bool) -> (r: String)
        ensures
            r@ == self.look(color),
    ;

    fn paint(self, code: &'static str) -> (r: Painted<Self>)
        ensures
            r.inner == self,
            r.code@ == code@,
    {
        Painted { inner: self, code }
    }

    fn bold(self) -> (r: Painted<Self>)
        ensures
            r.inner == self,
            r.code@ == "1"@,
    {
        self.paint("1")
    }

    fn dimmed(self) -> (r: Painted<Self>)
        ensures
            r.inner == self,
            r.code@ == "2"@,
    {
        self.paint("2")
    }

    fn red(self) -> (r: Painted<Self>)
        ensures
            r.inner == self,
            r.code@ == "31"@,
    {
        self.paint("31")
    }

    fn green(self) -> (r: Painted<Self>)
        ensures
            r.inner == self,
            r.code@ == "32"@,
    {
        self.paint("32")
    }

    fn yellow(self) -> (r: Painted<Self>)
        ensures
            r.inner == self,
            r.code@ == "33"@,
    {
        self.paint("33")
    }

    fn cyan(self) -> (r: Painted<Self>)
        ensures
            r.inner == self,
            r.code@ == "36"@,
    {
        self.paint("36")
    }
}

impl<'a> Paint for &'a str {
    open spec fn look(&self, color: bool) -> Seq<char> {
        self@
    }

    fn render(&self, color: bool) -> (r: String) {
        let text: &str = *self;
        text.to_owned()
    }
}

impl<T: Paint> Paint for Painted<T> {
    open spec fn look(&self, color: bool) -> Seq<char> {
        painted(color, self.code@, self.inner.look(color))
    }

    fn render(&self, color: bool) -> (r: String) {
        let text = self.inner.render(color);
        if color {
            cat5("\x1b[", self.code, "m", text.as_str(), "\x1b[0m")
        } else {
            text
        }
    }
}

pub fn bold(color: bool, s: &str) -> (r: String)
    ensures
        r@ == bold_text(color, s@),
{
    s.bold().render(color)
}

pub fn dimmed(color: bool, s: &str) -> (r: String)
    ensures
        r@ == dim_text(color, s@),
{
    s.dimmed().render(color)
}

pub fn red(color: bool, s: &str) -> (r: String)
    ensures
        r@ == red_text(color, s@),
{
    s.red().render(color)
}

pub fn green(color: bool, s: &str) -> (r: String)
    ensures
        r@ == green_text(color, s@),
{
    s.green().render(color)
}

pub fn yellow(color: bool, s: &str) -> (r: String)
    ensures
        r@ == yellow_text(color, s@),
{
    s.yellow().render(color)
}

pub fn cyan(color: bool, s: &str) -> (r: String)
    ensures
        r@ == cyan_text(color, s@),
{
    s.cyan().render(color)
}

pub fn bold_green(color: bool, s: &str) -> (r: String)
    ensures
        r@ == bold_text(color, green_text(color, s@)),
{
    s.green().bold().render(color)
}

pub fn bold_cyan(color: bool, s: &str) -> (r: String)
    ensures
        r@ == bold_text(color, cyan_text(color, s@)),
{
    s.cyan().bold().render(color)
}

pub fn bold_yellow(color: bool, s: &str) -> (r: String)
    ensures
        r@ == bold_text(color, yellow_text(color, s@)),
{
    s.yellow().bold().render(color)
}

pub fn bold_red(color: bool, s: &str) -> (r: String)
    ensures
        r@ == bold_text(color, red_text(color, s@)),
{
    s.red().bold().render(color)
}

// ---------------------------------------------------------------------------
// Lines
// ---------------------------------------------------------------------------

/// A line for standard output or standard error.
#[derive(Debug, Clone, PartialEq, Eq)]
pub enum Line {
    Out(String),
    Error(String),
}

pub enum LineView {
    Out(Seq<char>),
    Error(Seq<char>),
}

impl View for Line {
    type V = LineView;

    open spec fn view(&self) -> LineView {
        match self {
            Line::Out(s) => LineView::Out(s@),
            Line::Error(s) => LineView::Error(s@),
        }
    }
}

/// The lines as values.
pub open spec fn line_views(v: Seq<Line>) -> Seq<LineView> {
    v.map_values(|l: Line| l@)
}

pub broadcast proof fn lemma_lines_push(v: Seq<Line>, l: Line)
    ensures
        #[trigger] line_views(v.push(l)) == line_views(v).push(l@),
{
    assert(line_views(v.push(l)) =~= line_views(v).push(l@));
}

/// No lines.
pub fn no_lines() -> (v: Vec<Line>)
    ensures
        line_views(v@) == Seq::<LineView>::empty(),
{
    let v: Vec<Line> = Vec::new();
    assert(line_views(v@) =~= seq![]);
    v
}

/// Adds a line for standard output.
pub fn say(v: &mut Vec<Line>, s: String)
    ensures
        line_views(final(v)@) == line_views(old(v)@).push(LineView::Out(s@)),
{
    broadcast use lemma_lines_push;

    v.push(Line::Out(s));
}

/// Adds a line for standard error.
pub fn complain(v: &mut Vec<Line>, s: String)
    ensures
        line_views(final(v)@) == line_views(old(v)@).push(LineView::Error(s@)),
{
    broadcast use lemma_lines_push;

    v.push(Line::Error(s));
}

/// A section heading.
pub open spec fn header_text(color: bool, text: Seq<char>) -> Seq<char> {
    bold_text(color, cyan_text(color, "::"@)) + " "@ + bold_text(color, text)
}

/// A warning.
pub open spec fn warn_text(color: bool, text: Seq<char>) -> Seq<char> {
    bold_text(color, yellow_text(color, "!"@)) + " "@ + yellow_text(color, text)
}

/// Good news.
pub open spec fn success_text(color: bool, text: Seq<char>) -> Seq<char> {
    bold_text(color, green_text(color, "✓"@)) + " "@ + text
}

/// An error.
pub open spec fn error_text(color: bool, text: Seq<char>) -> Seq<char> {
    bold_text(color, red_text(color, "error:"@)) + " "@ + text
}

/// A section heading.
pub fn header_line(color: bool, text: &str) -> (r: String)
    ensures
        r@ == header_text(color, text@),
{
    cat3(bold_cyan(color, "::").as_str(), " ", bold(color, text).as_str())
}

/// A warning.
pub fn warn_line(color: bool, text: &str) -> (r: String)
    ensures
        r@ == warn_text(color, text@),
{
    cat3(bold_yellow(color, "!").as_str(), " ", yellow(color, text).as_str())
}

/// Good news.
pub fn success_line(color: bool, text: &str) -> (r: String)
    ensures
        r@ == success_text(color, text@),
{
    cat3(bold_green(color, "✓").as_str(), " ", text)
}

/// An error.
pub fn error_line(color: bool, text: &str) -> (r: String)
    ensures
        r@ == error_text(color, text@),
{
    cat3(bold_red(color, "error:").as_str(), " ", text)
}

/// `` for one thing, `s` for more or none.
pub open spec fn plural(n: nat) -> Seq<char> {
    if n == 1 {
        ""@
    } else {
        "s"@
    }
}

/// What makes a noun plural.
pub fn plural_of(n: usize) -> (r: &'static str)
    ensures
        r@ == plural(n as nat),
{
    if n == 1 {
        ""
    } else {
        "s"
    }
}

// ---------------------------------------------------------------------------
// Sizes
// ---------------------------------------------------------------------------

/// `a / b` rounded to the nearest integer, halves to the even one.
pub open spec fn round_div(a: nat, b: nat) -> nat
    recommends
        b > 0,
{
    let q = a / b;
    let r = a % b;
    if 2 * r > b || (2 * r == b && q % 2 == 1) {
        q + 1
    } else {
        q
    }
}

/// The step between neighbouring numbers of 53 significant bits around `n`.
pub open spec fn ulp(n: nat) -> nat
    decreases n,
{
    if n < 0x20_0000_0000_0000 {
        1
    } else {
        2 * ulp(n / 2)
    }
}

/// `n` rounded to 53 significant bits, halves to the even neighbour: the double
/// precision number nearest to it.
pub open spec fn to_double(n: nat) -> nat {
    round_div(n, ulp(n)) * ulp(n)
}

/// The unit of a size: the largest of 1, 1024, its square and its cube that the
/// size reaches.
pub open spec fn size_unit(bytes: nat) -> nat {
    if bytes < 0x400 {
        1
    } else if bytes < 0x10_0000 {
        0x400
    } else if bytes < 0x4000_0000 {
        0x10_0000
    } else {
        0x4000_0000
    }
}

/// What stands behind a size in a unit.
pub open spec fn size_suffix(unit: nat) -> Seq<char> {
    if unit == 0x400 {
        " KiB"@
    } else if unit == 0x10_0000 {
        " MiB"@
    } else {
        " GiB"@
    }
}

/// A size for people to read: in bytes below 1024, else with one decimal in
/// KiB, MiB or GiB.
pub open spec fn size_text(bytes: nat) -> Seq<char> {
    let size = to_double(bytes);
    let unit = size_unit(size);
    if unit == 1 {
        decimal(bytes) + " B"@
    } else {
        let tenths = round_div(size * 10, unit);
        decimal(tenths / 10) + "."@ + decimal(tenths % 10) + size_suffix(unit)
    }
}

fn round_quotient(a: u128, b: u128) -> (r: u128)
    requires
        0 < b <= 0x1_0000_0000_0000_0000,
        a <= 0xff_ffff_ffff_ffff_ffff_ffff,
    ensures
        r == round_div(a as nat, b as nat),
        r <= a + 1,
{
    let q: u128 = a / b;
    let r: u128 = a % b;
    assert(q <= a) by (nonlinear_arith)
        requires
            q == a / b,
            b > 0,
    ;
    if 2 * r > b || (2 * r == b && q % 2 == 1) {
        q + 1
    } else {
        q
    }
}

fn double_step(n: u64) -> (r: u64)
    ensures
        r == ulp(n as nat),
        1 <= r <= 0x1000,
        n >= 0x20_0000_0000_0000 ==> r <= n,
    decreases n,
{
    if n < 0x20_0000_0000_0000 {
        1
    } else {
        let half = double_step(n / 2);
        proof {
            reveal_with_fuel(ulp, 13);
        }
        2 * half
    }
}

/// A size for people to read.
pub fn format_size(bytes: u64) -> (r: String)
    ensures
        r@ == size_text(bytes as nat),
{
    let step: u64 = double_step(bytes);
    let rounded: u128 = round_quotient(bytes as u128, step as u128);
    assert(rounded * step <= 0x1_0000_0000_0000_0000 * 0x1001) by (nonlinear_arith)
        requires
            rounded <= 0x1_0000_0000_0000_0000,
            step <= 0x1000,
    ;
    let size: u128 = rounded * step as u128;
    if size < 0x400 {
        let mut out = decimal_u64(bytes);
        out.append(" B");
        return out;
    }
    let unit: u128 = if size < 0x10_0000 {
        0x400
    } else if size < 0x4000_0000 {
        0x10_0000
    } else {
        0x4000_0000
    };
    let tenths: u128 = round_quotient(size * 10, unit);
    proof {
        lemma_tenths_small(size as nat, unit as nat);
    }
    let mut out = decimal_u64((tenths / 10) as u64);
    out.append(".");
    out.append(decimal_u64((tenths % 10) as u64).as_str());
    out.append(
        if unit == 0x400 {
            " KiB"
        } else if unit == 0x10_0000 {
            " MiB"
        } else {
            " GiB"
        },
    );
    out
}

proof fn lemma_tenths_small(size: nat, unit: nat)
    requires
        unit == size_unit(size),
        unit > 1,
        size <= 0x1_0000_0000_0000_0000 * 0x1001,
    ensures
        round_div(size * 10, unit) / 10 <= u64::MAX,
{
}

// ---------------------------------------------------------------------------
// Questions
// ---------------------------------------------------------------------------

/// Whether colour is wanted: the setting decides, and where it leaves that open
/// colour is for terminals, unless `NO_COLOR` is set.
pub open spec fn color_wanted(setting: Option<Seq<char>>, no_color: bool, terminal: bool) -> bool {
    if setting == Some("always"@) {
        true
    } else if setting == Some("never"@) {
        false
    } else {
        !no_color && terminal
    }
}

/// The question as it is put to the user.
pub open spec fn question(color: bool, prompt: Seq<char>, default_yes: bool) -> Seq<char> {
    bold_text(color, cyan_text(color, "::"@)) + " "@ + bold_text(color, prompt) + " "@ + dim_text(
        color,
        if default_yes {
            "[Y/n]"@
        } else {
            "[y/N]"@
        },
    ) + " "@
}

/// The question as it is put to the user.
pub fn confirm_prompt(color: bool, prompt: &str, default_yes: bool) -> (r: String)
    ensures
        r@ == question(color, prompt@, default_yes),
{
    let hint = if default_yes {
        "[Y/n]"
    } else {
        "[y/N]"
    };
    cat6(
        bold_cyan(color, "::").as_str(),
        " ",
        bold(color, prompt).as_str(),
        " ",
        dimmed(color, hint).as_str(),
        " ",
    )
}

/// What an answer in small letters means: nothing stands for the default.
pub open spec fn is_yes(answer: Seq<char>, default_yes: bool) -> bool {
    if answer.len() == 0 {
        default_yes
    } else {
        answer == "y"@ || answer == "yes"@
    }
}

/// What an answer in small letters means.
pub fn means_yes(answer: &str, default_yes: bool) -> (r: bool)
    ensures
        r == is_yes(answer@, default_yes),
{
    if chars_of(answer).len() == 0 {
        default_yes
    } else {
        same_str(answer, "y") || same_str(answer, "yes")
    }
}

/// The user agrees; without an answer, that is no.
pub open spec fn agrees(answer: Option<Seq<char>>, default_yes: bool) -> bool {
    match answer {
        Some(a) => is_yes(lowercase(trim(a)), default_yes),
        None => false,
    }
}

/// Whether the user agreed. No answer, where none could be read, is a no.
pub fn confirm(answer: Option<&str>, default_yes: bool) -> (r: bool)
    ensures
        r == match answer {
            Some(a) => is_yes(lowercase(trim(a@)), default_yes),
            None => false,
        },
        r == agrees(opt_str(answer), default_yes),
{
    match answer {
        Some(a) => {
            let chars = chars_of(a);
            let word = string_of(trim_of(chars.as_slice()));
            means_yes(word.as_str().to_lowercase().as_str(), default_yes)
        },
        None => false,
    }
}

/// The question which of the numbered results to install.
pub open spec fn selection_question(color: bool) -> Seq<char> {
    bold_text(color, cyan_text(color, "::"@)) + " "@ + bold_text(
        color,
        "Install which? (e.g. 1 3-5, blank to skip)"@,
    ) + " "@ + dim_text(color, "»"@) + " "@
}

/// The question which of the numbered results to install.
pub fn selection_prompt(color: bool) -> (r: String)
    ensures
        r@ == selection_question(color),
{
    cat6(
        bold_cyan(color, "::").as_str(),
        " ",
        bold(color, "Install which? (e.g. 1 3-5, blank to skip)").as_str(),
        " ",
        dimmed(color, "»").as_str(),
        " ",
    )
}

/// The numbers that a word of a selection names: `3` or `3-5`.
pub open spec fn names_range(token: Seq<char>) -> Option<(nat, nat)> {
    let max = usize::MAX as nat;
    match cut(token, "-"@) {
        Some((a, b)) => match (unsigned_up_to(a, max), unsigned_up_to(b, max)) {
            (Some(x), Some(y)) => Some((x, y)),
            _ => None,
        },
        None => match unsigned_up_to(token, max) {
            Some(x) => Some((x, x)),
            None => None,
        },
    }
}

/// The word of a selection names the number `i`.
pub open spec fn selects(token: Seq<char>, i: int) -> bool {
    names_range(token) matches Some((a, b)) && a <= i <= b
}

/// A selection such as `1 3-5 8` names the number `i`.
pub open spec fn selected(input: Seq<char>, i: int) -> bool {
    exists|t: int| 0 <= t < words(input).len() && selects(#[trigger] words(input)[t], i)
}

fn range_of(token: &[char]) -> (r: Option<(usize, usize)>)
    ensures
        match r {
            Some((a, b)) => names_range(token@) == Some((a as nat, b as nat)),
            None => names_range(token@) is None,
        },
{
    match cut_at(token, "-") {
        Some((a, b)) => match (parse_usize(a), parse_usize(b)) {
            (Some(x), Some(y)) => Some((x, y)),
            _ => None,
        },
        None => match parse_usize(token) {
            Some(x) => Some((x, x)),
            None => None,
        },
    }
}

/// Some range holds the number.
spec fn in_ranges(ranges: Seq<(usize, usize)>, i: int) -> bool {
    exists|k: int| 0 <= k < ranges.len() && (#[trigger] ranges[k]).0 <= i <= ranges[k].1
}

proof fn lemma_in_ranges_push(ranges: Seq<(usize, usize)>, r: (usize, usize), i: int)
    ensures
        in_ranges(ranges.push(r), i) <==> in_ranges(ranges, i) || r.0 <= i <= r.1,
{
    let more = ranges.push(r);
    if in_ranges(ranges, i) {
        let k = choose|k: int|
            0 <= k < ranges.len() && (#[trigger] ranges[k]).0 <= i <= ranges[k].1;
        assert(more[k] == ranges[k]);
    }
    if r.0 <= i <= r.1 {
        assert(more[ranges.len() as int] == r);
    }
    if in_ranges(more, i) && !(r.0 <= i <= r.1) {
        let k = choose|k: int| 0 <= k < more.len() && (#[trigger] more[k]).0 <= i <= more[k].1;
        assert(ranges[k] == more[k]);
    }
}

/// The least number from `from` on that some range holds.
fn next_pick(ranges: &Vec<(usize, usize)>, from: usize) -> (r: Option<usize>)
    ensures
        match r {
            Some(i) => from <= i && in_ranges(ranges@, i as int) && forall|j: int|
                from <= j < i ==> !in_ranges(ranges@, j),
            None => forall|j: int| from <= j ==> !in_ranges(ranges@, j),
        },
{
    let mut best: Option<usize> = None;
    let mut k: usize = 0;
    while k < ranges.len()
        invariant
            k <= ranges@.len(),
            match best {
                Some(i) => from <= i && in_ranges(ranges@.take(k as int), i as int) && forall|
                    j: int,
                |
                    from <= j < i ==> !in_ranges(ranges@.take(k as int), j),
                None => forall|j: int| from <= j ==> !in_ranges(ranges@.take(k as int), j),
            },
        decreases ranges@.len() - k,
    {
        let r = ranges[k];
        proof {
            assert(ranges@.take(k + 1) =~= ranges@.take(k as int).push(r));
            assert forall|j: int| #[trigger]
                in_ranges(ranges@.take(k + 1), j) <==> in_ranges(ranges@.take(k as int), j) || r.0
                    <= j <= r.1 by {
                lemma_in_ranges_push(ranges@.take(k as int), r, j);
            }
        }
        let lo: usize = if r.0 < from {
            from
        } else {
            r.0
        };
        if lo <= r.1 {
            match best {
                Some(i) => {
                    if lo < i {
                        best = Some(lo);
                    }
                },
                None => {
                    best = Some(lo);
                },
            }
        }
        k += 1;
    }
    assert(ranges@.take(ranges@.len() as int) =~= ranges@);
    best
}

/// The numbers of a selection such as `1 3-5 8`, each once and in order, as far
/// as they lie between 1 and `count`.
pub fn parse_selection(input: &str, count: usize) -> (picks: Vec<usize>)
    ensures
        forall|a: int, b: int|
            0 <= a < b < picks@.len() ==> #[trigger] picks@[a] < #[trigger] picks@[b],
        forall|i: usize| #[trigger]
            picks@.contains(i) <==> 1 <= i <= count && selected(input@, i as int),
{
    let chars = chars_of(input);
    let tokens = words_of(chars.as_slice());
    let ghost ws = pieces(tokens@);
    let mut ranges: Vec<(usize, usize)> = Vec::new();
    let mut t: usize = 0;
    while t < tokens.len()
        invariant
            t <= tokens@.len(),
            ws == pieces(tokens@),
            forall|i: int| #[trigger]
                in_ranges(ranges@, i) <==> exists|k: int| 0 <= k < t && selects(#[trigger] ws[k], i),
        decreases tokens@.len() - t,
    {
        assert(ws[t as int] == tokens@[t as int]@);
        let ghost before = ranges@;
        let ghost mut pushed = false;
        if let Some(r) = range_of(tokens[t]) {
            ranges.push(r);
            proof {
                pushed = true;
            }
        }
        proof {
            assert forall|i: int| #[trigger]
                in_ranges(ranges@, i) <==> exists|k: int|
                    0 <= k < t + 1 && selects(#[trigger] ws[k], i) by {
                assert(in_ranges(before, i) <==> exists|k: int|
                    0 <= k < t && selects(#[trigger] ws[k], i));
                if pushed {
                    lemma_in_ranges_push(before, ranges@.last(), i);
                    assert(ranges@ == before.push(ranges@.last()));
                }
                if selects(ws[t as int], i) {
                    assert(pushed);
                }
            }
        }
        t += 1;
    }
    proof {
        assert forall|i: int| #[trigger] in_ranges(ranges@, i) <==> selected(input@, i) by {
        }
    }
    let mut picks: Vec<usize> = Vec::new();
    let mut from: usize = 1;
    while from <= count
        invariant_except_break
            forall|i: usize| #[trigger]
                picks@.contains(i) <==> 1 <= i < from && i <= count && selected(
                    input@,
                    i as int,
                ),
        invariant
            1 <= from,
            forall|i: int| #[trigger] in_ranges(ranges@, i) <==> selected(input@, i),
            forall|a: int, b: int|
                0 <= a < b < picks@.len() ==> #[trigger] picks@[a] < #[trigger] picks@[b],
        ensures
            forall|a: int, b: int|
                0 <= a < b < picks@.len() ==> #[trigger] picks@[a] < #[trigger] picks@[b],
            forall|i: usize| #[trigger]
                picks@.contains(i) <==> 1 <= i <= count && selected(input@, i as int),
        decreases count + 1 - from,
    {
        let next = next_pick(&ranges, from);
        let ghost before = picks@;
        proof {
            assert forall|i: usize| from <= i <= count && (next is None || i < next->0) implies !selected(
                input@,
                i as int,
            ) by {
                assert(in_ranges(ranges@, i as int) <==> selected(input@, i as int));
            }
        }
        match next {
            Some(i) => {
                if i > count {
                    break;
                }
                picks.push(i);
                proof {
                    assert(in_ranges(ranges@, i as int));
                    assert forall|j: usize| #[trigger]
                        picks@.contains(j) <==> 1 <= j <= i && j <= count && selected(
                            input@,
                            j as int,
                        ) by {
                        lemma_push_contains(before, i, j);
                    }
                    assert forall|a: int, b: int| 0 <= a < b < picks@.len() implies #[trigger] picks@[a]
                        < #[trigger] picks@[b] by {
                        assert(before.contains(picks@[a]));
                    }
                }
                if i == count {
                    break;
                }
                from = i + 1;
            },
            None => {
                break;
            },
        }
    }
    picks
}

// ---------------------------------------------------------------------------
// The plan of a transaction
// ---------------------------------------------------------------------------

/// The width in bytes of the longest name.
pub open spec fn widest(v: Seq<ChangeView>) -> nat
    decreases v.len(),
{
    if v.len() == 0 {
        0
    } else {
        let before = widest(v.drop_last());
        let n = encode_utf8(v.last().name).len();
        if n > before {
            n
        } else {
            before
        }
    }
}

/// The width of the column of names.
pub open spec fn name_width(tx: TransactionView) -> nat {
    if widest(tx.install) > widest(tx.remove) {
        widest(tx.install)
    } else {
        widest(tx.remove)
    }
}

/// A version, or `?` where none is known.
pub open spec fn version_text(v: Option<Seq<char>>) -> Seq<char> {
    match v {
        Some(t) => t,
        None => "?"@,
    }
}

/// The row of a package that is new to the system.
pub open spec fn install_row(color: bool, width: nat, c: ChangeView) -> Seq<char> {
    "   "@ + bold_text(color, padded(c.name, width)) + "  "@ + green_text(
        color,
        version_text(c.new),
    ) + "\n"@
}

/// What marks a security upgrade.
pub open spec fn security_badge(color: bool, c: ChangeView) -> Seq<char> {
    if c.security {
        " "@ + bold_text(color, yellow_text(color, "🔒 security"@))
    } else {
        ""@
    }
}

/// The row of a package that is replaced by another version.
pub open spec fn upgrade_text(color: bool, width: nat, c: ChangeView) -> Seq<char> {
    "   "@ + bold_text(color, padded(c.name, width)) + "  "@ + dim_text(color, version_text(c.old))
        + " "@ + cyan_text(color, "→"@) + " "@ + green_text(color, version_text(c.new))
        + security_badge(color, c)
}

/// What marks the removal of a package that was installed on purpose.
pub open spec fn manual_badge(color: bool, manual: Set<Seq<char>>, c: ChangeView) -> Seq<char> {
    if manual.contains(c.name) {
        " "@ + yellow_text(color, "(you installed this)"@)
    } else {
        ""@
    }
}

/// The row of a package that is removed.
pub open spec fn remove_row(
    color: bool,
    width: nat,
    manual: Set<Seq<char>>,
    c: ChangeView,
) -> Seq<char> {
    "   "@ + bold_text(color, red_text(color, padded(c.name, width))) + "  "@ + dim_text(
        color,
        version_text(c.old),
    ) + manual_badge(color, manual, c) + "\n"@
}

/// The rows of the packages that are new to the system.
pub open spec fn install_rows(color: bool, width: nat, v: Seq<ChangeView>) -> Seq<char>
    decreases v.len(),
{
    if v.len() == 0 {
        seq![]
    } else if v.last().old is None {
        install_rows(color, width, v.drop_last()) + install_row(color, width, v.last())
    } else {
        install_rows(color, width, v.drop_last())
    }
}

/// The rows of the packages that are replaced by another version.
pub open spec fn upgrade_rows(color: bool, width: nat, v: Seq<ChangeView>) -> Seq<char>
    decreases v.len(),
{
    if v.len() == 0 {
        seq![]
    } else if v.last().old is Some {
        upgrade_rows(color, width, v.drop_last()) + upgrade_text(color, width, v.last()) + "\n"@
    } else {
        upgrade_rows(color, width, v.drop_last())
    }
}

/// The rows of the packages that are removed.
pub open spec fn remove_rows(
    color: bool,
    width: nat,
    manual: Set<Seq<char>>,
    v: Seq<ChangeView>,
) -> Seq<char>
    decreases v.len(),
{
    if v.len() == 0 {
        seq![]
    } else {
        remove_rows(color, width, manual, v.drop_last()) + remove_row(
            color,
            width,
            manual,
            v.last(),
        )
    }
}

/// How many packages are replaced by another version.
pub open spec fn upgrade_count(v: Seq<ChangeView>) -> nat
    decreases v.len(),
{
    if v.len() == 0 {
        0
    } else if v.last().old is Some {
        upgrade_count(v.drop_last()) + 1
    } else {
        upgrade_count(v.drop_last())
    }
}

/// How many of them are security upgrades.
pub open spec fn security_count(v: Seq<ChangeView>) -> nat
    decreases v.len(),
{
    if v.len() == 0 {
        0
    } else if v.last().old is Some && v.last().security {
        security_count(v.drop_last()) + 1
    } else {
        security_count(v.drop_last())
    }
}

/// The title over the upgrades.
pub open spec fn upgrade_title(total: nat, security: nat) -> Seq<char> {
    if security > 0 {
        "Upgrading ("@ + decimal(total) + ", "@ + decimal(security) + " security)"@
    } else {
        "Upgrading ("@ + decimal(total) + ")"@
    }
}

/// A title over rows; nothing where there are none.
pub open spec fn section(color: bool, n: nat, title: Seq<char>, rows: Seq<char>) -> Seq<char> {
    if n == 0 {
        ""@
    } else {
        header_text(color, title) + "\n"@ + rows
    }
}

/// The plan: what is installed, upgraded and removed, in aligned columns.
pub open spec fn plan_text(color: bool, tx: TransactionView, manual: Set<Seq<char>>) -> Seq<char> {
    let width = name_width(tx);
    let upgrades = upgrade_count(tx.install);
    let installs = (tx.install.len() - upgrades) as nat;
    section(
        color,
        installs,
        "Installing ("@ + decimal(installs) + ")"@,
        install_rows(color, width, tx.install),
    ) + section(
        color,
        upgrades,
        upgrade_title(upgrades, security_count(tx.install)),
        upgrade_rows(color, width, tx.install),
    ) + section(
        color,
        tx.remove.len(),
        "Removing ("@ + decimal(tx.remove.len()) + ")"@,
        remove_rows(color, width, manual, tx.remove),
    )
}

/// The width in bytes of the longest name.
pub fn widest_of(v: &Vec<Change>) -> (r: usize)
    ensures
        r == widest(changes(v@)),
{
    let ghost all = changes(v@);
    let mut width: usize = 0;
    let mut i: usize = 0;
    while i < v.len()
        invariant
            all == changes(v@),
            i <= v@.len(),
            width == widest(all.take(i as int)),
        decreases v@.len() - i,
    {
        assert(all.take(i + 1).drop_last() =~= all.take(i as int));
        assert(all.take(i + 1).last() == v@[i as int]@);
        let n: usize = v[i].name.as_str().as_bytes().len();
        if n > width {
            width = n;
        }
        i += 1;
    }
    assert(all.take(all.len() as int) =~= all);
    width
}

fn version_of(v: &Option<String>) -> (r: &str)
    ensures
        r@ == version_text(opt_text(*v)),
{
    match v {
        Some(t) => t.as_str(),
        None => "?",
    }
}

fn install_rows_of(color: bool, width: usize, v: &Vec<Change>) -> (out: String)
    ensures
        out@ == install_rows(color, width as nat, changes(v@)),
{
    let ghost all = changes(v@);
    let mut out = String::new();
    let mut i: usize = 0;
    while i < v.len()
        invariant
            all == changes(v@),
            i <= v@.len(),
            out@ == install_rows(color, width as nat, all.take(i as int)),
        decreases v@.len() - i,
    {
        assert(all.take(i + 1).drop_last() =~= all.take(i as int));
        assert(all.take(i + 1).last() == v@[i as int]@);
        let c = &v[i];
        if c.old.is_none() {
            let row = cat5(
                "   ",
                bold(color, pad(c.name.as_str(), width).as_str()).as_str(),
                "  ",
                green(color, version_of(&c.new)).as_str(),
                "\n",
            );
            out.append(row.as_str());
        }
        i += 1;
    }
    assert(all.take(all.len() as int) =~= all);
    out
}

/// The cells of an upgrade: name, versions and badge.
pub fn upgrade_cells(color: bool, width: usize, c: &Change) -> (row: String)
    ensures
        row@ == upgrade_text(color, width as nat, c@),
{
    let mut row = cat6(
        "   ",
        bold(color, pad(c.name.as_str(), width).as_str()).as_str(),
        "  ",
        dimmed(color, version_of(&c.old)).as_str(),
        " ",
        cyan(color, "→").as_str(),
    );
    row.append(" ");
    row.append(green(color, version_of(&c.new)).as_str());
    let badge = if c.security {
        cat2(" ", bold_yellow(color, "🔒 security").as_str())
    } else {
        "".to_owned()
    };
    row.append(badge.as_str());
    row
}

fn upgrade_rows_of(color: bool, width: usize, v: &Vec<Change>) -> (out: String)
    ensures
        out@ == upgrade_rows(color, width as nat, changes(v@)),
{
    let ghost all = changes(v@);
    let mut out = String::new();
    let mut i: usize = 0;
    while i < v.len()
        invariant
            all == changes(v@),
            i <= v@.len(),
            out@ == upgrade_rows(color, width as nat, all.take(i as int)),
        decreases v@.len() - i,
    {
        assert(all.take(i + 1).drop_last() =~= all.take(i as int));
        assert(all.take(i + 1).last() == v@[i as int]@);
        if v[i].old.is_some() {
            out.append(upgrade_cells(color, width, &v[i]).as_str());
            out.append("\n");
        }
        i += 1;
    }
    assert(all.take(all.len() as int) =~= all);
    out
}

fn remove_rows_of(color: bool, width: usize, manual: &Names, v: &Vec<Change>) -> (out: String)
    ensures
        out@ == remove_rows(color, width as nat, manual@, changes(v@)),
{
    let ghost all = changes(v@);
    let mut out = String::new();
    let mut i: usize = 0;
    while i < v.len()
        invariant
            all == changes(v@),
            i <= v@.len(),
            out@ == remove_rows(color, width as nat, manual@, all.take(i as int)),
        decreases v@.len() - i,
    {
        assert(all.take(i + 1).drop_last() =~= all.take(i as int));
        assert(all.take(i + 1).last() == v@[i as int]@);
        let c = &v[i];
        let badge = if manual.contains(c.name.as_str()) {
            cat2(" ", yellow(color, "(you installed this)").as_str())
        } else {
            "".to_owned()
        };
        let row = cat6(
            "   ",
            bold_red(color, pad(c.name.as_str(), width).as_str()).as_str(),
            "  ",
            dimmed(color, version_of(&c.old)).as_str(),
            badge.as_str(),
            "\n",
        );
        out.append(row.as_str());
        i += 1;
    }
    assert(all.take(all.len() as int) =~= all);
    out
}

fn count_upgrades(v: &Vec<Change>) -> (r: (usize, usize))
    ensures
        r.0 == upgrade_count(changes(v@)),
        r.1 == security_count(changes(v@)),
        r.0 <= v@.len(),
{
    let ghost all = changes(v@);
    let mut upgrades: usize = 0;
    let mut security: usize = 0;
    let mut i: usize = 0;
    while i < v.len()
        invariant
            all == changes(v@),
            i <= v@.len(),
            upgrades == upgrade_count(all.take(i as int)),
            security == security_count(all.take(i as int)),
            security <= upgrades <= i,
        decreases v@.len() - i,
    {
        assert(all.take(i + 1).drop_last() =~= all.take(i as int));
        assert(all.take(i + 1).last() == v@[i as int]@);
        if v[i].old.is_some() {
            upgrades += 1;
            if v[i].security {
                security += 1;
            }
        }
        i += 1;
    }
    assert(all.take(all.len() as int) =~= all);
    (upgrades, security)
}

fn section_of(color: bool, n: usize, title: &str, rows: &str) -> (r: String)
    ensures
        r@ == section(color, n as nat, title@, rows@),
{
    if n == 0 {
        "".to_owned()
    } else {
        cat3(header_line(color, title).as_str(), "\n", rows)
    }
}

/// The plan of a transaction as aligned sections. `manual` names the packages
/// that apt considers manually installed, so that removals of packages that the
/// user chose are flagged.
pub fn render_transaction(color: bool, tx: &Transaction, manual: &Names) -> (out: String)
    ensures
        out@ == plan_text(color, tx@, manual@),
{
    let a: usize = widest_of(&tx.install);
    let b: usize = widest_of(&tx.remove);
    let width: usize = if a > b {
        a
    } else {
        b
    };
    let (upgrades, security) = count_upgrades(&tx.install);
    let installs: usize = tx.install.len() - upgrades;
    let removals: usize = tx.remove.len();
    let title = if security > 0 {
        cat5(
            "Upgrading (",
            decimal_usize(upgrades).as_str(),
            ", ",
            decimal_usize(security).as_str(),
            " security)",
        )
    } else {
        cat3("Upgrading (", decimal_usize(upgrades).as_str(), ")")
    };
    cat3(
        section_of(
            color,
            installs,
            cat3("Installing (", decimal_usize(installs).as_str(), ")").as_str(),
            install_rows_of(color, width, &tx.install).as_str(),
        ).as_str(),
        section_of(
            color,
            upgrades,
            title.as_str(),
            upgrade_rows_of(color, width, &tx.install).as_str(),
        ).as_str(),
        section_of(
            color,
            removals,
            cat3("Removing (", decimal_usize(removals).as_str(), ")").as_str(),
            remove_rows_of(color, width, manual, &tx.remove).as_str(),
        ).as_str(),
    )
}

// ---------------------------------------------------------------------------
// Plain output
// ---------------------------------------------------------------------------

/// The text holds no escapes.
pub open spec fn is_plain(s: Seq<char>) -> bool {
    forall|i: int| 0 <= i < s.len() ==> #[trigger] s[i] != '\x1b'
}

/// Without colour every style leaves a text as it is.
pub proof fn without_colour_a_text_stays_as_it_is(code: Seq<char>, s: Seq<char>)
    ensures
        painted(false, code, s) == s,
{
}

broadcast proof fn lemma_plain_add(a: Seq<char>, b: Seq<char>)
    requires
        is_plain(a),
        is_plain(b),
    ensures
        #[trigger] is_plain(a + b),
{
    assert forall|i: int| 0 <= i < (a + b).len() implies #[trigger] (a + b)[i] != '\x1b' by {
        if i < a.len() {
            assert((a + b)[i] == a[i]);
        } else {
            assert((a + b)[i] == b[i - a.len()]);
        }
    }
}

proof fn lemma_plain_decimal(n: nat)
    ensures
        is_plain(decimal(n)),
{
    lemma_decimal_digits(n);
    assert forall|i: int| 0 <= i < decimal(n).len() implies #[trigger] decimal(n)[i] != '\x1b' by {
        assert(is_digit(decimal(n)[i]));
    }
}

proof fn lemma_plain_padded(s: Seq<char>, width: nat)
    requires
        is_plain(s),
    ensures
        is_plain(padded(s, width)),
{
    broadcast use lemma_plain_add;

    if s.len() < width {
        let n = (width - s.len()) as nat;
        assert(is_plain(blanks(n)));
    }
}

/// The change names no package or version with an escape in it.
pub open spec fn is_plain_change(c: ChangeView) -> bool {
    &&& is_plain(c.name)
    &&& c.old matches Some(v) ==> is_plain(v)
    &&& c.new matches Some(v) ==> is_plain(v)
}

/// None of the changes names a package or version with an escape in it.
pub open spec fn are_plain(v: Seq<ChangeView>) -> bool {
    forall|i: int| 0 <= i < v.len() ==> is_plain_change(#[trigger] v[i])
}

proof fn lemma_plain_words()
    ensures
        is_plain("   "@),
        is_plain("  "@),
        is_plain(" "@),
        is_plain(""@),
        is_plain("\n"@),
        is_plain("?"@),
        is_plain("→"@),
        is_plain("🔒 security"@),
        is_plain("(you installed this)"@),
        is_plain("::"@),
        is_plain("Installing ("@),
        is_plain("Upgrading ("@),
        is_plain("Removing ("@),
        is_plain(", "@),
        is_plain(" security)"@),
        is_plain(")"@),
{
    reveal_strlit("   ");
    reveal_strlit("  ");
    reveal_strlit(" ");
    reveal_strlit("");
    reveal_strlit("\n");
    reveal_strlit("?");
    reveal_strlit("→");
    reveal_strlit("🔒 security");
    reveal_strlit("(you installed this)");
    reveal_strlit("::");
    reveal_strlit("Installing (");
    reveal_strlit("Upgrading (");
    reveal_strlit("Removing (");
    reveal_strlit(", ");
    reveal_strlit(" security)");
    reveal_strlit(")");
}

proof fn lemma_plain_install_rows(width: nat, v: Seq<ChangeView>)
    requires
        are_plain(v),
    ensures
        is_plain(install_rows(false, width, v)),
    decreases v.len(),
{
    broadcast use lemma_plain_add;

    lemma_plain_words();
    if v.len() > 0 {
        assert(are_plain(v.drop_last()));
        lemma_plain_install_rows(width, v.drop_last());
        assert(is_plain_change(v[v.len() - 1]));
        lemma_plain_padded(v.last().name, width);
    }
}

proof fn lemma_plain_upgrade_rows(width: nat, v: Seq<ChangeView>)
    requires
        are_plain(v),
    ensures
        is_plain(upgrade_rows(false, width, v)),
    decreases v.len(),
{
    broadcast use lemma_plain_add;

    lemma_plain_words();
    if v.len() > 0 {
        assert(are_plain(v.drop_last()));
        lemma_plain_upgrade_rows(width, v.drop_last());
        assert(is_plain_change(v[v.len() - 1]));
        lemma_plain_padded(v.last().name, width);
        assert(is_plain(security_badge(false, v.last())));
    }
}

proof fn lemma_plain_remove_rows(width: nat, manual: Set<Seq<char>>, v: Seq<ChangeView>)
    requires
        are_plain(v),
    ensures
        is_plain(remove_rows(false, width, manual, v)),
    decreases v.len(),
{
    broadcast use lemma_plain_add;

    lemma_plain_words();
    if v.len() > 0 {
        assert(are_plain(v.drop_last()));
        lemma_plain_remove_rows(width, manual, v.drop_last());
        assert(is_plain_change(v[v.len() - 1]));
        lemma_plain_padded(v.last().name, width);
        assert(is_plain(manual_badge(false, manual, v.last())));
    }
}

/// Without colour, a plan holds no escapes: piped output stays plain.
pub proof fn without_colour_a_plan_is_plain(tx: TransactionView, manual: Set<Seq<char>>)
    requires
        are_plain(tx.install),
        are_plain(tx.remove),
    ensures
        is_plain(plan_text(false, tx, manual)),
{
    broadcast use lemma_plain_add;

    lemma_plain_words();
    let width = name_width(tx);
    let upgrades = upgrade_count(tx.install);
    let installs = (tx.install.len() - upgrades) as nat;
    lemma_plain_install_rows(width, tx.install);
    lemma_plain_upgrade_rows(width, tx.install);
    lemma_plain_remove_rows(width, manual, tx.remove);
    lemma_plain_decimal(installs);
    lemma_plain_decimal(upgrades);
    lemma_plain_decimal(security_count(tx.install));
    lemma_plain_decimal(tx.remove.len());
    assert(is_plain(upgrade_title(upgrades, security_count(tx.install))));
    assert(is_plain(
        section(
            false,
            upgrades,
            upgrade_title(upgrades, security_count(tx.install)),
            upgrade_rows(false, width, tx.install),
        ),
    ));
}

// ---------------------------------------------------------------------------
// Coloured output
// ---------------------------------------------------------------------------

/// The number of digits at the start of a text.
pub open spec fn leading_digits(s: Seq<char>) -> nat
    decreases s.len(),
{
    if s.len() == 0 || !is_digit(s[0]) {
        0
    } else {
        1 + leading_digits(s.skip(1))
    }
}

/// The length of the escape that a text begins with, which is an escape
/// character, a bracket, digits and an `m`; 0 where there is none.
pub open spec fn escape_len(s: Seq<char>) -> nat {
    let n = leading_digits(s.skip(2));
    if s.len() > n + 2 && s[0] == '\x1b' && s[1] == '[' && n > 0 && s[n + 2int] == 'm' {
        n + 3
    } else {
        0
    }
}

/// The text with its escapes taken out.
pub open spec fn stripped(s: Seq<char>) -> Seq<char>
    decreases s.len(),
{
    if s.len() == 0 {
        s
    } else if escape_len(s) > 0 {
        stripped(s.skip(escape_len(s) as int))
    } else {
        seq![s[0]] + stripped(s.skip(1))
    }
}

/// Whatever follows, taking the escapes out of `c` leaves `p`.
#[verifier::opaque]
spec fn reads_as(c: Seq<char>, p: Seq<char>) -> bool {
    forall|rest: Seq<char>| #[trigger] stripped(c + rest) == p + stripped(rest)
}

broadcast proof fn lemma_reads_add(a: Seq<char>, p: Seq<char>, b: Seq<char>, q: Seq<char>)
    requires
        reads_as(a, p),
        reads_as(b, q),
    ensures
        #[trigger] reads_as(a + b, p + q),
{
    reveal(reads_as);
    assert forall|rest: Seq<char>| #[trigger] stripped((a + b) + rest) == (p + q) + stripped(
        rest,
    ) by {
        assert((a + b) + rest =~= a + (b + rest));
        assert(stripped(b + rest) == q + stripped(rest));
        assert(stripped(a + (b + rest)) == p + stripped(b + rest));
        assert(p + (q + stripped(rest)) =~= (p + q) + stripped(rest));
    }
}

proof fn lemma_plain_stays(s: Seq<char>, rest: Seq<char>)
    requires
        is_plain(s),
    ensures
        stripped(s + rest) == s + stripped(rest),
    decreases s.len(),
{
    if s.len() == 0 {
        assert(s + rest =~= rest);
        assert(s + stripped(rest) =~= stripped(rest));
    } else {
        let tail = s.skip(1);
        assert((s + rest).skip(1) =~= tail + rest);
        assert((s + rest)[0] == s[0]);
        assert forall|i: int| 0 <= i < tail.len() implies #[trigger] tail[i] != '\x1b' by {
            assert(tail[i] == s[i + 1]);
        }
        lemma_plain_stays(tail, rest);
        assert(seq![s[0]] + (tail + stripped(rest)) =~= s + stripped(rest));
    }
}

broadcast proof fn lemma_plain_reads(s: Seq<char>)
    requires
        is_plain(s),
    ensures
        #[trigger] reads_as(s, s),
{
    reveal(reads_as);
    assert forall|rest: Seq<char>| #[trigger] stripped(s + rest) == s + stripped(rest) by {
        lemma_plain_stays(s, rest);
    }
}

/// The code of a style: some digits.
spec fn is_code(code: Seq<char>) -> bool {
    code.len() > 0 && forall|i: int| 0 <= i < code.len() ==> is_digit(#[trigger] code[i])
}

proof fn lemma_leading_digits(code: Seq<char>, rest: Seq<char>)
    requires
        forall|i: int| 0 <= i < code.len() ==> is_digit(#[trigger] code[i]),
        rest.len() > 0,
        !is_digit(rest[0]),
    ensures
        leading_digits(code + rest) == code.len(),
    decreases code.len(),
{
    if code.len() == 0 {
        assert(code + rest =~= rest);
    } else {
        assert((code + rest).skip(1) =~= code.skip(1) + rest);
        assert((code + rest)[0] == code[0]);
        assert forall|i: int| 0 <= i < code.skip(1).len() implies is_digit(
            #[trigger] code.skip(1)[i],
        ) by {
            assert(code[i + 1] == code.skip(1)[i]);
        }
        lemma_leading_digits(code.skip(1), rest);
    }
}

/// An escape reads as nothing.
proof fn lemma_escape_reads(code: Seq<char>)
    requires
        is_code(code),
    ensures
        reads_as("\x1b["@ + code + "m"@, seq![]),
{
    reveal(reads_as);
    reveal_strlit("\x1b[");
    reveal_strlit("m");
    let e = "\x1b["@ + code + "m"@;
    assert forall|rest: Seq<char>| #[trigger] stripped(e + rest) == Seq::<char>::empty() + stripped(
        rest,
    ) by {
        let all = e + rest;
        assert(all.skip(2) =~= code + ("m"@ + rest));
        lemma_leading_digits(code, "m"@ + rest);
        assert(all[0] == '\x1b' && all[1] == '[');
        assert(all[code.len() + 2int] == 'm');
        assert(escape_len(all) == code.len() + 3);
        assert(all.skip(code.len() + 3int) =~= rest);
        assert(Seq::<char>::empty() + stripped(rest) =~= stripped(rest));
    }
}

/// A style reads as what it is put on.
proof fn lemma_painted_reads(code: Seq<char>, s: Seq<char>, p: Seq<char>)
    requires
        is_code(code),
        reads_as(s, p),
    ensures
        reads_as(painted(true, code, s), painted(false, code, p)),
{
    lemma_escape_reads(code);
    reveal_strlit("0");
    lemma_escape_reads("0"@);
    reveal_strlit("\x1b[");
    reveal_strlit("m");
    reveal_strlit("\x1b[0m");
    assert("\x1b["@ + "0"@ + "m"@ =~= "\x1b[0m"@);
    let on = "\x1b["@ + code + "m"@;
    lemma_reads_add(on, seq![], s, p);
    lemma_reads_add(on + s, seq![] + p, "\x1b[0m"@, seq![]);
    assert(seq![] + p + seq![] =~= p);
}

proof fn lemma_styles_read(s: Seq<char>, p: Seq<char>)
    requires
        reads_as(s, p),
    ensures
        reads_as(bold_text(true, s), bold_text(false, p)),
        reads_as(dim_text(true, s), dim_text(false, p)),
        reads_as(red_text(true, s), red_text(false, p)),
        reads_as(green_text(true, s), green_text(false, p)),
        reads_as(yellow_text(true, s), yellow_text(false, p)),
        reads_as(cyan_text(true, s), cyan_text(false, p)),
{
    reveal_strlit("1");
    reveal_strlit("2");
    reveal_strlit("31");
    reveal_strlit("32");
    reveal_strlit("33");
    reveal_strlit("36");
    lemma_painted_reads("1"@, s, p);
    lemma_painted_reads("2"@, s, p);
    lemma_painted_reads("31"@, s, p);
    lemma_painted_reads("32"@, s, p);
    lemma_painted_reads("33"@, s, p);
    lemma_painted_reads("36"@, s, p);
}

proof fn lemma_install_row_reads(width: nat, c: ChangeView)
    requires
        is_plain_change(c),
    ensures
        reads_as(install_row(true, width, c), install_row(false, width, c)),
{
    broadcast use {lemma_reads_add, lemma_plain_reads};

    lemma_plain_words();
    let name = padded(c.name, width);
    lemma_plain_padded(c.name, width);
    lemma_styles_read(name, name);
    lemma_styles_read(version_text(c.new), version_text(c.new));
}

proof fn lemma_upgrade_reads(width: nat, c: ChangeView)
    requires
        is_plain_change(c),
    ensures
        reads_as(upgrade_text(true, width, c), upgrade_text(false, width, c)),
{
    broadcast use {lemma_reads_add, lemma_plain_reads};

    lemma_plain_words();
    let name = padded(c.name, width);
    lemma_plain_padded(c.name, width);
    lemma_styles_read(name, name);
    lemma_styles_read(version_text(c.old), version_text(c.old));
    lemma_styles_read(version_text(c.new), version_text(c.new));
    lemma_styles_read("→"@, "→"@);
    let badge = "🔒 security"@;
    lemma_styles_read(badge, badge);
    lemma_styles_read(yellow_text(true, badge), yellow_text(false, badge));
    assert(reads_as(security_badge(true, c), security_badge(false, c)));
}

proof fn lemma_remove_row_reads(width: nat, manual: Set<Seq<char>>, c: ChangeView)
    requires
        is_plain_change(c),
    ensures
        reads_as(remove_row(true, width, manual, c), remove_row(false, width, manual, c)),
{
    broadcast use {lemma_reads_add, lemma_plain_reads};

    lemma_plain_words();
    let name = padded(c.name, width);
    lemma_plain_padded(c.name, width);
    lemma_styles_read(name, name);
    lemma_styles_read(red_text(true, name), red_text(false, name));
    lemma_styles_read(version_text(c.old), version_text(c.old));
    let badge = "(you installed this)"@;
    lemma_styles_read(badge, badge);
    assert(reads_as(manual_badge(true, manual, c), manual_badge(false, manual, c)));
}

proof fn lemma_install_rows_read(width: nat, v: Seq<ChangeView>)
    requires
        are_plain(v),
    ensures
        reads_as(install_rows(true, width, v), install_rows(false, width, v)),
        reads_as(upgrade_rows(true, width, v), upgrade_rows(false, width, v)),
    decreases v.len(),
{
    broadcast use {lemma_reads_add, lemma_plain_reads};

    lemma_plain_words();
    if v.len() > 0 {
        assert(are_plain(v.drop_last()));
        lemma_install_rows_read(width, v.drop_last());
        assert(is_plain_change(v[v.len() - 1]));
        lemma_install_row_reads(width, v.last());
        lemma_upgrade_reads(width, v.last());
    } else {
        assert(is_plain(Seq::<char>::empty()));
    }
}

proof fn lemma_remove_rows_read(width: nat, manual: Set<Seq<char>>, v: Seq<ChangeView>)
    requires
        are_plain(v),
    ensures
        reads_as(remove_rows(true, width, manual, v), remove_rows(false, width, manual, v)),
    decreases v.len(),
{
    broadcast use {lemma_reads_add, lemma_plain_reads};

    if v.len() > 0 {
        assert(are_plain(v.drop_last()));
        lemma_remove_rows_read(width, manual, v.drop_last());
        assert(is_plain_change(v[v.len() - 1]));
        lemma_remove_row_reads(width, manual, v.last());
    } else {
        assert(is_plain(Seq::<char>::empty()));
    }
}

proof fn lemma_section_reads(n: nat, title: Seq<char>, c: Seq<char>, p: Seq<char>)
    requires
        is_plain(title),
        reads_as(c, p),
    ensures
        reads_as(section(true, n, title, c), section(false, n, title, p)),
        n > 0 ==> !is_plain(section(true, n, title, c)),
{
    broadcast use {lemma_reads_add, lemma_plain_reads};

    lemma_plain_words();
    lemma_styles_read(title, title);
    lemma_styles_read("::"@, "::"@);
    lemma_styles_read(cyan_text(true, "::"@), cyan_text(false, "::"@));
    assert(reads_as(header_text(true, title), header_text(false, title)));
    if n > 0 {
        reveal_strlit("\x1b[");
        assert(section(true, n, title, c)[0] == '\x1b');
    }
}

proof fn lemma_not_plain_add(a: Seq<char>, b: Seq<char>)
    ensures
        is_plain(a + b) <==> is_plain(a) && is_plain(b),
{
    let all = a + b;
    if is_plain(all) {
        assert forall|i: int| 0 <= i < a.len() implies #[trigger] a[i] != '\x1b' by {
            assert(all[i] == a[i]);
        }
        assert forall|i: int| 0 <= i < b.len() implies #[trigger] b[i] != '\x1b' by {
            assert(all[i + a.len()] == b[i]);
        }
    }
    if is_plain(a) && is_plain(b) {
        lemma_plain_add(a, b);
    }
}

/// Colour adds escapes and nothing else: the coloured plan with its escapes taken
/// out is the plain plan, so that columns line up with colour and without. It
/// holds an escape exactly where there is something to do.
pub proof fn colour_adds_escapes_alone(tx: TransactionView, manual: Set<Seq<char>>)
    requires
        are_plain(tx.install),
        are_plain(tx.remove),
    ensures
        stripped(plan_text(true, tx, manual)) == plan_text(false, tx, manual),
        is_plain(plan_text(true, tx, manual)) <==> tx.install.len() == 0 && tx.remove.len() == 0,
{
    broadcast use lemma_reads_add;

    let width = name_width(tx);
    let upgrades = upgrade_count(tx.install);
    let installs = (tx.install.len() - upgrades) as nat;
    let security = security_count(tx.install);
    let first = "Installing ("@ + decimal(installs) + ")"@;
    let second = upgrade_title(upgrades, security);
    let third = "Removing ("@ + decimal(tx.remove.len()) + ")"@;
    lemma_plain_words();
    lemma_plain_decimal(installs);
    lemma_plain_decimal(upgrades);
    lemma_plain_decimal(security);
    lemma_plain_decimal(tx.remove.len());
    assert(is_plain(first) && is_plain(second) && is_plain(third)) by {
        broadcast use lemma_plain_add;

    }
    lemma_install_rows_read(width, tx.install);
    lemma_remove_rows_read(width, manual, tx.remove);
    let (i1, i0) = (install_rows(true, width, tx.install), install_rows(false, width, tx.install));
    let (u1, u0) = (upgrade_rows(true, width, tx.install), upgrade_rows(false, width, tx.install));
    let (r1, r0) = (
        remove_rows(true, width, manual, tx.remove),
        remove_rows(false, width, manual, tx.remove),
    );
    lemma_section_reads(installs, first, i1, i0);
    lemma_section_reads(upgrades, second, u1, u0);
    lemma_section_reads(tx.remove.len(), third, r1, r0);
    let all = plan_text(true, tx, manual);
    let plain = plan_text(false, tx, manual);
    assert(reads_as(all, plain));
    let none = Seq::<char>::empty();
    assert(stripped(all + none) == plain + stripped(none)) by {
        reveal(reads_as);
    }
    assert(all + none =~= all);
    assert(plain + stripped(none) =~= plain);
    let a = section(true, installs, first, i1);
    let b = section(true, upgrades, second, u1);
    let c = section(true, tx.remove.len(), third, r1);
    lemma_not_plain_add(a, b);
    lemma_not_plain_add(a + b, c);
}

} // verus!

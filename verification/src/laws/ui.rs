//! Laws of what is shown and asked.

use vstd::prelude::*;
use vstd::utf8::encode_utf8;

use crate::apt::{ChangeView, TransactionView};
use crate::laws::text::{
    a_cut_gives_the_parts_back, a_number_is_read_back, a_text_is_held_where_it_is_put,
};
use crate::number::{decimal, padded, unsigned_up_to};
use crate::text::{cut, has_prefix, has_text, lowercase, trim, words};
use crate::ui::{
    agrees, bold_text, cyan_text, dim_text, error_text, green_text, header_text, install_row,
    is_yes, names_range, painted, plan_text, plural, red_text, remove_row, round_div,
    security_badge, security_count, selected, selects, size_text, size_unit, success_text,
    to_double, ulp, upgrade_count, upgrade_text, upgrade_title, version_text, warn_text, widest,
    yellow_text,
};

verus! {

// ---------------------------------------------------------------------------
// Colours
// ---------------------------------------------------------------------------

/// Each colour is its own escape around the text, and without colour nothing.
pub proof fn each_colour_is_its_escape(s: Seq<char>)
    ensures
        bold_text(true, s) == "\x1b[1m"@ + s + "\x1b[0m"@,
        dim_text(true, s) == "\x1b[2m"@ + s + "\x1b[0m"@,
        red_text(true, s) == "\x1b[31m"@ + s + "\x1b[0m"@,
        green_text(true, s) == "\x1b[32m"@ + s + "\x1b[0m"@,
        yellow_text(true, s) == "\x1b[33m"@ + s + "\x1b[0m"@,
        cyan_text(true, s) == "\x1b[36m"@ + s + "\x1b[0m"@,
        bold_text(false, s) == s,
        dim_text(false, s) == s,
        red_text(false, s) == s,
        green_text(false, s) == s,
        yellow_text(false, s) == s,
        cyan_text(false, s) == s,
{
    reveal_strlit("\x1b[");
    reveal_strlit("m");
    reveal_strlit("1");
    reveal_strlit("2");
    reveal_strlit("31");
    reveal_strlit("32");
    reveal_strlit("33");
    reveal_strlit("36");
    reveal_strlit("\x1b[1m");
    reveal_strlit("\x1b[2m");
    reveal_strlit("\x1b[31m");
    reveal_strlit("\x1b[32m");
    reveal_strlit("\x1b[33m");
    reveal_strlit("\x1b[36m");
    assert("\x1b["@ + "1"@ + "m"@ =~= "\x1b[1m"@);
    assert("\x1b["@ + "2"@ + "m"@ =~= "\x1b[2m"@);
    assert("\x1b["@ + "31"@ + "m"@ =~= "\x1b[31m"@);
    assert("\x1b["@ + "32"@ + "m"@ =~= "\x1b[32m"@);
    assert("\x1b["@ + "33"@ + "m"@ =~= "\x1b[33m"@);
    assert("\x1b["@ + "36"@ + "m"@ =~= "\x1b[36m"@);
}

// ---------------------------------------------------------------------------
// Sizes
// ---------------------------------------------------------------------------

/// Fewer than 1024 bytes are shown as they are.
pub proof fn a_small_size_is_exact(bytes: nat)
    requires
        bytes < 1024,
    ensures
        size_text(bytes) == decimal(bytes) + " B"@,
{
    assert(ulp(bytes) == 1);
    assert(round_div(bytes, 1) == bytes) by {
        assert(bytes / 1 == bytes && bytes % 1 == 0);
    }
}

/// A whole number of KiB, MiB or GiB, less than the next unit, is shown as that
/// number with one decimal.
pub proof fn a_whole_size_is_exact(n: nat)
    requires
        0 < n < 1024,
    ensures
        size_text(n * 1024) == decimal(n) + "."@ + decimal(0) + " KiB"@,
        size_text(n * 1024 * 1024) == decimal(n) + "."@ + decimal(0) + " MiB"@,
        size_text(n * 1024 * 1024 * 1024) == decimal(n) + "."@ + decimal(0) + " GiB"@,
{
    lemma_whole(n, 1024);
    lemma_whole(n, 1024 * 1024);
    lemma_whole(n, 1024 * 1024 * 1024);
    assert(n * 1024 * 1024 == n * (1024 * 1024));
    assert(n * 1024 * 1024 * 1024 == n * (1024 * 1024 * 1024));
}

proof fn lemma_whole(n: nat, unit: nat)
    requires
        0 < n < 1024,
        unit == 1024 || unit == 1024 * 1024 || unit == 1024 * 1024 * 1024,
    ensures
        to_double(n * unit) == n * unit,
        size_unit(n * unit) == unit,
        round_div(n * unit * 10, unit) == n * 10,
        (n * 10) / 10 == n,
        (n * 10) % 10 == 0,
{
    let size = n * unit;
    assert(unit <= size < 1024 * unit) by (nonlinear_arith)
        requires
            0 < n < 1024,
            size == n * unit,
            unit > 0,
    ;
    assert(ulp(size) == 1);
    assert(size / 1 == size && size % 1 == 0);
    assert(n * unit * 10 == (n * 10) * unit) by (nonlinear_arith);
    let a = n * 10;
    assert((a * unit) / unit == a && (a * unit) % unit == 0) by (nonlinear_arith)
        requires
            unit > 0,
    ;
}

proof fn lemma_round_up(a: nat, b: nat, unit: nat)
    requires
        a <= b,
        unit > 0,
    ensures
        round_div(a, unit) <= round_div(b, unit),
{
    let (q, r) = (a / unit, a % unit);
    let (p, s) = (b / unit, b % unit);
    assert(a == q * unit + r && r < unit) by (nonlinear_arith)
        requires
            q == a / unit,
            r == a % unit,
            unit > 0,
    ;
    assert(b == p * unit + s && s < unit) by (nonlinear_arith)
        requires
            p == b / unit,
            s == b % unit,
            unit > 0,
    ;
    assert(q <= p) by (nonlinear_arith)
        requires
            a <= b,
            a == q * unit + r,
            b == p * unit + s,
            s < unit,
            r >= 0,
            unit > 0,
    ;
    if q == p {
        assert(r <= s);
    }
}

/// Within a unit, more bytes are never shown as less: the tenths that are shown
/// do not fall.
pub proof fn a_larger_size_shows_no_less(a: nat, b: nat)
    requires
        a <= b,
        b < 0x20_0000_0000_0000,
        size_unit(a) == size_unit(b),
    ensures
        round_div(to_double(a) * 10, size_unit(a)) <= round_div(to_double(b) * 10, size_unit(b)),
        to_double(a) == a,
        to_double(b) == b,
{
    assert(ulp(a) == 1 && ulp(b) == 1);
    assert(a / 1 == a && a % 1 == 0);
    assert(b / 1 == b && b % 1 == 0);
    lemma_round_up(a * 10, b * 10, size_unit(a));
}

// ---------------------------------------------------------------------------
// Answers
// ---------------------------------------------------------------------------

/// Nothing typed is the default; `y` and `yes` are yes; anything else is no.
pub proof fn only_y_and_yes_are_yes(answer: Seq<char>, default_yes: bool)
    ensures
        is_yes(seq![], default_yes) == default_yes,
        answer.len() > 0 ==> (is_yes(answer, default_yes) <==> answer == "y"@ || answer == "yes"@),
{
}

/// A number selects itself and no other; a range selects from its first number
/// to its last.
pub proof fn a_range_selects_its_numbers(a: nat, b: nat, i: int)
    requires
        a <= usize::MAX,
        b <= usize::MAX,
    ensures
        selects(decimal(a), i) <==> i == a,
        selects(decimal(a) + seq!['-'] + decimal(b), i) <==> a <= i <= b,
{
    a_number_is_read_back(a);
    a_number_is_read_back(b);
    reveal_strlit("-");
    assert("-"@ =~= seq!['-']);
    let d = decimal(a);
    if d.contains('-') {
        let k = choose|k: int| 0 <= k < d.len() && d[k] == '-';
        assert(48 <= d[k] as u32 <= 57);
    }
    a_cut_gives_the_parts_back(d, '-', decimal(b));
}

/// What is typed selects what any of its words selects.
pub proof fn every_word_selects(input: Seq<char>, k: int, i: int)
    requires
        0 <= k < words(input).len(),
        selects(words(input)[k], i),
    ensures
        selected(input, i),
{
}

/// What no word selects is not selected; a word that is no number selects nothing.
pub proof fn nothing_else_is_selected(input: Seq<char>, i: int)
    requires
        forall|k: int|
            0 <= k < words(input).len() ==> match #[trigger] names_range(words(input)[k]) {
                Some((a, b)) => !(a <= i <= b),
                None => true,
            },
    ensures
        !selected(input, i),
{
    if selected(input, i) {
        let k = choose|k: int| 0 <= k < words(input).len() && selects(#[trigger] words(input)[k], i);
        assert(names_range(words(input)[k]) is Some);
    }
}

// ---------------------------------------------------------------------------
// Plans
// ---------------------------------------------------------------------------

/// A change of an installed version counts as an upgrade, and among those a
/// security fix as one; a new package as neither.
pub proof fn upgrades_and_fixes_are_counted(v: Seq<ChangeView>, c: ChangeView)
    ensures
        upgrade_count(seq![]) == 0,
        security_count(seq![]) == 0,
        c.old is Some ==> upgrade_count(v.push(c)) == upgrade_count(v) + 1,
        c.old is None ==> upgrade_count(v.push(c)) == upgrade_count(v),
        c.old is Some && c.security ==> security_count(v.push(c)) == security_count(v) + 1,
        c.old is None || !c.security ==> security_count(v.push(c)) == security_count(v),
{
    assert(v.push(c).drop_last() =~= v);
}

/// A security fix is marked, and nothing else is.
pub proof fn a_fix_is_marked(c: ChangeView)
    ensures
        c.security ==> has_text(security_badge(false, c), "security"@),
        !c.security ==> security_badge(false, c).len() == 0,
{
    reveal_strlit("");
    if c.security {
        reveal_strlit("🔒 security");
        reveal_strlit("security");
        reveal_strlit(" ");
        let a = security_badge(false, c);
        assert(a =~= " "@ + "🔒 security"@);
        assert(a.subrange(3, 11) =~= "security"@);
        assert(crate::text::occurs_at(a, "security"@, 3));
    }
}

/// One is singular, any other number plural.
pub proof fn one_is_singular(n: nat)
    ensures
        plural(1) == ""@,
        n != 1 ==> plural(n) == "s"@,
{
}

/// The column of the names is as wide as the longest, and no wider.
pub proof fn the_column_is_as_wide_as_the_longest_name(v: Seq<ChangeView>, i: int)
    ensures
        0 <= i < v.len() ==> encode_utf8(v[i].name).len() <= widest(v),
        v.len() > 0 ==> exists|k: int|
            0 <= k < v.len() && encode_utf8((#[trigger] v[k]).name).len() == widest(v),
    decreases v.len(),
{
    if v.len() > 0 {
        let before = v.drop_last();
        the_column_is_as_wide_as_the_longest_name(before, i);
        let last = v.len() - 1;
        if before.len() > 0 && widest(v) == widest(before) {
            let k = choose|k: int|
                0 <= k < before.len() && encode_utf8((#[trigger] before[k]).name).len() == widest(
                    before,
                );
            assert(encode_utf8(v[k].name).len() == widest(v));
        } else {
            assert(encode_utf8(v[last].name).len() == widest(v));
        }
    }
}

/// The title of the upgrades counts them, and the fixes where there are any.
pub proof fn the_title_counts_the_fixes(total: nat, security: nat)
    ensures
        upgrade_title(total, 0) == "Upgrading ("@ + decimal(total) + ")"@,
        security > 0 ==> upgrade_title(total, security) == "Upgrading ("@ + decimal(total) + ", "@
            + decimal(security) + " security)"@,
{
}

/// A plan tells what is installed, upgraded and removed, each with its number and
/// only where there is any.
pub proof fn a_plan_tells_each_part_with_its_number(tx: TransactionView, manual: Set<Seq<char>>)
    ensures
        tx.install.len() == 0 && tx.remove.len() == 0 ==> plan_text(false, tx, manual).len() == 0,
        tx.install.len() > upgrade_count(tx.install) ==> has_prefix(
            plan_text(false, tx, manual),
            "::"@ + " "@ + ("Installing ("@ + decimal(
                (tx.install.len() - upgrade_count(tx.install)) as nat,
            ) + ")"@),
        ),
        tx.install.len() == 0 && tx.remove.len() > 0 ==> has_prefix(
            plan_text(false, tx, manual),
            "::"@ + " "@ + ("Removing ("@ + decimal(tx.remove.len()) + ")"@),
        ),
{
    reveal_strlit("");
    let e = Seq::<char>::empty();
    let p = plan_text(false, tx, manual);
    if tx.install.len() > upgrade_count(tx.install) {
        let h = "::"@ + " "@ + ("Installing ("@ + decimal(
            (tx.install.len() - upgrade_count(tx.install)) as nat,
        ) + ")"@);
        let r = p.skip(h.len() as int);
        a_text_is_held_where_it_is_put(e, h, r);
        assert(p =~= h + r);
    }
    if tx.install.len() == 0 && tx.remove.len() > 0 {
        let h = "::"@ + " "@ + ("Removing ("@ + decimal(tx.remove.len()) + ")"@);
        let r = p.skip(h.len() as int);
        a_text_is_held_where_it_is_put(e, h, r);
        assert(p =~= h + r);
    }
}

/// Headings, warnings, successes and errors each have their mark before the text.
pub proof fn each_sort_of_line_has_its_mark(color: bool, t: Seq<char>)
    ensures
        header_text(false, t) == "::"@ + " "@ + t,
        warn_text(false, t) == "!"@ + " "@ + t,
        success_text(false, t) == "✓"@ + " "@ + t,
        error_text(false, t) == "error:"@ + " "@ + t,
        header_text(color, t) == bold_text(color, cyan_text(color, "::"@)) + " "@ + bold_text(
            color,
            t,
        ),
        warn_text(color, t) == bold_text(color, yellow_text(color, "!"@)) + " "@ + yellow_text(
            color,
            t,
        ),
        success_text(color, t) == bold_text(color, green_text(color, "✓"@)) + " "@ + t,
        error_text(color, t) == bold_text(color, red_text(color, "error:"@)) + " "@ + t,
{
}

/// The rows of a plan, without colour: the name in its column, and the version or
/// versions; a package that the user installed is marked where it is removed.
pub proof fn the_rows_of_a_plan_are_plain(
    width: nat,
    c: ChangeView,
    manual: Set<Seq<char>>,
)
    ensures
        install_row(false, width, c) == "   "@ + padded(c.name, width) + "  "@ + version_text(c.new)
            + "\n"@,
        upgrade_text(false, width, c) == "   "@ + padded(c.name, width) + "  "@ + version_text(
            c.old,
        ) + " "@ + "→"@ + " "@ + version_text(c.new) + security_badge(false, c),
        manual.contains(c.name) ==> remove_row(false, width, manual, c) == "   "@ + padded(
            c.name,
            width,
        ) + "  "@ + version_text(c.old) + (" "@ + "(you installed this)"@) + "\n"@,
        !manual.contains(c.name) ==> remove_row(false, width, manual, c) == "   "@ + padded(
            c.name,
            width,
        ) + "  "@ + version_text(c.old) + ""@ + "\n"@,
        c.new is Some ==> version_text(c.new) == c.new->0,
        version_text(None) == "?"@,
{
}

/// A quotient is rounded to the nearest number, and halfway to the even one.
pub proof fn a_quotient_is_rounded_to_the_nearest(a: nat, b: nat)
    requires
        b > 0,
    ensures
        2 * (round_div(a, b) * b) <= 2 * a + b,
        2 * a <= 2 * (round_div(a, b) * b) + b,
        2 * (round_div(a, b) * b) == 2 * a + b || 2 * a == 2 * (round_div(a, b) * b) + b
            ==> round_div(a, b) % 2 == 0,
{
    let (q, r) = (a / b, a % b);
    assert(a == q * b + r && r < b) by (nonlinear_arith)
        requires
            q == a / b,
            r == a % b,
            b > 0,
    ;
    assert((q + 1) * b == q * b + b) by (nonlinear_arith);
}

/// From 1024 bytes on a size is told in the largest of three units that it
/// reaches, rounded to a tenth.
pub proof fn a_size_is_told_in_its_unit(bytes: nat)
    requires
        1024 <= bytes < 0x20_0000_0000_0000,
    ensures
        bytes < 1024 * 1024 ==> size_text(bytes) == decimal(round_div(bytes * 10, 1024) / 10) + "."@
            + decimal(round_div(bytes * 10, 1024) % 10) + " KiB"@,
        1024 * 1024 <= bytes < 1024 * 1024 * 1024 ==> size_text(bytes) == decimal(
            round_div(bytes * 10, 1024 * 1024) / 10,
        ) + "."@ + decimal(round_div(bytes * 10, 1024 * 1024) % 10) + " MiB"@,
        1024 * 1024 * 1024 <= bytes ==> size_text(bytes) == decimal(
            round_div(bytes * 10, 1024 * 1024 * 1024) / 10,
        ) + "."@ + decimal(round_div(bytes * 10, 1024 * 1024 * 1024) % 10) + " GiB"@,
{
    assert(ulp(bytes) == 1);
    assert(bytes / 1 == bytes && bytes % 1 == 0);
    assert(to_double(bytes) == bytes);
}

/// Beyond what a double holds exactly a size is rounded to the nearest double.
pub proof fn a_huge_size_is_rounded_to_a_double(n: nat)
    ensures
        ulp(n) > 0,
        2 * to_double(n) <= 2 * n + ulp(n),
        2 * n <= 2 * to_double(n) + ulp(n),
        n < 0x20_0000_0000_0000 ==> to_double(n) == n,
        n >= 0x20_0000_0000_0000 ==> ulp(n) == 2 * ulp(n / 2),
{
    lemma_ulp(n);
    a_quotient_is_rounded_to_the_nearest(n, ulp(n));
    if n < 0x20_0000_0000_0000 {
        assert(n / 1 == n && n % 1 == 0);
    }
}

proof fn lemma_ulp(n: nat)
    ensures
        ulp(n) > 0,
    decreases n,
{
    if n >= 0x20_0000_0000_0000 {
        lemma_ulp(n / 2);
    }
}

/// A word with a part that is no number selects nothing.
pub proof fn a_word_that_is_no_number_selects_nothing(a: Seq<char>, b: Seq<char>, i: int)
    requires
        !a.contains('-'),
        unsigned_up_to(a, usize::MAX as nat) is None || unsigned_up_to(
            b,
            usize::MAX as nat,
        ) is None,
    ensures
        !selects(a + seq!['-'] + b, i),
        unsigned_up_to(a, usize::MAX as nat) is None ==> !selects(a, i),
{
    reveal_strlit("-");
    assert("-"@ =~= seq!['-']);
    a_cut_gives_the_parts_back(a, '-', b);
}

/// The user agrees by `y` or `yes` in any letter case and with blanks around it;
/// an empty answer takes the default, and none at all is no.
pub proof fn the_user_agrees_by_yes(answer: Seq<char>, default_yes: bool)
    ensures
        !agrees(None, default_yes),
        lowercase(trim(answer)).len() == 0 ==> agrees(Some(answer), default_yes) == default_yes,
        lowercase(trim(answer)).len() > 0 ==> (agrees(Some(answer), default_yes) <==> lowercase(
            trim(answer),
        ) == "y"@ || lowercase(trim(answer)) == "yes"@),
{
}

} // verus!

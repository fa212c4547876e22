//! Laws of the history: what an entry says, and which entries are kept and found.

use vstd::prelude::*;

use crate::apt::ChangeView;
use crate::commands::{selected, summary_text};
use crate::history::{
    counts, date_text, dropped, first_old, first_with, has_id, highest, later, new_count, newest,
    pinned, restore_command, restored, touched, undo_install, undo_remove, undo_texts, what_text,
    EntryView,
};
use crate::laws::text::joining_puts_the_text_between;
use crate::number::decimal;
use crate::text::join;

verus! {

/// A new package counts as one, a changed one does not.
pub proof fn new_packages_are_counted(v: Seq<ChangeView>, c: ChangeView)
    ensures
        new_count(seq![]) == 0,
        c.old is None ==> new_count(v.push(c)) == new_count(v) + 1,
        c.old is Some ==> new_count(v.push(c)) == new_count(v),
{
    assert(v.push(c).drop_last() =~= v);
}

proof fn lemma_new(v: Seq<ChangeView>)
    ensures
        new_count(v) <= v.len(),
    decreases v.len(),
{
    if v.len() > 0 {
        lemma_new(v.drop_last());
    }
}

/// The summary of an entry says what it was, and how many packages were new,
/// changed and removed, in that order; the new and the changed make up all that
/// were installed.
pub proof fn a_summary_counts_the_packages(e: EntryView)
    ensures
        summary_text(e) == what_text(e) + "  ("@ + ("+"@ + decimal(new_count(e.install)) + " "@
            + ("~"@ + decimal((e.install.len() - new_count(e.install)) as nat)) + " "@ + ("-"@
            + decimal(e.remove.len()))) + ")"@,
        new_count(e.install) <= e.install.len(),
{
    lemma_new(e.install);
    let (a, b, c) = (
        "+"@ + decimal(new_count(e.install)),
        "~"@ + decimal((e.install.len() - new_count(e.install)) as nat),
        "-"@ + decimal(e.remove.len()),
    );
    joining_puts_the_text_between(seq![a], " "@, b);
    joining_puts_the_text_between(seq![a, b], " "@, c);
    joining_puts_the_text_between(seq![], " "@, a);
    assert(seq![a].push(b) =~= seq![a, b]);
    assert(seq![a, b].push(c) =~= seq![a, b, c]);
    assert(counts(e) =~= seq![a, b, c]);
}

/// An entry is called by its label, and without one by its command.
pub proof fn a_label_goes_before_the_command(e: EntryView)
    ensures
        e.label is Some ==> what_text(e) == e.label->0,
        e.label is None ==> what_text(e) == join(e.command, " "@),
        date_text(None) == "?"@,
{
}

/// To undo an install is to drop a new package, marked by a hyphen, and to bring
/// back the old version of a changed one, behind an equals sign; to undo a removal
/// is to install again.
pub proof fn undoing_turns_each_change_back(c: ChangeView)
    ensures
        c.old is None ==> undo_install(c) == c.name + "-"@,
        c.old is Some ==> undo_install(c) == c.name + "="@ + c.old->0,
        c.old is Some ==> undo_remove(c) == c.name + "="@ + c.old->0,
        c.old is None ==> undo_remove(c) == c.name,
        restore_command() == seq!["install"@, "--allow-downgrades"@],
{
}

/// Every change of an entry is undone by one argument, in order.
pub proof fn every_change_is_undone(e: EntryView, i: int)
    ensures
        undo_texts(e).len() == 2 + e.install.len() + e.remove.len(),
        undo_texts(e)[0] == "install"@,
        undo_texts(e)[1] == "--allow-downgrades"@,
        0 <= i < e.install.len() ==> undo_texts(e)[2 + i] == undo_install(e.install[i]),
        0 <= i < e.remove.len() ==> undo_texts(e)[2 + e.install.len() + i] == undo_remove(
            e.remove[i],
        ),
{
}

/// A package goes back to what it was before the first of its changes.
pub proof fn the_first_change_tells_the_old_version(
    before: Seq<ChangeView>,
    c: ChangeView,
    after: Seq<ChangeView>,
)
    requires
        forall|i: int| 0 <= i < before.len() ==> (#[trigger] before[i]).name != c.name,
    ensures
        first_old(before + seq![c] + after, c.name) == c.old,
    decreases before.len(),
{
    let all = before + seq![c] + after;
    if before.len() == 0 {
        assert(all[0] == c);
    } else {
        assert(all[0] == before[0]);
        let rest = before.skip(1);
        assert(all.skip(1) =~= rest + seq![c] + after);
        assert forall|i: int| 0 <= i < rest.len() implies (#[trigger] rest[i]).name != c.name by {
            assert(rest[i] == before[i + 1]);
        }
        the_first_change_tells_the_old_version(rest, c, after);
    }
}

/// The later entries are those with a higher number, and they alone.
pub proof fn later_entries_have_higher_numbers(es: Seq<EntryView>, id: u64, e: EntryView)
    ensures
        later(es, id).contains(e) <==> es.contains(e) && e.id > id,
    decreases es.len(),
{
    if es.len() > 0 {
        let before = es.drop_last();
        later_entries_have_higher_numbers(before, id, e);
        if es.contains(e) {
            let k = choose|k: int| 0 <= k < es.len() && es[k] == e;
            if k < before.len() {
                assert(before[k] == e);
            }
        }
        if before.contains(e) {
            let k = choose|k: int| 0 <= k < before.len() && before[k] == e;
            assert(es[k] == e);
        }
        assert(es[es.len() - 1] == es.last());
        let (u, v) = (later(before, id), later(es, id));
        if u.contains(e) {
            let k = choose|k: int| 0 <= k < u.len() && u[k] == e;
            assert(v[k] == e);
        }
        if v.contains(e) {
            let k = choose|k: int| 0 <= k < v.len() && v[k] == e;
            if k < u.len() {
                assert(u[k] == e);
            }
        }
        if es.last().id > id {
            assert(v.last() == es.last());
            assert(v[v.len() - 1] == es.last());
        }
    }
}

/// No entry has a number above the highest, and some entry has that one.
pub proof fn the_highest_number_is_some_entrys(es: Seq<EntryView>)
    ensures
        forall|k: int| 0 <= k < es.len() ==> (#[trigger] es[k]).id <= highest(es),
        highest(es) > 0 ==> exists|k: int| 0 <= k < es.len() && (#[trigger] es[k]).id == highest(es),
        es.len() == 0 ==> highest(es) == 0,
    decreases es.len(),
{
    if es.len() > 0 {
        let before = es.drop_last();
        the_highest_number_is_some_entrys(before);
        assert forall|k: int| 0 <= k < es.len() implies (#[trigger] es[k]).id <= highest(es) by {
            if k < before.len() {
                assert(before[k] == es[k]);
            }
        }
        if highest(es) == highest(before) && highest(es) > 0 {
            let k = choose|k: int|
                0 <= k < before.len() && (#[trigger] before[k]).id == highest(before);
            assert(es[k].id == highest(es));
        } else if highest(es) > 0 {
            assert(es[es.len() - 1].id == highest(es));
        }
    }
}

/// At most so many entries are kept, and it is the last ones that are.
pub proof fn the_last_entries_are_kept(es: Seq<EntryView>, limit: nat, i: int)
    ensures
        newest(es, limit).len() == if es.len() > limit {
            limit
        } else {
            es.len()
        },
        0 <= i < newest(es, limit).len() ==> newest(es, limit)[i] == es[es.len() - newest(
            es,
            limit,
        ).len() + i],
{
}

/// With a number only its entries are listed, without one all of them.
pub proof fn a_number_selects_its_entries(es: Seq<EntryView>, id: u64, e: EntryView)
    ensures
        selected(es.push(e), Some(id)) == if e.id == id {
            selected(es, Some(id)).push(e)
        } else {
            selected(es, Some(id))
        },
        selected(es.push(e), None) == selected(es, None).push(e),
        selected(seq![], None).len() == 0,
        selected(seq![], Some(id)).len() == 0,
{
    assert(es.push(e).drop_last() =~= es);
}

/// The entry found by a number has it, and none before it does; a number is known
/// exactly where an entry has it.
pub proof fn the_first_entry_with_the_number_is_found(
    es: Seq<EntryView>,
    id: u64,
    e: EntryView,
    k: int,
)
    requires
        0 <= k < es.len(),
    ensures
        first_with(es, id, e) ==> e.id == id && es.contains(e) && has_id(es, id),
        first_with(es, id, e) && es[k].id == id ==> es.take(k + 1).contains(e),
        es[k].id == id ==> has_id(es, id),
        has_id(es, id) ==> exists|i: int| 0 <= i < es.len() && (#[trigger] es[i]).id == id,
{
    if first_with(es, id, e) {
        let i = choose|i: int|
            0 <= i < es.len() && #[trigger] es[i] == e && e.id == id && forall|j: int|
                0 <= j < i ==> (#[trigger] es[j]).id != id;
        assert(es[i].id == id);
        if es[k].id == id {
            assert(i <= k);
            assert(es.take(k + 1)[i] == e);
        }
    }
}

} // verus!

//! What the history remembers, and how it is shown.
use vstd::prelude::*;

use crate::history::{
    displayed, entry_removed, history_path, is_blank, listing, listing_line, used,
    without_commands, EntryView,
};
use crate::number::decimal;
use crate::split_laws::all_white;
use crate::text_tools::{join_texts, padded_left};

verus! {

/// Whether none of the entries is of the pipeline `commands`.
pub open spec fn has_none_of(entries: Seq<EntryView>, commands: Seq<Seq<char>>) -> bool {
    forall|i: int| 0 <= i < entries.len() ==> (#[trigger] entries[i]).commands != commands
}

proof fn lemma_without_none(entries: Seq<EntryView>, commands: Seq<Seq<char>>)
    requires
        has_none_of(entries, commands),
    ensures
        without_commands(entries, commands) == entries,
    decreases entries.len(),
{
    if entries.len() > 0 {
        let front = entries.drop_last();
        assert forall|i: int| 0 <= i < front.len() implies (#[trigger] front[i]).commands
            != commands by {
            assert(entries[i].commands != commands);
        }
        lemma_without_none(front, commands);
        assert(entries[entries.len() - 1].commands != commands);
        assert(front.push(entries.last()) =~= entries);
    }
}

proof fn lemma_without_one(
    a: Seq<EntryView>,
    e: EntryView,
    b: Seq<EntryView>,
    commands: Seq<Seq<char>>,
)
    requires
        has_none_of(a, commands),
        has_none_of(b, commands),
        e.commands == commands,
    ensures
        without_commands(a.push(e) + b, commands) == a + b,
    decreases b.len(),
{
    let all = a.push(e) + b;
    if b.len() == 0 {
        assert(all.drop_last() =~= a);
        assert(all.last() == e);
        lemma_without_none(a, commands);
        assert(a + b =~= a);
    } else {
        let front = b.drop_last();
        assert forall|i: int| 0 <= i < front.len() implies (#[trigger] front[i]).commands
            != commands by {
            assert(b[i].commands != commands);
        }
        lemma_without_one(a, e, front, commands);
        assert(all.drop_last() =~= a.push(e) + front);
        assert(b[b.len() - 1].commands != commands);
        assert((a + front).push(b.last()) =~= a + b);
    }
}

proof fn lemma_trimmed_blank(s: Seq<char>)
    ensures
        crate::text_tools::trimmed(s).len() == 0 <==> all_white(s),
{
    crate::split_laws::law_trimming_removes_white_space(s);
    if all_white(s) {
        let none = Seq::<char>::empty();
        assert(s + none + none =~= s);
        crate::split_laws::law_trimming_keeps_text(s, none, none);
    }
}

/// A pipeline that is used comes first in the history, with the time of its use;
/// the others follow in their order, and one that was there already is not there
/// twice. Of more than two hundred the last ones are forgotten.
pub proof fn law_used_pipeline_comes_first(
    a: Seq<EntryView>,
    e: EntryView,
    b: Seq<EntryView>,
    commands: Seq<Seq<char>>,
    now: u64,
    i: int,
)
    requires
        0 <= i < commands.len(),
        !all_white(commands[i]),
        has_none_of(a, commands),
        has_none_of(b, commands),
        e.commands == commands,
    ensures
        ({
            let first = seq![EntryView { commands, timestamp: now }];
            let again = used(a.push(e) + b, commands, now);
            let new = used(a, commands, now);
            &&& a.len() + b.len() <= 199 ==> again == first + a + b
            &&& a.len() + b.len() > 199 ==> again == first + (a + b).take(199)
            &&& a.len() <= 199 ==> new == first + a
            &&& a.len() > 199 ==> new == first + a.take(199)
        }),
{
    lemma_trimmed_blank(commands[i]);
    assert(!is_blank(commands));
    lemma_without_one(a, e, b, commands);
    lemma_without_none(a, commands);
    let first = seq![EntryView { commands, timestamp: now }];
    assert(first + (a + b) =~= first + a + b);
    if a.len() + b.len() > 199 {
        assert((first + (a + b)).take(200) =~= first + (a + b).take(199));
    }
    if a.len() > 199 {
        assert((first + a).take(200) =~= first + a.take(199));
    }
}

/// A pipeline of nothing but white space is not remembered.
pub proof fn law_blank_pipeline_is_not_remembered(
    entries: Seq<EntryView>,
    commands: Seq<Seq<char>>,
    now: u64,
)
    requires
        forall|i: int| 0 <= i < commands.len() ==> all_white(#[trigger] commands[i]),
    ensures
        used(entries, commands, now) == entries,
{
    assert forall|i: int| 0 <= i < commands.len() implies crate::text_tools::trimmed(
        #[trigger] commands[i],
    ).len() == 0 by {
        lemma_trimmed_blank(commands[i]);
    }
}

/// An entry is removed by its place, and the others keep their order; where
/// there is none, nothing is removed.
pub proof fn law_removing_an_entry(a: Seq<EntryView>, e: EntryView, b: Seq<EntryView>, i: int)
    ensures
        entry_removed(a.push(e) + b, a.len() as int) == a + b,
        i >= a.len() ==> entry_removed(a, i) == a,
{
    assert((a.push(e) + b).remove(a.len() as int) =~= a + b);
}

/// The listing has a line for each entry: its number, from one on and two wide,
/// and its commands with bars between them. Without entries it says so.
pub proof fn law_listing(entries: Seq<EntryView>, e: EntryView)
    ensures
        ({
            let n = entries.len() + 1;
            let narrow = if n < 10 {
                seq![' ']
            } else {
                Seq::empty()
            };
            let line = seq![' ', ' '] + narrow + decimal(n) + seq![' ', ' '] + join_texts(
                e.commands,
                seq![' ', '|', ' '],
            ) + seq!['\n'];
            &&& entries.len() > 0 ==> displayed(entries.push(e)) == displayed(entries) + line
            &&& entries.len() == 0 ==> displayed(entries.push(e)) == line
            &&& displayed(Seq::empty()) == "No recent pipelines."@
        }),
{
    let n = entries.len() + 1;
    let all = entries.push(e);
    lemma_listing_front(entries, e, entries.len() as int);
    reveal_strlit("  ");
    reveal_strlit(" | ");
    reveal_strlit("\n");
    assert("  "@ =~= seq![' ', ' ']);
    assert(" | "@ =~= seq![' ', '|', ' ']);
    assert("\n"@ =~= seq!['\n']);
    lemma_decimal_len(n);
    let narrow = if n < 10 {
        seq![' ']
    } else {
        Seq::empty()
    };
    assert(padded_left(decimal(n), 2) =~= narrow + decimal(n));
    let line = seq![' ', ' '] + narrow + decimal(n) + seq![' ', ' '] + join_texts(
        e.commands,
        seq![' ', '|', ' '],
    ) + seq!['\n'];
    assert(listing_line(n, e) =~= line);
    assert(listing(all, n as int) == listing(all, n - 1) + listing_line(n, all[n - 1]));
    if entries.len() == 0 {
        assert(listing(all, 0) + line =~= line);
    }
}

proof fn lemma_decimal_len(n: nat)
    ensures
        n < 10 ==> decimal(n).len() == 1,
        n >= 10 ==> decimal(n).len() >= 2,
{
    reveal_with_fuel(decimal, 2);
}

proof fn lemma_listing_front(entries: Seq<EntryView>, e: EntryView, n: int)
    requires
        n <= entries.len(),
    ensures
        listing(entries.push(e), n) == listing(entries, n),
    decreases n,
{
    if n > 0 {
        lemma_listing_front(entries, e, n - 1);
    }
}

/// The history is kept in the home directory, or else in that of the user's
/// profile, in a directory and a file of its own; where neither is known it is
/// not kept.
pub proof fn law_history_path(dir: Seq<char>, other: Option<Seq<char>>)
    ensures
        ({
            let file = ".pipe-explorer/history.json"@;
            let below = if dir.len() > 0 && dir.last() != '/' {
                dir + seq!['/'] + file
            } else {
                dir + file
            };
            &&& history_path(Some(dir), other) == Some(below)
            &&& history_path(None, Some(dir)) == Some(below)
            &&& history_path(None, None) is None
        }),
{
    reveal_strlit("/");
    assert("/"@ =~= seq!['/']);
}

} // verus!

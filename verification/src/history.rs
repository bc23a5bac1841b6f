//! The pipelines that were used before.
use vstd::prelude::*;

use crate::number::{decimal, push_decimal};
use crate::text::{chars_of, opt_string, str_eq, strings};
use crate::text_tools::{join, join_texts, padded_left, push_padded, trim, trimmed};

verus! {

/// Maximum number of history entries to keep.
pub const MAX_ENTRIES: usize = 200;

/// A single pipeline history entry.
#[derive(Debug)]
pub struct HistoryEntry {
    /// The pipeline commands (one per stage).
    pub commands: Vec<String>,
    /// Unix timestamp (seconds) when this pipeline was last used.
    pub timestamp: u64,
}

/// What a [`HistoryEntry`] stands for.
#[verifier::ext_equal]
pub struct EntryView {
    pub commands: Seq<Seq<char>>,
    pub timestamp: u64,
}

impl View for HistoryEntry {
    type V = EntryView;

    open spec fn view(&self) -> EntryView {
        EntryView { commands: strings(self.commands@), timestamp: self.timestamp }
    }
}

/// A copy of a list of texts.
pub(crate) fn copy_strings(v: &[String]) -> (r: Vec<String>)
    ensures
        strings(r@) == strings(v@),
{
    let mut out: Vec<String> = Vec::new();
    let mut i: usize = 0;
    while i < v.len()
        invariant
            i <= v@.len(),
            out@.len() == i,
            forall|k: int| 0 <= k < i ==> (#[trigger] out@[k])@ == v@[k]@,
        decreases v@.len() - i,
    {
        out.push(v[i].clone());
        i = i + 1;
    }
    proof {
        assert(strings(out@) =~= strings(v@));
    }
    out
}

/// Whether two lists of texts are equal.
fn strings_eq(a: &[String], b: &[String]) -> (r: bool)
    ensures
        r == (strings(a@) == strings(b@)),
{
    proof {
        assert(strings(a@).len() == a@.len());
        assert(strings(b@).len() == b@.len());
    }
    if a.len() != b.len() {
        return false;
    }
    let mut i: usize = 0;
    while i < a.len()
        invariant
            a@.len() == b@.len(),
            i <= a@.len(),
            forall|k: int| 0 <= k < i ==> (#[trigger] a@[k])@ == b@[k]@,
        decreases a@.len() - i,
    {
        if !str_eq(a[i].as_str(), b[i].as_str()) {
            proof {
                assert(strings(a@)[i as int] != strings(b@)[i as int]);
            }
            return false;
        }
        i = i + 1;
    }
    proof {
        assert(strings(a@) =~= strings(b@));
    }
    true
}

impl Clone for HistoryEntry {
    fn clone(&self) -> (r: HistoryEntry)
        ensures
            r@ == self@,
    {
        HistoryEntry {
            commands: copy_strings(self.commands.as_slice()),
            timestamp: self.timestamp,
        }
    }
}

/// The full history state.
#[derive(Debug)]
pub struct History {
    pub entries: Vec<HistoryEntry>,
}

/// What a list of entries stands for.
pub open spec fn entries_view(entries: Seq<HistoryEntry>) -> Seq<EntryView> {
    Seq::new(entries.len(), |i: int| entries[i]@)
}

impl View for History {
    type V = Seq<EntryView>;

    open spec fn view(&self) -> Seq<EntryView> {
        entries_view(self.entries@)
    }
}

/// The entries without that of the pipeline `commands`.
pub open spec fn without_commands(entries: Seq<EntryView>, commands: Seq<Seq<char>>) -> Seq<
    EntryView,
>
    decreases entries.len(),
{
    if entries.len() == 0 {
        Seq::empty()
    } else if entries.last().commands == commands {
        without_commands(entries.drop_last(), commands)
    } else {
        without_commands(entries.drop_last(), commands).push(entries.last())
    }
}

/// Whether a pipeline has nothing but white space in it.
pub open spec fn is_blank(commands: Seq<Seq<char>>) -> bool {
    forall|i: int| 0 <= i < commands.len() ==> trimmed(#[trigger] commands[i]).len() == 0
}

/// The first entries, as many as are kept.
pub open spec fn kept_entries(entries: Seq<EntryView>) -> Seq<EntryView> {
    if entries.len() <= MAX_ENTRIES {
        entries
    } else {
        entries.take(MAX_ENTRIES as int)
    }
}

/// The history after a pipeline was used at `now`.
pub open spec fn used(entries: Seq<EntryView>, commands: Seq<Seq<char>>, now: u64) -> Seq<
    EntryView,
> {
    if is_blank(commands) {
        entries
    } else {
        kept_entries(
            seq![EntryView { commands, timestamp: now }] + without_commands(entries, commands),
        )
    }
}

/// A line of the history listing.
pub open spec fn listing_line(number: nat, e: EntryView) -> Seq<char> {
    "  "@ + padded_left(decimal(number), 2) + "  "@ + join_texts(e.commands, " | "@) + "\n"@
}

/// The listing of the first `n` entries.
pub open spec fn listing(entries: Seq<EntryView>, n: int) -> Seq<char>
    decreases n,
{
    if n <= 0 {
        Seq::empty()
    } else {
        listing(entries, n - 1) + listing_line(n as nat, entries[n - 1])
    }
}

/// The time that `std::time::SystemTime::elapsed` reports since the Unix epoch,
/// in whole seconds, or `None` if the clock stands before it. Nothing is
/// claimed of it: the clock decides.
#[verifier::external_body]
fn seconds_since_epoch() -> (r: Option<u64>) {
    std::time::SystemTime::UNIX_EPOCH.elapsed().ok().map(|d| d.as_secs())
}

impl Default for History {
    fn default() -> (r: History)
        ensures
            r@ == Seq::<EntryView>::empty(),
    {
        let r = History { entries: Vec::new() };
        proof {
            assert(r@ =~= Seq::<EntryView>::empty());
        }
        r
    }
}

/// Where the history is kept below a home directory.
pub open spec fn path_below(home: Seq<char>) -> Seq<char> {
    if home.len() == 0 || home.last() == '/' {
        home + ".pipe-explorer/history.json"@
    } else {
        home + "/"@ + ".pipe-explorer/history.json"@
    }
}

/// Where the history is kept: below the first of two directories that is known.
pub open spec fn history_path(home: Option<Seq<char>>, user_profile: Option<Seq<char>>) -> Option<
    Seq<char>,
> {
    match (home, user_profile) {
        (Some(h), _) => Some(path_below(h)),
        (None, Some(u)) => Some(path_below(u)),
        (None, None) => None,
    }
}

/// The history without the entry at `index`, if there is one.
pub open spec fn entry_removed(entries: Seq<EntryView>, index: int) -> Seq<EntryView> {
    if index < entries.len() {
        entries.remove(index)
    } else {
        entries
    }
}

/// The history as it is shown to the user.
pub open spec fn displayed(entries: Seq<EntryView>) -> Seq<char> {
    if entries.len() == 0 {
        "No recent pipelines."@
    } else {
        listing(entries, entries.len() as int)
    }
}

impl History {
    /// Return the path to the history file: `~/.pipe-explorer/history.json`.
    /// `home` and `user_profile` are the values of the environment variables
    /// `HOME` and `USERPROFILE`, the second of which is used without the first.
    pub fn path(home: Option<String>, user_profile: Option<String>) -> (r: Option<String>)
        ensures
            opt_string(r) == history_path(opt_string(home), opt_string(user_profile)),
    {
        let mut path = match home {
            Some(h) => h,
            None => match user_profile {
                Some(u) => u,
                None => {
                    return None;
                },
            },
        };
        let chars = chars_of(path.as_str());
        let n: usize = chars.len();
        if n > 0 && chars[n - 1] != '/' {
            path.append("/");
        }
        path.append(".pipe-explorer/history.json");
        Some(path)
    }

    /// Add a pipeline to the history. If an identical pipeline already exists,
    /// updates its timestamp and moves it to the front. Otherwise inserts a new
    /// entry at the front. Caps at [`MAX_ENTRIES`].
    pub fn add(&mut self, commands: &[String])
        ensures
            exists|now: u64| final(self)@ == #[trigger] used(old(self)@, strings(commands@), now),
    {
        let now = match seconds_since_epoch() {
            Some(s) => s,
            None => 0,
        };
        self.add_at(commands, now);
    }

    /// The same, with the time given.
    pub fn add_at(&mut self, commands: &[String], now: u64)
        ensures
            final(self)@ == used(old(self)@, strings(commands@), now),
    {
        // Skip empty pipelines.
        let ghost cmds = strings(commands@);
        let mut blank = true;
        let mut i: usize = 0;
        while i < commands.len()
            invariant
                i <= commands@.len(),
                cmds == strings(commands@),
                blank == forall|k: int| 0 <= k < i ==> trimmed(#[trigger] cmds[k]).len() == 0,
            decreases commands@.len() - i,
        {
            let t = trim(commands[i].as_str());
            proof {
                assert(cmds[i as int] == commands@[i as int]@);
            }
            if !t.is_empty() {
                blank = false;
            }
            i = i + 1;
        }
        if blank {
            return;
        }
        // The new entry comes first; a duplicate is dropped.
        let ghost before = self@;
        let entry = HistoryEntry { commands: copy_strings(commands), timestamp: now };
        let mut kept: Vec<HistoryEntry> = Vec::new();
        kept.push(entry);
        let ghost first = seq![EntryView { commands: cmds, timestamp: now }];
        let mut j: usize = 0;
        proof {
            assert(before.take(0) =~= Seq::<EntryView>::empty());
            assert(entries_view(kept@) =~= first + without_commands(before.take(0), cmds));
        }
        while j < self.entries.len()
            invariant
                j <= self.entries@.len(),
                before == self@,
                cmds == strings(commands@),
                entries_view(kept@) == first + without_commands(before.take(j as int), cmds),
            decreases self.entries@.len() - j,
        {
            let ghost prev = kept@;
            proof {
                assert(before.take(j + 1).drop_last() =~= before.take(j as int));
                assert(before.take(j + 1).last() == self.entries@[j as int]@);
            }
            if !strings_eq(self.entries[j].commands.as_slice(), commands) {
                let e = self.entries[j].clone();
                kept.push(e);
                proof {
                    assert(entries_view(kept@) =~= entries_view(prev).push(e@));
                    assert(entries_view(kept@) =~= first + without_commands(
                        before.take(j + 1),
                        cmds,
                    ));
                }
            }
            j = j + 1;
        }
        proof {
            assert(before.take(j as int) =~= before);
        }
        let ghost all = entries_view(kept@);
        if kept.len() > MAX_ENTRIES {
            kept.truncate(MAX_ENTRIES);
            proof {
                assert(entries_view(kept@) =~= all.take(MAX_ENTRIES as int));
            }
        }
        self.entries = kept;
    }

    /// Get the Nth most recent entry (0-indexed).
    pub fn get(&self, index: usize) -> (r: Option<&HistoryEntry>)
        ensures
            r is Some <==> index < self@.len(),
            r matches Some(e) ==> e@ == self@[index as int],
    {
        if index < self.entries.len() {
            Some(&self.entries[index])
        } else {
            None
        }
    }

    /// Remove the entry at the given index (0-indexed).
    /// Returns true if an entry was removed.
    pub fn remove(&mut self, index: usize) -> (r: bool)
        ensures
            r == (index < old(self)@.len()),
            final(self)@ == entry_removed(old(self)@, index as int),
    {
        if index < self.entries.len() {
            let ghost before = self@;
            self.entries.remove(index);
            proof {
                assert(self@ =~= before.remove(index as int));
            }
            true
        } else {
            false
        }
    }

    /// Format history for display to the user.
    pub fn display(&self) -> (r: String)
        ensures
            r@ == displayed(self@),
    {
        if self.entries.len() == 0 {
            return "No recent pipelines.".to_owned();
        }
        let mut out = String::new();
        let mut i: usize = 0;
        while i < self.entries.len()
            invariant
                i <= self.entries@.len(),
                out@ == listing(self@, i as int),
            decreases self.entries@.len() - i,
        {
            let ghost before = out@;
            let mut number = String::new();
            push_decimal(&mut number, i as u64 + 1);
            let pipeline = join(self.entries[i].commands.as_slice(), " | ");
            out.append("  ");
            push_padded(&mut out, number.as_str(), 2);
            out.append("  ");
            out.append(pipeline.as_str());
            out.append("\n");
            proof {
                assert(number@ =~= decimal((i + 1) as nat));
                assert(self@[i as int] == self.entries@[i as int]@);
                assert(out@ =~= before + listing_line((i + 1) as nat, self@[i as int]));
            }
            i = i + 1;
        }
        out
    }
}

// ---------------------------------------------------------------------------
// Laws
// ---------------------------------------------------------------------------

/// Whether no pipeline occurs twice, and there are not more entries than are
/// kept.
pub open spec fn history_wf(entries: Seq<EntryView>) -> bool {
    &&& entries.len() <= MAX_ENTRIES
    &&& forall|i: int, j: int|
        0 <= i < j < entries.len() ==> (#[trigger] entries[i]).commands != (
        #[trigger] entries[j]).commands
}

proof fn lemma_without_commands(entries: Seq<EntryView>, commands: Seq<Seq<char>>)
    ensures
        without_commands(entries, commands).len() <= entries.len(),
        forall|i: int|
            0 <= i < without_commands(entries, commands).len() ==> (
            #[trigger] without_commands(entries, commands)[i]).commands != commands
                && entries.contains(without_commands(entries, commands)[i]),
        (forall|i: int, j: int|
            0 <= i < j < entries.len() ==> (#[trigger] entries[i]).commands != (
            #[trigger] entries[j]).commands) ==> (forall|i: int, j: int|
            0 <= i < j < without_commands(entries, commands).len() ==> (
            #[trigger] without_commands(entries, commands)[i]).commands != (
            #[trigger] without_commands(entries, commands)[j]).commands),
    decreases entries.len(),
{
    if entries.len() > 0 {
        let front = entries.drop_last();
        lemma_without_commands(front, commands);
        let kept = without_commands(front, commands);
        let r = without_commands(entries, commands);
        assert forall|i: int| 0 <= i < r.len() implies (#[trigger] r[i]).commands != commands
            && entries.contains(r[i]) by {
            if i < kept.len() {
                assert(r[i] == kept[i]);
                let k = front.index_of(kept[i]);
                assert(entries[k] == r[i]);
            } else {
                assert(entries[entries.len() - 1] == r[i]);
            }
        }
        if forall|i: int, j: int|
            0 <= i < j < entries.len() ==> (#[trigger] entries[i]).commands != (
            #[trigger] entries[j]).commands {
            assert forall|i: int, j: int| 0 <= i < j < front.len() implies (
            #[trigger] front[i]).commands != (#[trigger] front[j]).commands by {
                assert(entries[i].commands != entries[j].commands);
            }
            assert forall|i: int, j: int| 0 <= i < j < r.len() implies (#[trigger] r[i]).commands
                != (#[trigger] r[j]).commands by {
                if j < kept.len() {
                    assert(kept[i].commands != kept[j].commands);
                } else {
                    assert(r[i] == kept[i]);
                    let k = front.index_of(kept[i]);
                    assert(entries[k].commands != entries[entries.len() - 1].commands);
                }
            }
        }
    }
}

/// Using a pipeline keeps the history free of duplicates and within its limit,
/// and puts the pipeline in front with the time of its use. A blank pipeline
/// changes nothing.
pub proof fn law_use_keeps_history_wf(
    entries: Seq<EntryView>,
    commands: Seq<Seq<char>>,
    now: u64,
)
    requires
        history_wf(entries),
    ensures
        history_wf(used(entries, commands, now)),
        !is_blank(commands) ==> used(entries, commands, now)[0] == (EntryView {
            commands,
            timestamp: now,
        }),
        is_blank(commands) ==> used(entries, commands, now) == entries,
{
    lemma_without_commands(entries, commands);
    let rest = without_commands(entries, commands);
    let all = seq![EntryView { commands, timestamp: now }] + rest;
    assert forall|i: int, j: int| 0 <= i < j < all.len() implies (#[trigger] all[i]).commands != (
    #[trigger] all[j]).commands by {
        assert(all[j] == rest[j - 1]);
        if i > 0 {
            assert(all[i] == rest[i - 1]);
        }
    }
}

/// Using a pipeline twice in a row leaves one entry of it, with the later time.
pub proof fn law_use_twice_is_one_entry(
    entries: Seq<EntryView>,
    commands: Seq<Seq<char>>,
    first: u64,
    second: u64,
)
    requires
        history_wf(entries),
    ensures
        used(used(entries, commands, first), commands, second) == used(entries, commands, second),
{
    if !is_blank(commands) {
        lemma_without_commands(entries, commands);
        let rest = without_commands(entries, commands);
        let once = used(entries, commands, first);
        let tail = if rest.len() + 1 <= MAX_ENTRIES {
            rest
        } else {
            rest.take(MAX_ENTRIES - 1)
        };
        assert(once =~= seq![EntryView { commands, timestamp: first }] + tail);
        assert forall|i: int| 0 <= i < tail.len() implies (#[trigger] tail[i]).commands
            != commands by {
            assert(tail[i] == rest[i]);
        }
        lemma_without_others(tail, commands);
        lemma_without_first(EntryView { commands, timestamp: first }, tail);
        assert(used(once, commands, second) =~= used(entries, commands, second));
    }
}

proof fn lemma_without_others(entries: Seq<EntryView>, commands: Seq<Seq<char>>)
    requires
        forall|i: int| 0 <= i < entries.len() ==> (#[trigger] entries[i]).commands != commands,
    ensures
        without_commands(entries, commands) == entries,
    decreases entries.len(),
{
    if entries.len() > 0 {
        assert(entries[entries.len() - 1].commands != commands);
        let front = entries.drop_last();
        assert forall|i: int| 0 <= i < front.len() implies (#[trigger] front[i]).commands
            != commands by {
            assert(front[i] == entries[i]);
        }
        lemma_without_others(front, commands);
        assert(front.push(entries.last()) =~= entries);
    }
}

proof fn lemma_without_first(e: EntryView, rest: Seq<EntryView>)
    ensures
        without_commands(seq![e] + rest, e.commands) == without_commands(rest, e.commands),
    decreases rest.len(),
{
    let all = seq![e] + rest;
    if rest.len() == 0 {
        reveal_with_fuel(without_commands, 2);
        assert(all.drop_last() =~= rest);
    } else {
        assert(all.last() == rest.last());
        assert(all.drop_last() =~= seq![e] + rest.drop_last());
        lemma_without_first(e, rest.drop_last());
    }
}

} // verus!

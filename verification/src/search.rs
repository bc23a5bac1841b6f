//! Searching the output, and the history of searches.
use std::collections::HashMap;

use regex::RegexBuilder;
use vstd::prelude::*;

use crate::caret::{lemma_caret_ends, on_boundary};
use crate::text::{byte_len, chars_of, opt_string, str_eq, strings, texts};
use crate::text_tools::{has_pair, lines_of, remove_pair, text_lines, without_pair};

verus! {

broadcast use vstd::std_specs::hash::group_hash_axioms;

// ---------------------------------------------------------------------------
// Regular expressions
// ---------------------------------------------------------------------------

/// Whether `regex::RegexBuilder::build` accepts a pattern, with letter case
/// ignored or not. Close to the limit on the size of a compiled pattern this
/// rests on the width of the target's pointers too.
pub uninterp spec fn regex_compiles(pattern: Seq<char>, ignore_case: bool) -> bool;

/// Start and end bytes of the matches that `regex::Regex::find_iter` yields for
/// a pattern in a line.
pub uninterp spec fn regex_matches(
    pattern: Seq<char>,
    ignore_case: bool,
    line: Seq<char>,
) -> Seq<(usize, usize)>;

/// Whether ranges stand one behind the other within `size` bytes, none of them
/// overlapping another.
pub open spec fn apart(found: Seq<(usize, usize)>, size: nat) -> bool {
    &&& forall|i: int|
        0 <= i < found.len() ==> (#[trigger] found[i]).0 <= found[i].1 && found[i].1 <= size
    &&& forall|i: int, j: int|
        0 <= i < j < found.len() ==> (#[trigger] found[i]).1 <= (#[trigger] found[j]).0
}

/// `regex::RegexBuilder` compiles the pattern with the given case rule, or
/// rejects it; which patterns it accepts is left to a name. What is returned
/// calls `regex::Regex::find_iter` of the compiled pattern, whose matches in a
/// line are fixed by the pattern, the case rule and the line. They are
/// successive, do not overlap and lie in the line; which matches those are is
/// left to the other name.
#[verifier::external_body]
fn matcher(pattern: &str, ignore_case: bool) -> (r: Option<
    impl Fn(&str) -> Vec<(usize, usize)>,
>)
    ensures
        r is Some <==> regex_compiles(pattern@, ignore_case),
        r matches Some(f) ==> {
            &&& forall|line: &str| #[trigger] f.requires((line,))
            &&& forall|line: &str, found: Vec<(usize, usize)>| #[trigger]
                f.ensures((line,), found) ==> found@ == regex_matches(
                    pattern@,
                    ignore_case,
                    line@,
                ) && apart(found@, byte_len(line@))
        },
{
    let re = RegexBuilder::new(pattern).case_insensitive(ignore_case).build().ok()?;
    Some(move |line: &str| re.find_iter(line).map(|m| (m.start(), m.end())).collect())
}

// ---------------------------------------------------------------------------
// Search state
// ---------------------------------------------------------------------------

/// All state related to the incremental output search.
#[derive(Debug)]
pub struct SearchState {
    /// The current search query (may include \c/\C modifiers).
    pub query: String,
    /// Cursor position within the query (byte index).
    pub cursor: usize,
    /// All matches in the current output: (line_index, start_byte, end_byte).
    pub matches: Vec<(usize, usize, usize)>,
    /// Index of the currently highlighted match.
    pub match_idx: usize,
}

/// What a [`SearchState`] stands for.
#[verifier::ext_equal]
pub struct SearchView {
    pub query: Seq<char>,
    pub cursor: int,
    pub matches: Seq<(usize, usize, usize)>,
    pub match_idx: int,
}

impl View for SearchState {
    type V = SearchView;

    open spec fn view(&self) -> SearchView {
        SearchView {
            query: self.query@,
            cursor: self.cursor as int,
            matches: self.matches@,
            match_idx: self.match_idx as int,
        }
    }
}

/// A search for nothing.
pub open spec fn no_search() -> SearchView {
    SearchView { query: Seq::empty(), cursor: 0, matches: Seq::empty(), match_idx: 0 }
}

/// Whether a character is an ASCII upper-case letter.
pub open spec fn is_upper(c: char) -> bool {
    'A' <= c <= 'Z'
}

/// The pattern of a query, and whether letter case matters: `\c` in the query
/// says that it does not, `\C` that it does; else it does if the query has an
/// upper-case letter.
pub open spec fn vim_pattern(query: Seq<char>) -> (Seq<char>, bool) {
    if has_pair(query, '\\', 'c') {
        (without_pair(query, '\\', 'c'), false)
    } else if has_pair(query, '\\', 'C') {
        (without_pair(query, '\\', 'C'), true)
    } else {
        (query, exists|i: int| 0 <= i < query.len() && is_upper(#[trigger] query[i]))
    }
}

/// Matches found in line `line`, with the line's number.
pub open spec fn tagged(line: int, found: Seq<(usize, usize)>) -> Seq<(usize, usize, usize)> {
    Seq::new(found.len(), |i: int| (line as usize, found[i].0, found[i].1))
}

/// The matches of the first `n` lines, line after line, where `found[i]` are
/// those in line `i`.
pub open spec fn flat_matches(found: Seq<Seq<(usize, usize)>>, n: int) -> Seq<
    (usize, usize, usize),
>
    decreases n,
{
    if n <= 0 {
        Seq::empty()
    } else {
        flat_matches(found, n - 1) + tagged(n - 1, found[n - 1])
    }
}

/// What the regular expression engine finds in each line.
pub open spec fn found_in(
    pattern: Seq<char>,
    ignore_case: bool,
    lines: Seq<Seq<char>>,
) -> Seq<Seq<(usize, usize)>> {
    Seq::new(lines.len(), |i: int| regex_matches(pattern, ignore_case, lines[i]))
}

/// The matches of a query in a text.
pub open spec fn matches_in(query: Seq<char>, content: Seq<char>) -> Seq<(usize, usize, usize)> {
    let (pattern, case_sensitive) = vim_pattern(query);
    if pattern.len() == 0 || !regex_compiles(pattern, !case_sensitive) {
        Seq::empty()
    } else {
        let lines = text_lines(content);
        flat_matches(found_in(pattern, !case_sensitive, lines), lines.len() as int)
    }
}

/// Whether matches are in the order of their lines.
pub open spec fn sorted_by_line(matches: Seq<(usize, usize, usize)>) -> bool {
    forall|i: int, j: int|
        0 <= i <= j < matches.len() ==> (#[trigger] matches[i]).0 <= (#[trigger] matches[j]).0
}

/// Whether matches lie in the lines that they name, one behind the other within
/// a line, none of them overlapping another.
pub open spec fn lie_apart(matches: Seq<(usize, usize, usize)>, lines: Seq<Seq<char>>) -> bool {
    &&& forall|i: int|
        0 <= i < matches.len() ==> {
            &&& (#[trigger] matches[i]).0 < lines.len()
            &&& matches[i].1 <= matches[i].2
            &&& matches[i].2 <= byte_len(lines[matches[i].0 as int])
        }
    &&& forall|i: int, j: int|
        0 <= i < j < matches.len() && (#[trigger] matches[i]).0 == (#[trigger] matches[j]).0
            ==> matches[i].2 <= matches[j].1
}

proof fn lemma_flat_matches_apart(
    found: Seq<Seq<(usize, usize)>>,
    lines: Seq<Seq<char>>,
    n: int,
)
    requires
        0 <= n <= found.len(),
        found.len() == lines.len(),
        n <= usize::MAX,
        forall|k: int| 0 <= k < found.len() ==> apart(#[trigger] found[k], byte_len(lines[k])),
    ensures
        lie_apart(flat_matches(found, n), lines),
    decreases n,
{
    if n > 0 {
        lemma_flat_matches_apart(found, lines, n - 1);
        lemma_flat_matches_sorted(found, n - 1);
        let before = flat_matches(found, n - 1);
        let all = flat_matches(found, n);
        let here = found[n - 1];
        assert(apart(here, byte_len(lines[n - 1])));
        assert forall|i: int| before.len() <= i < all.len() implies #[trigger] all[i] == (
            (n - 1) as usize,
            here[i - before.len()].0,
            here[i - before.len()].1,
        ) by {}
        assert forall|i: int| 0 <= i < before.len() implies #[trigger] all[i] == before[i] by {}
        assert forall|i: int| 0 <= i < all.len() implies {
            &&& (#[trigger] all[i]).0 < lines.len()
            &&& all[i].1 <= all[i].2
            &&& all[i].2 <= byte_len(lines[all[i].0 as int])
        } by {
            if i < before.len() {
                assert(all[i] == before[i]);
            }
        }
        assert forall|i: int, j: int|
            0 <= i < j < all.len() && (#[trigger] all[i]).0 == (#[trigger] all[j]).0 implies
            all[i].2 <= all[j].1 by {
            if i < before.len() {
                assert(all[i] == before[i]);
            }
            if j < before.len() {
                assert(all[j] == before[j]);
            }
        }
    }
}

/// What a list of lists of matches stands for.
pub open spec fn found_view(found: Seq<Vec<(usize, usize)>>) -> Seq<Seq<(usize, usize)>> {
    Seq::new(found.len(), |i: int| found[i]@)
}

/// Matches of consecutive lines are in the order of the lines, and no line is
/// beyond those.
pub proof fn lemma_flat_matches_sorted(found: Seq<Seq<(usize, usize)>>, n: int)
    requires
        0 <= n <= found.len(),
        n <= usize::MAX + 1,
    ensures
        sorted_by_line(flat_matches(found, n)),
        forall|i: int|
            0 <= i < flat_matches(found, n).len() ==> (#[trigger] flat_matches(found, n)[i]).0 < n,
    decreases n,
{
    if n > 0 {
        lemma_flat_matches_sorted(found, n - 1);
        let before = flat_matches(found, n - 1);
        let all = flat_matches(found, n);
        assert forall|i: int| 0 <= i < all.len() implies (#[trigger] all[i]).0 < n by {
            if i < before.len() {
                assert(all[i] == before[i]);
            }
        }
        assert forall|i: int, j: int| 0 <= i <= j < all.len() implies (#[trigger] all[i]).0 <= (
        #[trigger] all[j]).0 by {
            if i < before.len() {
                assert(all[i] == before[i]);
            }
            if j < before.len() {
                assert(all[j] == before[j]);
            }
        }
    }
}

/// The matches of a search, in the order of their lines, where `found[i]` are
/// the start and end bytes of those in line `i`.
pub fn collect_matches(found: &Vec<Vec<(usize, usize)>>) -> (r: Vec<(usize, usize, usize)>)
    ensures
        r@ == flat_matches(found_view(found@), found@.len() as int),
        sorted_by_line(r@),
{
    let mut out: Vec<(usize, usize, usize)> = Vec::new();
    let mut line: usize = 0;
    while line < found.len()
        invariant
            line <= found@.len(),
            out@ == flat_matches(found_view(found@), line as int),
        decreases found@.len() - line,
    {
        let here = &found[line];
        let ghost before = out@;
        let mut i: usize = 0;
        proof {
            assert(before + tagged(line as int, here@).take(0) =~= before);
        }
        while i < here.len()
            invariant
                i <= here@.len(),
                line < usize::MAX,
                out@ == before + tagged(line as int, here@).take(i as int),
            decreases here@.len() - i,
        {
            let (start, end) = here[i];
            out.push((line, start, end));
            proof {
                assert(tagged(line as int, here@).take(i + 1) =~= tagged(line as int, here@).take(
                    i as int,
                ).push((line, start, end)));
                assert(out@ =~= before + tagged(line as int, here@).take(i + 1));
            }
            i = i + 1;
        }
        proof {
            assert(tagged(line as int, here@).take(i as int) =~= tagged(line as int, here@));
        }
        line = line + 1;
    }
    proof {
        lemma_flat_matches_sorted(found_view(found@), found@.len() as int);
    }
    out
}

impl Default for SearchState {
    fn default() -> (r: SearchState)
        ensures
            r.wf(),
            r@ == no_search(),
    {
        SearchState::empty()
    }
}

impl SearchState {
    /// The cursor is a position in the query, the matches are in the order of
    /// their lines, and the highlighted match is one of them.
    pub open spec fn wf(&self) -> bool {
        &&& on_boundary(self.query@, self.cursor as int)
        &&& sorted_by_line(self.matches@)
        &&& self.match_idx < self.matches@.len() || (self.matches@.len() == 0 && self.match_idx
            == 0)
    }

    /// An empty search state.
    pub fn empty() -> (r: SearchState)
        ensures
            r.wf(),
            r@ == no_search(),
    {
        proof {
            lemma_caret_ends(Seq::empty());
        }
        let r = SearchState { query: String::new(), cursor: 0, matches: Vec::new(), match_idx: 0 };
        proof {
            assert(r@ =~= no_search());
        }
        r
    }

    /// Parse a Vim-style search query, extracting the regex pattern and whether
    /// letter case matters.
    /// `\c` anywhere in the pattern → case-insensitive; `\C` → case-sensitive;
    /// without either, case-sensitive if there is an upper-case letter.
    pub fn parse_vim_pattern(query: &str) -> (r: (String, bool))
        ensures
            (r.0@, r.1) == vim_pattern(query@),
    {
        let (without_small, has_small) = remove_pair(query, '\\', 'c');
        if has_small {
            return (without_small, false);
        }
        let (without_large, has_large) = remove_pair(query, '\\', 'C');
        if has_large {
            return (without_large, true);
        }
        let chars = chars_of(query);
        let mut upper = false;
        let mut i: usize = 0;
        while i < chars.len()
            invariant
                chars@ == query@,
                i <= chars@.len(),
                upper == exists|k: int| 0 <= k < i && is_upper(#[trigger] query@[k]),
            decreases chars@.len() - i,
        {
            let c = chars[i];
            if 'A' <= c && c <= 'Z' {
                proof {
                    assert(is_upper(query@[i as int]));
                }
                upper = true;
            }
            i = i + 1;
        }
        (query.to_owned(), upper)
    }

    /// Recompute matches against `content` using the current `query`.
    /// Resets `match_idx` to 0. Invalid regex patterns are silently ignored.
    pub fn compute(&mut self, content: &str)
        requires
            on_boundary(old(self).query@, old(self).cursor as int),
        ensures
            final(self).wf(),
            lie_apart(final(self)@.matches, text_lines(content@)),
            final(self)@ == (SearchView {
                matches: matches_in(old(self)@.query, content@),
                match_idx: 0,
                ..old(self)@
            }),
    {
        self.match_idx = 0;
        self.matches = Vec::new();
        let (pattern, case_sensitive) = SearchState::parse_vim_pattern(self.query.as_str());
        if pattern.as_str().is_empty() {
            return;
        }
        match matcher(pattern.as_str(), !case_sensitive) {
            None => {},
            Some(find) => {
                let lines = lines_of(content);
                let mut found: Vec<Vec<(usize, usize)>> = Vec::new();
                let ghost all = found_in(pattern@, !case_sensitive, text_lines(content@));
                let mut i: usize = 0;
                while i < lines.len()
                    invariant
                        i <= lines@.len(),
                        texts(lines@) == text_lines(content@),
                        all == found_in(pattern@, !case_sensitive, text_lines(content@)),
                        found@.len() == i,
                        forall|k: int| 0 <= k < i ==> (#[trigger] found@[k])@ == all[k],
                        forall|k: int|
                            0 <= k < i ==> apart(
                                #[trigger] all[k],
                                byte_len(text_lines(content@)[k]),
                            ),
                        forall|line: &str| #[trigger] find.requires((line,)),
                        forall|line: &str, out: Vec<(usize, usize)>| #[trigger]
                            find.ensures((line,), out) ==> out@ == regex_matches(
                                pattern@,
                                !case_sensitive,
                                line@,
                            ) && apart(out@, byte_len(line@)),
                    decreases lines@.len() - i,
                {
                    let here = find(lines[i]);
                    proof {
                        assert(texts(lines@)[i as int] == lines@[i as int]@);
                    }
                    found.push(here);
                    i = i + 1;
                }
                proof {
                    assert(found_view(found@) =~= all);
                    assert(found.len() <= usize::MAX);
                    lemma_flat_matches_apart(all, text_lines(content@), all.len() as int);
                }
                self.matches = collect_matches(&found);
            },
        }
    }

    /// Reset all search state.
    pub fn clear(&mut self)
        ensures
            final(self).wf(),
            final(self)@ == no_search(),
    {
        *self = SearchState::empty();
    }
}

/// Number of matches in front that lie before line `line`, or also in it.
pub open spec fn matches_before(
    matches: Seq<(usize, usize, usize)>,
    line: int,
    inclusive: bool,
) -> int
    decreases matches.len(),
{
    if matches.len() == 0 {
        0
    } else if matches.last().0 < line || (inclusive && matches.last().0 == line) {
        matches.len() as int
    } else {
        matches_before(matches.drop_last(), line, inclusive)
    }
}

/// In sorted matches, those before the line come first, and all others follow.
pub proof fn lemma_matches_before(
    matches: Seq<(usize, usize, usize)>,
    line: int,
    inclusive: bool,
)
    requires
        sorted_by_line(matches),
    ensures
        0 <= matches_before(matches, line, inclusive) <= matches.len(),
        forall|i: int|
            0 <= i < matches.len() ==> (i < matches_before(matches, line, inclusive) <==> (
            #[trigger] matches[i]).0 < line || (inclusive && matches[i].0 == line)),
    decreases matches.len(),
{
    if matches.len() > 0 {
        let rest = matches.drop_last();
        assert(sorted_by_line(rest)) by {
            assert forall|i: int, j: int| 0 <= i <= j < rest.len() implies (#[trigger] rest[i]).0
                <= (#[trigger] rest[j]).0 by {
                assert(matches[i].0 <= matches[j].0);
            }
        }
        lemma_matches_before(rest, line, inclusive);
        assert forall|i: int| 0 <= i < matches.len() implies (i < matches_before(
            matches,
            line,
            inclusive,
        ) <==> (#[trigger] matches[i]).0 < line || (inclusive && matches[i].0 == line)) by {
            assert(matches[i].0 <= matches[matches.len() - 1].0);
            if i < rest.len() {
                assert(rest[i] == matches[i]);
            }
        }
    }
}

proof fn lemma_matches_before_is(
    matches: Seq<(usize, usize, usize)>,
    line: int,
    inclusive: bool,
    n: int,
)
    requires
        sorted_by_line(matches),
        0 <= n <= matches.len(),
        n > 0 ==> matches[n - 1].0 < line || (inclusive && matches[n - 1].0 == line),
        n < matches.len() ==> !(matches[n].0 < line || (inclusive && matches[n].0 == line)),
    ensures
        matches_before(matches, line, inclusive) == n,
{
    lemma_matches_before(matches, line, inclusive);
    let k = matches_before(matches, line, inclusive);
    if k > n {
        assert(matches[n].0 < line || (inclusive && matches[n].0 == line));
    }
    if k < n {
        assert(!(matches[n - 1].0 < line || (inclusive && matches[n - 1].0 == line)));
    }
}

/// Number of sorted matches before line `line`, or also in it, by binary search.
pub fn count_before(
    matches: &Vec<(usize, usize, usize)>,
    line: usize,
    inclusive: bool,
) -> (r: usize)
    requires
        sorted_by_line(matches@),
    ensures
        r == matches_before(matches@, line as int, inclusive),
        r <= matches@.len(),
{
    let mut lo: usize = 0;
    let mut hi: usize = matches.len();
    while lo < hi
        invariant
            lo <= hi <= matches@.len(),
            sorted_by_line(matches@),
            lo > 0 ==> matches@[lo - 1].0 < line || (inclusive && matches@[lo - 1].0 == line),
            hi < matches@.len() ==> !(matches@[hi as int].0 < line || (inclusive
                && matches@[hi as int].0 == line)),
        decreases hi - lo,
    {
        let mid = lo + (hi - lo) / 2;
        let at = matches[mid].0;
        if at < line || (inclusive && at == line) {
            lo = mid + 1;
        } else {
            hi = mid;
        }
    }
    proof {
        lemma_matches_before_is(matches@, line as int, inclusive, lo as int);
    }
    lo
}

// ---------------------------------------------------------------------------
// Search history
// ---------------------------------------------------------------------------

/// History of committed search queries, shared across all pipeline stages.
///
/// The history is deduplicated (most recent at index 0). Once stored, entries
/// are immutable: navigating with the arrow keys shows a local copy of each
/// entry that can be modified freely, but those modifications are never written
/// back. Pressing `Alt+R` while on a history entry reverts to the original.
/// Modifications are discarded when a new search is confirmed or when search
/// mode is entered again.
#[derive(Debug)]
pub struct SearchHistory {
    /// Committed entries, newest first.
    entries: Vec<String>,
    /// Current navigation position. `None` means we are editing a fresh draft.
    nav_index: Option<usize>,
    /// The in-progress text the user was typing before any history navigation.
    draft: String,
    /// Temporary per-entry edits (keyed by entry index). Never written back to
    /// `entries`.
    modifications: HashMap<usize, String>,
}

/// What a [`SearchHistory`] stands for.
#[verifier::ext_equal]
pub struct SearchHistoryView {
    pub entries: Seq<Seq<char>>,
    pub nav: Option<usize>,
    pub draft: Seq<char>,
    pub edits: Map<usize, Seq<char>>,
}

impl View for SearchHistory {
    type V = SearchHistoryView;

    closed spec fn view(&self) -> SearchHistoryView {
        SearchHistoryView {
            entries: strings(self.entries@),
            nav: self.nav_index,
            draft: self.draft@,
            edits: self.modifications@.map_values(|s: String| s@),
        }
    }
}

/// A history without entries.
pub open spec fn no_history() -> SearchHistoryView {
    SearchHistoryView {
        entries: Seq::empty(),
        nav: None,
        draft: Seq::empty(),
        edits: Map::empty(),
    }
}

/// The entries without those equal to `query`.
pub open spec fn entries_without(entries: Seq<Seq<char>>, query: Seq<char>) -> Seq<Seq<char>>
    decreases entries.len(),
{
    if entries.len() == 0 {
        Seq::empty()
    } else if entries.last() == query {
        entries_without(entries.drop_last(), query)
    } else {
        entries_without(entries.drop_last(), query).push(entries.last())
    }
}

/// The history back at a blank draft.
pub open spec fn nav_reset(v: SearchHistoryView) -> SearchHistoryView {
    SearchHistoryView {
        nav: None,
        draft: Seq::empty(),
        edits: Map::empty(),
        ..v
    }
}

/// The history after a query was committed.
pub open spec fn query_pushed(v: SearchHistoryView, query: Seq<char>) -> SearchHistoryView {
    if query.len() == 0 {
        v
    } else {
        SearchHistoryView {
            entries: seq![query] + entries_without(v.entries, query),
            ..nav_reset(v)
        }
    }
}

/// The text shown for entry `i`: the temporary edit of it, or the entry.
pub open spec fn shown_entry(v: SearchHistoryView, i: usize) -> Seq<char> {
    if v.edits.contains_key(i) {
        v.edits[i]
    } else {
        v.entries[i as int]
    }
}

/// One entry older. `text` is what the search box shows.
pub open spec fn nav_up(v: SearchHistoryView, text: Seq<char>) -> (
    SearchHistoryView,
    Option<Seq<char>>,
) {
    if v.entries.len() == 0 {
        (v, None)
    } else {
        match v.nav {
            None => {
                let w = SearchHistoryView { draft: text, nav: Some(0), ..v };
                (w, Some(shown_entry(w, 0)))
            },
            Some(i) => if i + 1 < v.entries.len() {
                let w = SearchHistoryView {
                    edits: v.edits.insert(i, text),
                    nav: Some((i + 1) as usize),
                    ..v
                };
                (w, Some(shown_entry(w, (i + 1) as usize)))
            } else {
                (v, None)
            },
        }
    }
}

/// One entry newer, or back to the draft. `text` is what the search box shows.
pub open spec fn nav_down(v: SearchHistoryView, text: Seq<char>) -> (
    SearchHistoryView,
    Option<Seq<char>>,
) {
    match v.nav {
        None => (v, None),
        Some(i) => {
            let edits = v.edits.insert(i, text);
            if i == 0 {
                (SearchHistoryView { edits, nav: None, ..v }, Some(v.draft))
            } else {
                let w = SearchHistoryView { edits, nav: Some((i - 1) as usize), ..v };
                (w, Some(shown_entry(w, (i - 1) as usize)))
            }
        },
    }
}

/// The current entry as it was committed, without the temporary edit of it.
pub open spec fn nav_revert(v: SearchHistoryView) -> (SearchHistoryView, Option<Seq<char>>) {
    match v.nav {
        None => (v, None),
        Some(i) => (
            SearchHistoryView { edits: v.edits.remove(i), ..v },
            Some(v.entries[i as int]),
        ),
    }
}

impl Default for SearchHistory {
    fn default() -> (r: SearchHistory)
        ensures
            r.wf(),
            r@ == no_history(),
    {
        let r = SearchHistory {
            entries: Vec::new(),
            nav_index: None,
            draft: String::new(),
            modifications: HashMap::new(),
        };
        proof {
            assert(strings(r.entries@) =~= Seq::<Seq<char>>::empty());
            assert(r@ =~= no_history());
        }
        r
    }
}

impl SearchHistory {
    /// The navigation position is one of the entries.
    pub open spec fn wf(&self) -> bool {
        self@.nav matches Some(i) ==> i < self@.entries.len()
    }

    /// Return the number of stored entries.
    #[must_use]
    pub fn len(&self) -> (r: usize)
        ensures
            r == self@.entries.len(),
    {
        self.entries.len()
    }

    /// Return `true` if there are no stored entries.
    #[must_use]
    pub fn is_empty(&self) -> (r: bool)
        ensures
            r == (self@.entries.len() == 0),
    {
        self.entries.len() == 0
    }

    /// Push `query` to the front of the history, deduplicating it.
    ///
    /// Empty queries are silently ignored. Also resets navigation so the next
    /// search starts with a blank draft rather than at a history position.
    pub fn push(&mut self, query: &str)
        requires
            old(self).wf(),
        ensures
            final(self).wf(),
            final(self)@ == query_pushed(old(self)@, query@),
    {
        if query.is_empty() {
            return;
        }
        let ghost before = strings(self.entries@);
        let mut kept: Vec<String> = Vec::new();
        kept.push(query.to_owned());
        let mut i: usize = 0;
        proof {
            assert(before.take(0) =~= Seq::<Seq<char>>::empty());
            assert(strings(kept@) =~= seq![query@] + entries_without(before.take(0), query@));
        }
        while i < self.entries.len()
            invariant
                i <= self.entries@.len(),
                before == strings(self.entries@),
                strings(kept@) == seq![query@] + entries_without(before.take(i as int), query@),
            decreases self.entries@.len() - i,
        {
            let ghost prev = kept@;
            proof {
                assert(before.take(i + 1).drop_last() =~= before.take(i as int));
                assert(before.take(i + 1).last() == self.entries@[i as int]@);
            }
            if !str_eq(self.entries[i].as_str(), query) {
                let e = self.entries[i].clone();
                kept.push(e);
                proof {
                    assert(strings(kept@) =~= strings(prev).push(e@));
                    assert(strings(kept@) =~= seq![query@] + entries_without(
                        before.take(i + 1),
                        query@,
                    ));
                }
            }
            i = i + 1;
        }
        proof {
            assert(before.take(i as int) =~= before);
        }
        self.entries = kept;
        self.reset_navigation();
    }

    /// Reset the navigation cursor back to the draft position.
    ///
    /// Call this when entering search mode so history traversal always starts
    /// from a blank draft rather than where the user last left off.
    pub fn reset_navigation(&mut self)
        ensures
            final(self).wf(),
            final(self)@ == nav_reset(old(self)@),
    {
        self.nav_index = None;
        self.draft = String::new();
        self.modifications.clear();
        proof {
            assert(self@.edits =~= Map::<usize, Seq<char>>::empty());
            assert(self@ =~= nav_reset(old(self)@));
        }
    }

    /// The text shown for entry `idx`.
    fn shown(&self, idx: usize) -> (r: String)
        requires
            idx < self@.entries.len(),
        ensures
            r@ == shown_entry(self@, idx),
    {
        match self.modifications.get(&idx) {
            Some(text) => text.clone(),
            None => self.entries[idx].clone(),
        }
    }

    fn keep_edit(&mut self, idx: usize, text: &str)
        ensures
            final(self)@ == (SearchHistoryView {
                edits: old(self)@.edits.insert(idx, text@),
                ..old(self)@
            }),
    {
        self.modifications.insert(idx, text.to_owned());
        proof {
            assert(self@.edits =~= old(self)@.edits.insert(idx, text@));
            assert(self@ =~= (SearchHistoryView {
                edits: old(self)@.edits.insert(idx, text@),
                ..old(self)@
            }));
        }
    }

    /// Navigate to the previous (older) history entry.
    ///
    /// `current_text` is the text currently visible in the search box. It is
    /// saved as the draft (when moving away from the draft position) or as a
    /// temporary modification for the current history entry (when already
    /// navigating history).
    ///
    /// Returns the text that should be placed in the search box, or `None`
    /// when the history is empty or we are already at the oldest entry.
    pub fn navigate_up(&mut self, current_text: &str) -> (r: Option<String>)
        requires
            old(self).wf(),
        ensures
            final(self).wf(),
            (final(self)@, opt_string(r)) == nav_up(old(self)@, current_text@),
    {
        if self.entries.len() == 0 {
            return None;
        }
        match self.nav_index {
            None => {
                self.draft = current_text.to_owned();
                self.nav_index = Some(0);
                Some(self.shown(0))
            },
            Some(i) => {
                if i + 1 < self.entries.len() {
                    self.keep_edit(i, current_text);
                    self.nav_index = Some(i + 1);
                    Some(self.shown(i + 1))
                } else {
                    None
                }
            },
        }
    }

    /// Navigate to the next (newer) history entry, or back to the draft.
    ///
    /// `current_text` is saved as a temporary modification for the current
    /// entry before moving forward.
    ///
    /// Returns the text that should be placed in the search box, or `None`
    /// when already at the draft position.
    pub fn navigate_down(&mut self, current_text: &str) -> (r: Option<String>)
        requires
            old(self).wf(),
        ensures
            final(self).wf(),
            (final(self)@, opt_string(r)) == nav_down(old(self)@, current_text@),
    {
        match self.nav_index {
            None => None,
            Some(i) => {
                self.keep_edit(i, current_text);
                if i == 0 {
                    self.nav_index = None;
                    Some(self.draft.clone())
                } else {
                    self.nav_index = Some(i - 1);
                    Some(self.shown(i - 1))
                }
            },
        }
    }

    /// Revert the currently displayed history entry to its original stored
    /// value, discarding any temporary modification.
    ///
    /// Returns the original text, or `None` when at the draft position (no
    /// history entry selected).
    pub fn revert_current(&mut self) -> (r: Option<String>)
        requires
            old(self).wf(),
        ensures
            final(self).wf(),
            (final(self)@, opt_string(r)) == nav_revert(old(self)@),
    {
        match self.nav_index {
            None => None,
            Some(idx) => {
                self.modifications.remove(&idx);
                proof {
                    assert(self@.edits =~= old(self)@.edits.remove(idx));
                }
                Some(self.entries[idx].clone())
            },
        }
    }
}

// ---------------------------------------------------------------------------
// Laws
// ---------------------------------------------------------------------------

/// Whatever is searched for, the matches are in the order of their lines.
pub proof fn law_matches_sorted(query: Seq<char>, content: Seq<char>)
    requires
        text_lines(content).len() <= usize::MAX,
    ensures
        sorted_by_line(matches_in(query, content)),
        forall|i: int|
            0 <= i < matches_in(query, content).len() ==> (#[trigger] matches_in(
                query,
                content,
            )[i]).0 < text_lines(content).len(),
{
    let (pattern, case_sensitive) = vim_pattern(query);
    let lines = text_lines(content);
    lemma_flat_matches_sorted(
        found_in(pattern, !case_sensitive, lines),
        lines.len() as int,
    );
}

/// A search for nothing finds nothing.
pub proof fn law_empty_query_finds_nothing(content: Seq<char>)
    ensures
        matches_in(Seq::empty(), content) == Seq::<(usize, usize, usize)>::empty(),
{
}

/// Committing a query leaves each entry once, the new one in front, and every
/// other entry where it was among the rest.
pub proof fn law_push_keeps_entries_distinct(v: SearchHistoryView, query: Seq<char>)
    requires
        v.entries.no_duplicates(),
    ensures
        query_pushed(v, query).entries.no_duplicates(),
        query.len() > 0 ==> query_pushed(v, query).entries[0] == query,
        forall|e: Seq<char>|
            query.len() > 0 && e != query ==> (#[trigger] query_pushed(v, query).entries.contains(e)
                <==> v.entries.contains(e)),
{
    if query.len() > 0 {
        lemma_entries_without(v.entries, query);
        let rest = entries_without(v.entries, query);
        let all = query_pushed(v, query).entries;
        assert(all =~= seq![query] + rest);
        assert forall|i: int, j: int| 0 <= i < j < all.len() implies all[i] != all[j] by {
            assert(rest.contains(rest[j - 1]));
            if i > 0 {
                assert(all[i] == rest[i - 1]);
            }
        }
        assert forall|e: Seq<char>| e != query implies (#[trigger] all.contains(e)
            <==> v.entries.contains(e)) by {
            if all.contains(e) {
                let i = all.index_of(e);
                assert(rest[i - 1] == e);
                assert(rest.contains(e));
            }
            if v.entries.contains(e) {
                assert(rest.contains(e));
                let i = rest.index_of(e);
                assert(all[i + 1] == e);
            }
        }
    }
}

proof fn lemma_entries_without(entries: Seq<Seq<char>>, query: Seq<char>)
    ensures
        forall|e: Seq<char>| #[trigger]
            entries_without(entries, query).contains(e) <==> entries.contains(e) && e != query,
        entries.no_duplicates() ==> entries_without(entries, query).no_duplicates(),
    decreases entries.len(),
{
    if entries.len() > 0 {
        let front = entries.drop_last();
        let last = entries.last();
        lemma_entries_without(front, query);
        let kept = entries_without(front, query);
        let r = entries_without(entries, query);
        assert forall|e: Seq<char>| #[trigger] r.contains(e) <==> entries.contains(e) && e
            != query by {
            if r.contains(e) {
                let i = r.index_of(e);
                if i < kept.len() {
                    assert(kept[i] == e);
                    assert(kept.contains(e));
                    let k = front.index_of(e);
                    assert(entries[k] == e);
                } else {
                    assert(entries[entries.len() - 1] == e);
                }
            }
            if entries.contains(e) && e != query {
                let k = entries.index_of(e);
                if k < front.len() {
                    assert(front[k] == e);
                    assert(kept.contains(e));
                    let i = kept.index_of(e);
                    assert(r[i] == e);
                } else {
                    assert(r[r.len() - 1] == e);
                }
            }
        }
        if entries.no_duplicates() {
            assert(front.no_duplicates());
            if last != query {
                assert forall|i: int, j: int| 0 <= i < j < r.len() implies r[i] != r[j] by {
                    if j == kept.len() {
                        assert(kept.contains(kept[i]));
                        let k = front.index_of(kept[i]);
                        assert(entries[k] != entries[entries.len() - 1]);
                    }
                }
            }
        }
    }
}

/// Walking through the history changes none of its entries.
pub proof fn law_navigation_keeps_entries(v: SearchHistoryView, text: Seq<char>)
    ensures
        nav_up(v, text).0.entries == v.entries,
        nav_down(v, text).0.entries == v.entries,
        nav_revert(v).0.entries == v.entries,
        nav_reset(v).entries == v.entries,
{
}

/// Coming back from the newest entry restores the draft that was left.
pub proof fn law_draft_is_restored(v: SearchHistoryView, draft: Seq<char>, text: Seq<char>)
    requires
        v.entries.len() > 0,
        v.nav is None,
    ensures
        nav_down(nav_up(v, draft).0, text).1 == Some(draft),
        nav_down(nav_up(v, draft).0, text).0.nav is None,
{
}

/// Coming back to an entry shows it as it was left.
pub proof fn law_edits_are_remembered(
    v: SearchHistoryView,
    edited: Seq<char>,
    text: Seq<char>,
)
    requires
        v.nav matches Some(i) && i + 1 < v.entries.len() <= usize::MAX,
    ensures
        nav_down(nav_up(v, edited).0, text).1 == Some(edited),
{
}

/// Reverting shows the entry as it was committed, also when coming back to it.
pub proof fn law_revert_forgets_edit(v: SearchHistoryView)
    requires
        v.nav matches Some(i) && i < v.entries.len(),
    ensures
        nav_revert(v).1 == Some(v.entries[v.nav->0 as int]),
        shown_entry(nav_revert(v).0, v.nav->0) == v.entries[v.nav->0 as int],
{
}

} // verus!

//! What is searched for, where it is found, and how one gets from match to match.
use vstd::prelude::*;

use crate::app_model::{first_match_view, next_match_view, prev_match_view, ViewView};
use crate::search::{
    entries_without, flat_matches, found_in, lemma_matches_before, matches_in, nav_down, nav_revert,
    nav_up, query_pushed, regex_compiles, regex_matches, tagged, vim_pattern, SearchHistoryView,
};
use crate::text::{first_of, lemma_first_of};
use crate::text_tools::{text_lines, without_pair};

verus! {

// ---------------------------------------------------------------------------
// The query
// ---------------------------------------------------------------------------

/// Whether a backslash directly followed by `c` stands at position `i`.
pub open spec fn flag_at(query: Seq<char>, i: int, c: char) -> bool {
    0 <= i < query.len() - 1 && query[i] == '\\' && query[i + 1] == c
}

/// Without a flag in it, a query is its own pattern, and letter case matters if
/// and only if there is an upper-case ASCII letter anywhere in it.
pub proof fn law_smart_case(query: Seq<char>)
    requires
        forall|i: int| !(#[trigger] flag_at(query, i, 'c')),
        forall|i: int| !(#[trigger] flag_at(query, i, 'C')),
    ensures
        vim_pattern(query).0 == query,
        forall|i: int|
            0 <= i < query.len() && 'A' <= #[trigger] query[i] <= 'Z' ==> vim_pattern(query).1,
        (forall|i: int| 0 <= i < query.len() ==> !('A' <= #[trigger] query[i] <= 'Z'))
            ==> !vim_pattern(query).1,
{
    assert forall|i: int| 0 <= i < query.len() - 1 && #[trigger] query[i] == '\\' implies query[i
        + 1] != 'c' && query[i + 1] != 'C' by {
        assert(!flag_at(query, i, 'c') && !flag_at(query, i, 'C'));
    }
}

/// `\c` anywhere in a query says that letter case does not matter, whatever else
/// is in it; else `\C` anywhere says that it does.
pub proof fn law_flags_decide_case(query: Seq<char>, i: int)
    ensures
        flag_at(query, i, 'c') ==> !vim_pattern(query).1,
        flag_at(query, i, 'C') && (forall|j: int| !(#[trigger] flag_at(query, j, 'c')))
            ==> vim_pattern(query).1,
{
    if flag_at(query, i, 'C') && (forall|j: int| !(#[trigger] flag_at(query, j, 'c'))) {
        assert forall|j: int| 0 <= j < query.len() - 1 && #[trigger] query[j] == '\\' implies query[j
            + 1] != 'c' by {
            assert(!flag_at(query, j, 'c'));
        }
        assert(query[i] == '\\');
    }
    if flag_at(query, i, 'c') {
        assert(query[i] == '\\');
    }
}

proof fn lemma_without_pair_none(s: Seq<char>, b: char)
    requires
        !s.contains('\\'),
    ensures
        without_pair(s, '\\', b) == s,
    decreases s.len(),
{
    if s.len() >= 2 {
        assert(s.contains(s[0]));
        let t = s.drop_first();
        assert forall|c: char| t.contains(c) implies s.contains(c) by {
            let i = t.index_of(c);
            assert(s[i + 1] == c);
        }
        lemma_without_pair_none(t, b);
        assert(seq![s[0]] + t =~= s);
    }
}

proof fn lemma_without_pair_one(a: Seq<char>, b: Seq<char>, c: char)
    requires
        !a.contains('\\'),
    ensures
        without_pair(a + seq!['\\', c] + b, '\\', c) == a + without_pair(b, '\\', c),
    decreases a.len(),
{
    let s = a + seq!['\\', c] + b;
    if a.len() == 0 {
        assert(s.skip(2) =~= b);
        assert(s[0] == '\\' && s[1] == c);
        assert(a + without_pair(b, '\\', c) =~= without_pair(b, '\\', c));
    } else {
        let t = a.drop_first();
        assert(a.contains(a[0]));
        assert forall|d: char| t.contains(d) implies a.contains(d) by {
            let i = t.index_of(d);
            assert(a[i + 1] == d);
        }
        lemma_without_pair_one(t, b, c);
        assert(s[0] == a[0]);
        assert(s.drop_first() =~= t + seq!['\\', c] + b);
        assert(seq![a[0]] + (t + without_pair(b, '\\', c)) =~= a + without_pair(b, '\\', c));
    }
}

/// A flag is not part of the pattern, wherever it stands; everything else is.
pub proof fn law_flags_are_removed(a: Seq<char>, b: Seq<char>)
    requires
        !a.contains('\\'),
        !b.contains('\\'),
    ensures
        vim_pattern(a + seq!['\\', 'c'] + b) == (a + b, false),
        vim_pattern(a + seq!['\\', 'C'] + b) == (a + b, true),
{
    let s = a + seq!['\\', 'c'] + b;
    let t = a + seq!['\\', 'C'] + b;
    lemma_without_pair_one(a, b, 'c');
    lemma_without_pair_one(a, b, 'C');
    lemma_without_pair_none(b, 'c');
    lemma_without_pair_none(b, 'C');
    let n = a.len() as int;
    assert(s[n] == '\\' && s[n + 1] == 'c');
    assert(t[n] == '\\' && t[n + 1] == 'C');
    assert forall|i: int| 0 <= i < t.len() - 1 && #[trigger] t[i] == '\\' implies t[i + 1]
        != 'c' by {
        if i < n {
            assert(a.contains(a[i]));
        } else if i > n + 1 {
            assert(b.contains(b[i - n - 2]));
        }
    }
}

// ---------------------------------------------------------------------------
// The matches
// ---------------------------------------------------------------------------

/// A line is what stands between two newlines, without a carriage return at its
/// end; what follows the last newline is a line if there is anything.
pub proof fn law_lines_of_text(before: Seq<char>, line: Seq<char>)
    requires
        before.len() > 0 ==> before.last() == '\n',
        !line.contains('\n'),
    ensures
        text_lines(Seq::empty()) == Seq::<Seq<char>>::empty(),
        text_lines(before + line.push('\n')) == text_lines(before).push(
            if line.len() > 0 && line.last() == '\r' {
                line.drop_last()
            } else {
                line
            },
        ),
        line.len() > 0 ==> text_lines(before + line) == text_lines(before).push(line),
    decreases before.len(),
{
    if before.len() == 0 {
        let s = line.push('\n');
        assert(before + s =~= s);
        assert(before + line =~= line);
        lemma_first_of(s, '\n');
        lemma_first_of(line, '\n');
        let k = first_of(s, '\n');
        let n = line.len() as int;
        assert(s[n] == '\n');
        if k < n {
            assert(line.contains(line[k]));
        }
        if k > n {
            assert(s[n] != '\n');
        }
        assert(s.take(n) =~= line);
        assert(s.skip(n + 1) =~= Seq::<char>::empty());
        reveal_with_fuel(text_lines, 2);
        assert(text_lines(s) =~= seq![crate::text_tools::chomped(line)]);
        let j = first_of(line, '\n');
        if j < n {
            assert(line.contains(line[j]));
        }
        assert(text_lines(before) =~= Seq::<Seq<char>>::empty());
    } else {
        lemma_first_of(before, '\n');
        let k = first_of(before, '\n');
        assert(before[before.len() - 1] == '\n');
        let rest = before.skip(k + 1);
        if rest.len() > 0 {
            assert(rest.last() == before.last());
        }
        law_lines_of_text(rest, line);
        lemma_first_line(before, k, line.push('\n'));
        if line.len() > 0 {
            lemma_first_line(before, k, line);
        }
        assert(before.take(k) =~= before.take(k));
    }
}

proof fn lemma_first_line(before: Seq<char>, k: int, tail: Seq<char>)
    requires
        k == first_of(before, '\n'),
        0 <= k < before.len(),
    ensures
        text_lines(before + tail) == seq![crate::text_tools::chomped(before.take(k))]
            + text_lines(before.skip(k + 1) + tail),
        text_lines(before) == seq![crate::text_tools::chomped(before.take(k))] + text_lines(
            before.skip(k + 1),
        ),
{
    let s = before + tail;
    lemma_first_of(before, '\n');
    lemma_first_of(s, '\n');
    let j = first_of(s, '\n');
    assert(s[k] == '\n');
    if j < k {
        assert(before[j] == s[j]);
    }
    if j > k {
        assert(s[k] != '\n');
    }
    assert(s.take(k) =~= before.take(k));
    assert(s.skip(k + 1) =~= before.skip(k + 1) + tail);
}

/// What is searched for in a text is searched for in each of its lines, and each
/// match is noted with the number of its line, counted from the top: the lines
/// in front of the last one have the matches that they have without it. Without
/// a pattern, and with one that is no regular expression, nothing is found.
pub proof fn law_matches_are_found_line_by_line(
    query: Seq<char>,
    before: Seq<char>,
    line: Seq<char>,
)
    requires
        before.len() > 0 ==> before.last() == '\n',
        !line.contains('\n'),
        line.len() > 0 ==> line.last() != '\r',
        text_lines(before).len() <= usize::MAX,
    ensures
        ({
            let (pattern, case_matters) = vim_pattern(query);
            let here = regex_matches(pattern, !case_matters, line);
            let n = text_lines(before).len();
            let more = Seq::new(here.len(), |i: int| (n as usize, here[i].0, here[i].1));
            let searches = pattern.len() > 0 && regex_compiles(pattern, !case_matters);
            &&& matches_in(query, Seq::empty()).len() == 0
            &&& !searches ==> matches_in(query, before).len() == 0
            &&& searches ==> matches_in(query, before + line.push('\n')) == matches_in(
                query,
                before,
            ) + more
            &&& searches && line.len() > 0 ==> matches_in(query, before + line) == matches_in(
                query,
                before,
            ) + more
        }),
{
    let (pattern, case_matters) = vim_pattern(query);
    law_lines_of_text(before, line);
    let lines = text_lines(before);
    let n = lines.len() as int;
    let a = found_in(pattern, !case_matters, lines);
    let b = found_in(pattern, !case_matters, lines.push(line));
    lemma_flat_same(a, b, n);
    let here = regex_matches(pattern, !case_matters, line);
    assert(b[n] == here);
    assert(tagged(n, here) =~= Seq::new(here.len(), |i: int| (n as usize, here[i].0, here[i].1)));
}

proof fn lemma_flat_same(a: Seq<Seq<(usize, usize)>>, b: Seq<Seq<(usize, usize)>>, n: int)
    requires
        0 <= n <= a.len(),
        n <= b.len(),
        forall|i: int| 0 <= i < n ==> a[i] == b[i],
    ensures
        flat_matches(a, n) == flat_matches(b, n),
    decreases n,
{
    if n > 0 {
        lemma_flat_same(a, b, n - 1);
    }
}

// ---------------------------------------------------------------------------
// From match to match
// ---------------------------------------------------------------------------

/// A view with matches in the order of their lines, one of which is selected.
pub open spec fn has_matches(v: ViewView) -> bool {
    &&& 0 <= v.search.match_idx < v.search.matches.len()
    &&& forall|i: int, j: int|
        0 <= i <= j < v.search.matches.len() ==> (#[trigger] v.search.matches[i]).0 <= (
        #[trigger] v.search.matches[j]).0
}

/// Whether a step keeps the matches and the query, and shows the selected match.
pub open spec fn shows_selected(v: ViewView, w: ViewView) -> bool {
    &&& w.search.matches == v.search.matches
    &&& w.search.query == v.search.query
    &&& w.output_mode == v.output_mode
    &&& 0 <= w.search.match_idx < w.search.matches.len()
    &&& w.scroll == w.search.matches[w.search.match_idx].0
}

/// A new search goes to the first match that is not above the view, or to the
/// first of all if every match is above it.
pub proof fn law_search_goes_to_first_match_in_view(v: ViewView)
    requires
        has_matches(v),
    ensures
        ({
            let w = first_match_view(v);
            let i = w.search.match_idx;
            &&& shows_selected(v, w)
            &&& w.scroll >= v.scroll ==> forall|j: int|
                0 <= j < i ==> (#[trigger] v.search.matches[j]).0 < v.scroll
            &&& w.scroll < v.scroll ==> i == 0 && forall|j: int|
                0 <= j < v.search.matches.len() ==> (#[trigger] v.search.matches[j]).0 < v.scroll
        }),
{
    lemma_matches_before(v.search.matches, v.scroll, false);
}

/// The next match is the one behind the selected one, if that is at the top of
/// the view; else the first one below the top. Behind the last comes the first.
pub proof fn law_next_match(v: ViewView)
    requires
        has_matches(v),
    ensures
        ({
            let w = next_match_view(v);
            let i = w.search.match_idx;
            let n = v.search.matches.len();
            let at_top = v.search.matches[v.search.match_idx].0 == v.scroll;
            &&& shows_selected(v, w)
            &&& at_top ==> i == (v.search.match_idx + 1) % (n as int)
            &&& !at_top && w.scroll > v.scroll ==> forall|j: int|
                0 <= j < i ==> (#[trigger] v.search.matches[j]).0 <= v.scroll
            &&& !at_top && w.scroll <= v.scroll ==> i == 0 && forall|j: int|
                0 <= j < n ==> (#[trigger] v.search.matches[j]).0 <= v.scroll
        }),
{
    lemma_matches_before(v.search.matches, v.scroll, true);
    let n = v.search.matches.len() as int;
    let k = v.search.match_idx;
    if k + 1 < n {
        vstd::arithmetic::div_mod::lemma_small_mod((k + 1) as nat, n as nat);
    } else {
        vstd::arithmetic::div_mod::lemma_mod_self_0(n);
    }
}

/// The previous match is the one in front of the selected one, if that is at the
/// top of the view; else the last one above the top. In front of the first comes
/// the last.
pub proof fn law_previous_match(v: ViewView)
    requires
        has_matches(v),
    ensures
        ({
            let w = prev_match_view(v);
            let i = w.search.match_idx;
            let n = v.search.matches.len();
            let k = v.search.match_idx;
            let at_top = v.search.matches[k].0 == v.scroll;
            &&& shows_selected(v, w)
            &&& at_top && k > 0 ==> i == k - 1
            &&& at_top && k == 0 ==> i == n - 1
            &&& !at_top && w.scroll < v.scroll ==> forall|j: int|
                i < j < n ==> (#[trigger] v.search.matches[j]).0 >= v.scroll
            &&& !at_top && w.scroll >= v.scroll ==> i == n - 1 && forall|j: int|
                0 <= j < n ==> (#[trigger] v.search.matches[j]).0 >= v.scroll
        }),
{
    lemma_matches_before(v.search.matches, v.scroll, false);
}

// ---------------------------------------------------------------------------
// The history of searches
// ---------------------------------------------------------------------------

proof fn lemma_entries_without_absent(entries: Seq<Seq<char>>, query: Seq<char>)
    requires
        !entries.contains(query),
    ensures
        entries_without(entries, query) == entries,
    decreases entries.len(),
{
    if entries.len() > 0 {
        let front = entries.drop_last();
        assert(entries.contains(entries[entries.len() - 1]));
        assert forall|e: Seq<char>| front.contains(e) implies entries.contains(e) by {
            let i = front.index_of(e);
            assert(entries[i] == e);
        }
        lemma_entries_without_absent(front, query);
        assert(front.push(entries.last()) =~= entries);
    } else {
        assert(entries =~= Seq::<Seq<char>>::empty());
    }
}

proof fn lemma_entries_without_present(entries: Seq<Seq<char>>, i: int)
    requires
        entries.no_duplicates(),
        0 <= i < entries.len(),
    ensures
        entries_without(entries, entries[i]) == entries.remove(i),
    decreases entries.len(),
{
    let front = entries.drop_last();
    if i == entries.len() - 1 {
        if front.contains(entries[i]) {
            let j = front.index_of(entries[i]);
            assert(entries[j] == entries[i]);
        }
        lemma_entries_without_absent(front, entries[i]);
        assert(entries.remove(i) =~= front);
    } else {
        assert(entries.last() != entries[i]);
        assert(front[i] == entries[i]);
        lemma_entries_without_present(front, i);
        assert(entries.remove(i) =~= front.remove(i).push(entries.last()));
    }
}

/// A query that is committed comes to the front; all others stay in their order.
/// An empty one changes nothing. The next search starts with a blank draft.
pub proof fn law_newest_query_comes_first(v: SearchHistoryView, query: Seq<char>, i: int)
    requires
        v.entries.no_duplicates(),
    ensures
        query.len() == 0 ==> query_pushed(v, query) == v,
        query.len() > 0 && !v.entries.contains(query) ==> query_pushed(v, query).entries == seq![
            query,
        ] + v.entries,
        query.len() > 0 && 0 <= i < v.entries.len() && v.entries[i] == query ==> query_pushed(
            v,
            query,
        ).entries == seq![query] + v.entries.remove(i),
        query.len() > 0 ==> query_pushed(v, query).nav is None && query_pushed(
            v,
            query,
        ).draft.len() == 0 && query_pushed(v, query).edits == Map::<usize, Seq<char>>::empty(),
{
    if !v.entries.contains(query) {
        lemma_entries_without_absent(v.entries, query);
    }
    if 0 <= i < v.entries.len() && v.entries[i] == query {
        lemma_entries_without_present(v.entries, i);
    }
}

/// Going back through searches that nobody has edited shows the newest first and
/// then ever older ones, and stops at the oldest; going on again shows ever newer
/// ones, then the draft, and stops there.
pub proof fn law_history_is_walked_in_order(v: SearchHistoryView, text: Seq<char>)
    requires
        v.nav matches Some(i) ==> i < v.entries.len() <= usize::MAX,
    ensures
        ({
            let n = v.entries.len() as int;
            let up = nav_up(v, text);
            let down = nav_down(v, text);
            match v.nav {
                None => {
                    &&& down == (v, None::<Seq<char>>)
                    &&& n == 0 ==> up == (v, None::<Seq<char>>)
                    &&& n > 0 ==> up.0.nav == Some(0usize) && up.0.draft == text
                    &&& n > 0 && !v.edits.contains_key(0) ==> up.1 == Some(v.entries[0])
                },
                Some(i) => {
                    &&& i + 1 == n ==> up == (v, None::<Seq<char>>)
                    &&& i + 1 < n ==> up.0.nav == Some((i + 1) as usize) && up.0.draft == v.draft
                    &&& i + 1 < n && !v.edits.contains_key((i + 1) as usize) ==> up.1 == Some(
                        v.entries[i + 1],
                    )
                    &&& i == 0 ==> down.0.nav is None && down.1 == Some(v.draft)
                    &&& i > 0 ==> down.0.nav == Some((i - 1) as usize)
                    &&& i > 0 && !v.edits.contains_key((i - 1) as usize) ==> down.1 == Some(
                        v.entries[i - 1],
                    )
                    &&& nav_revert(v).0.nav == v.nav
                },
            }
        }),
        v.nav is None ==> nav_revert(v) == (v, None::<Seq<char>>),
{
}

} // verus!

//! What holds of pipelines and command lines as a whole.
use vstd::prelude::*;

use crate::pipeline::{
    command_line, inserted_after, inserted_before, is_plain, is_plain_word, is_separator,
    next_selected, overlapping, pieces, pieces_from, prev_selected, quoted, quoted_all,
    selected_removed, PipelineView,
};
use crate::text_tools::{join_texts, replace_char};

verus! {

// ---------------------------------------------------------------------------
// Quoting
// ---------------------------------------------------------------------------

/// What a shell makes of a word: single quotes keep everything between them, a
/// backslash outside of them keeps the next character, and all other
/// characters stand for themselves.
pub open spec fn unquoted(word: Seq<char>, in_quotes: bool) -> Seq<char>
    decreases word.len(),
{
    if word.len() == 0 {
        Seq::empty()
    } else if in_quotes {
        if word[0] == '\'' {
            unquoted(word.drop_first(), false)
        } else {
            seq![word[0]] + unquoted(word.drop_first(), true)
        }
    } else if word[0] == '\'' {
        unquoted(word.drop_first(), true)
    } else if word[0] == '\\' && word.len() >= 2 {
        seq![word[1]] + unquoted(word.skip(2), false)
    } else {
        seq![word[0]] + unquoted(word.drop_first(), false)
    }
}

/// Replacing goes from the front as well as from the back.
proof fn lemma_replace_first(s: Seq<char>, c: char, with: Seq<char>)
    requires
        s.len() > 0,
    ensures
        replace_char(s, c, with) == (if s[0] == c {
            with
        } else {
            seq![s[0]]
        }) + replace_char(s.drop_first(), c, with),
    decreases s.len(),
{
    if s.len() == 1 {
        assert(s.drop_last() =~= Seq::<char>::empty());
        assert(s.drop_first() =~= Seq::<char>::empty());
        reveal_with_fuel(replace_char, 2);
        assert(replace_char(s, c, with) =~= (if s[0] == c {
            with
        } else {
            seq![s[0]]
        }) + replace_char(s.drop_first(), c, with));
    } else {
        lemma_replace_first(s.drop_last(), c, with);
        assert(s.drop_last().drop_first() =~= s.drop_first().drop_last());
        assert(replace_char(s, c, with) =~= (if s[0] == c {
            with
        } else {
            seq![s[0]]
        }) + replace_char(s.drop_first(), c, with));
    }
}

proof fn lemma_unquote_replaced(arg: Seq<char>)
    ensures
        unquoted(
            replace_char(arg, '\'', seq!['\'', '\\', '\'', '\'']) + seq!['\''],
            true,
        ) == arg,
    decreases arg.len(),
{
    let with = seq!['\'', '\\', '\'', '\''];
    let end = seq!['\''];
    if arg.len() == 0 {
        let w = replace_char(arg, '\'', with) + end;
        assert(w =~= end);
        reveal_with_fuel(unquoted, 2);
        assert(unquoted(w, true) =~= arg);
    } else {
        let t = arg.drop_first();
        lemma_unquote_replaced(t);
        lemma_replace_first(arg, '\'', with);
        let rest = replace_char(t, '\'', with) + end;
        let w = replace_char(arg, '\'', with) + end;
        if arg[0] == '\'' {
            assert(w =~= with + rest);
            // out of the quotes, an escaped quote, and into quotes again
            let w1 = w.drop_first();
            assert(w1 =~= seq!['\\', '\'', '\''] + rest);
            let w2 = w1.skip(2);
            assert(w2 =~= seq!['\''] + rest);
            assert(w2.drop_first() =~= rest);
            assert(unquoted(w, true) == unquoted(w1, false));
            assert(unquoted(w1, false) == seq!['\''] + unquoted(w2, false));
            assert(unquoted(w2, false) == unquoted(rest, true));
        } else {
            assert(w =~= seq![arg[0]] + rest);
            assert(w.drop_first() =~= rest);
        }
        assert(seq![arg[0]] + t =~= arg);
    }
}

proof fn lemma_unquote_plain(arg: Seq<char>)
    requires
        forall|i: int| 0 <= i < arg.len() ==> is_plain(#[trigger] arg[i]),
    ensures
        unquoted(arg, false) == arg,
    decreases arg.len(),
{
    if arg.len() > 0 {
        let t = arg.drop_first();
        assert(is_plain(arg[0]));
        assert forall|i: int| 0 <= i < t.len() implies is_plain(#[trigger] t[i]) by {
            assert(t[i] == arg[i + 1]);
        }
        lemma_unquote_plain(t);
        assert(seq![arg[0]] + t =~= arg);
    }
}

/// A shell that reads a quoted argument gets the argument back, whatever
/// characters it has.
pub proof fn law_quoting_is_undone_by_shell(arg: Seq<char>)
    ensures
        unquoted(quoted(arg), false) == arg,
{
    if is_plain_word(arg) {
        lemma_unquote_plain(arg);
    } else {
        let body = replace_char(arg, '\'', seq!['\'', '\\', '\'', '\'']) + seq!['\''];
        assert(quoted(arg) =~= seq!['\''] + body);
        assert(quoted(arg).drop_first() =~= body);
        lemma_unquote_replaced(arg);
    }
}

/// The word that is being read, with one more character.
pub open spec fn grown_word(word: Option<Seq<char>>, c: char) -> Option<Seq<char>> {
    match word {
        Some(w) => Some(w.push(c)),
        None => Some(seq![c]),
    }
}

/// The words that a shell reads from a command line: spaces outside of quotes
/// stand between words. `word` is what has been read of the current word.
pub open spec fn shell_words(
    line: Seq<char>,
    word: Option<Seq<char>>,
    in_quotes: bool,
) -> Seq<Seq<char>>
    decreases line.len(),
{
    if line.len() == 0 {
        match word {
            Some(w) => seq![w],
            None => Seq::empty(),
        }
    } else {
        let rest = line.drop_first();
        if in_quotes {
            if line[0] == '\'' {
                shell_words(rest, word, false)
            } else {
                shell_words(rest, grown_word(word, line[0]), true)
            }
        } else if line[0] == ' ' {
            match word {
                Some(w) => seq![w] + shell_words(rest, None, false),
                None => shell_words(rest, None, false),
            }
        } else if line[0] == '\'' {
            shell_words(
                rest,
                match word {
                    Some(w) => Some(w),
                    None => Some(Seq::empty()),
                },
                true,
            )
        } else if line[0] == '\\' && line.len() >= 2 {
            shell_words(line.skip(2), grown_word(word, line[1]), false)
        } else {
            shell_words(rest, grown_word(word, line[0]), false)
        }
    }
}

proof fn lemma_words_replaced(arg: Seq<char>, word: Seq<char>, tail: Seq<char>)
    ensures
        shell_words(
            replace_char(arg, '\'', seq!['\'', '\\', '\'', '\'']) + seq!['\''] + tail,
            Some(word),
            true,
        ) == shell_words(tail, Some(word + arg), false),
    decreases arg.len(),
{
    let with = seq!['\'', '\\', '\'', '\''];
    let line = replace_char(arg, '\'', with) + seq!['\''] + tail;
    if arg.len() == 0 {
        assert(line.drop_first() =~= tail);
        assert(line[0] == '\'');
        assert(word + arg =~= word);
    } else {
        let t = arg.drop_first();
        lemma_words_replaced(t, word.push(arg[0]), tail);
        lemma_replace_first(arg, '\'', with);
        let rest = replace_char(t, '\'', with) + seq!['\''] + tail;
        assert(word.push(arg[0]) + t =~= word + arg);
        if arg[0] == '\'' {
            assert(line =~= with + rest);
            let l1 = line.drop_first();
            assert(l1 =~= seq!['\\', '\'', '\''] + rest);
            let l2 = l1.skip(2);
            assert(l2 =~= seq!['\''] + rest);
            assert(l2.drop_first() =~= rest);
            assert(shell_words(line, Some(word), true) == shell_words(l1, Some(word), false));
            assert(shell_words(l1, Some(word), false) == shell_words(
                l2,
                Some(word.push('\'')),
                false,
            ));
            assert(shell_words(l2, Some(word.push('\'')), false) == shell_words(
                rest,
                Some(word.push('\'')),
                true,
            ));
        } else {
            assert(line =~= seq![arg[0]] + rest);
            assert(line.drop_first() =~= rest);
        }
    }
}

proof fn lemma_words_plain(arg: Seq<char>, word: Seq<char>, tail: Seq<char>)
    requires
        forall|i: int| 0 <= i < arg.len() ==> is_plain(#[trigger] arg[i]),
    ensures
        shell_words(arg + tail, Some(word), false) == shell_words(tail, Some(word + arg), false),
    decreases arg.len(),
{
    if arg.len() == 0 {
        assert(arg + tail =~= tail);
        assert(word + arg =~= word);
    } else {
        let t = arg.drop_first();
        assert(is_plain(arg[0]));
        assert forall|i: int| 0 <= i < t.len() implies is_plain(#[trigger] t[i]) by {
            assert(t[i] == arg[i + 1]);
        }
        lemma_words_plain(t, word.push(arg[0]), tail);
        assert((arg + tail).drop_first() =~= t + tail);
        assert((arg + tail)[0] == arg[0]);
        assert(word.push(arg[0]) + t =~= word + arg);
    }
}

proof fn lemma_words_quoted(arg: Seq<char>, tail: Seq<char>)
    ensures
        shell_words(quoted(arg) + tail, None, false) == shell_words(tail, Some(arg), false),
{
    let line = quoted(arg) + tail;
    if is_plain_word(arg) {
        let t = arg.drop_first();
        assert(is_plain(arg[0]));
        assert forall|i: int| 0 <= i < t.len() implies is_plain(#[trigger] t[i]) by {
            assert(t[i] == arg[i + 1]);
        }
        lemma_words_plain(t, seq![arg[0]], tail);
        assert(line.drop_first() =~= t + tail);
        assert(line[0] == arg[0]);
        assert(seq![arg[0]] + t =~= arg);
    } else {
        lemma_words_replaced(arg, Seq::empty(), tail);
        assert(line[0] == '\'');
        assert(line.drop_first() =~= replace_char(arg, '\'', seq!['\'', '\\', '\'', '\''])
            + seq!['\''] + tail);
        assert(Seq::<char>::empty() + arg =~= arg);
    }
}

/// A shell that reads a command line gets the arguments back, as many as there
/// are and whatever characters they have.
pub proof fn law_command_line_is_split_by_shell(args: Seq<Seq<char>>)
    ensures
        shell_words(command_line(args), None, false) == args,
    decreases args.len(),
{
    let line = command_line(args);
    if args.len() == 0 {
        assert(shell_words(line, None, false) =~= args);
    } else {
        let first = args[0];
        let rest = args.drop_first();
        if rest.len() == 0 {
            assert(line + Seq::<char>::empty() =~= line);
            assert(line == quoted(first));
            lemma_words_quoted(first, Seq::empty());
            assert(shell_words(line, None, false) =~= args);
        } else {
            law_command_line_is_split_by_shell(rest);
            lemma_join_first(quoted(first), quoted_all(rest), seq![' ']);
            assert(quoted_all(args) =~= seq![quoted(first)] + quoted_all(rest));
            let tail = seq![' '] + command_line(rest);
            assert(line =~= quoted(first) + tail);
            lemma_words_quoted(first, tail);
            assert(tail.drop_first() =~= command_line(rest));
            assert(seq![first] + rest =~= args);
        }
    }
}

/// The command line of one argument is that argument, quoted.
pub proof fn law_command_line_of_one(arg: Seq<char>)
    ensures
        command_line(seq![arg]) == quoted(arg),
{
    assert(quoted_all(seq![arg]) =~= seq![quoted(arg)]);
}

// ---------------------------------------------------------------------------
// Splitting
// ---------------------------------------------------------------------------

pub proof fn lemma_join_first(first: Seq<char>, rest: Seq<Seq<char>>, sep: Seq<char>)
    requires
        rest.len() > 0,
    ensures
        join_texts(seq![first] + rest, sep) == first + sep + join_texts(rest, sep),
    decreases rest.len(),
{
    let all = seq![first] + rest;
    if rest.len() == 1 {
        assert(all.drop_last() =~= seq![first]);
        assert(join_texts(seq![first], sep) == first);
        assert(join_texts(all, sep) =~= first + sep + join_texts(rest, sep));
    } else {
        assert(all.drop_last() =~= seq![first] + rest.drop_last());
        lemma_join_first(first, rest.drop_last(), sep);
        assert(join_texts(all, sep) =~= first + sep + join_texts(rest, sep));
    }
}

proof fn lemma_pieces_from_join(s: Seq<char>, start: int, k: int)
    requires
        !overlapping(s),
        0 <= start <= s.len(),
        0 <= k <= s.len(),
        start <= k + 1,
        start > k ==> is_separator(s, k - 1),
        start == k && start > 0 ==> is_separator(s, k - 2),
    ensures
        pieces_from(s, start, k).len() > 0,
        join_texts(pieces_from(s, start, k), seq![' ', '|', ' ']) == s.subrange(
            start,
            s.len() as int,
        ),
    decreases s.len() - k,
{
    let sep = seq![' ', '|', ' '];
    if k >= s.len() {
        assert(join_texts(pieces_from(s, start, k), sep) == s.subrange(start, s.len() as int));
    } else if is_separator(s, k) {
        if start > k {
            assert(s[k] == ' ');
        }
        if start == k && start > 0 {
            assert(is_separator(s, k - 2) && is_separator(s, (k - 2) + 2));
        }
        lemma_pieces_from_join(s, k + 2, k + 1);
        lemma_join_first(s.subrange(start, k - 1), pieces_from(s, k + 2, k + 1), sep);
        assert(s.subrange(start, k - 1) + sep + s.subrange(k + 2, s.len() as int) =~= s.subrange(
            start,
            s.len() as int,
        ));
    } else {
        lemma_pieces_from_join(s, start, k + 1);
    }
}

/// Splitting a command line loses nothing: its pieces with ` | ` between them
/// are the line.
pub proof fn law_pieces_make_up_line(s: Seq<char>)
    requires
        !overlapping(s),
    ensures
        join_texts(pieces(s), seq![' ', '|', ' ']) == s,
{
    lemma_pieces_from_join(s, 0, 0);
    assert(s.subrange(0, s.len() as int) =~= s);
}

/// A line without `|` is one piece.
pub proof fn law_line_without_pipe_is_one_piece(s: Seq<char>)
    requires
        !s.contains('|'),
    ensures
        pieces(s) == seq![s],
{
    lemma_no_pipe(s, 0);
    assert(s.subrange(0, s.len() as int) =~= s);
}

proof fn lemma_no_pipe(s: Seq<char>, k: int)
    requires
        !s.contains('|'),
        0 <= k <= s.len(),
    ensures
        pieces_from(s, 0, k) == seq![s.subrange(0, s.len() as int)],
    decreases s.len() - k,
{
    if k < s.len() {
        assert(s.contains(s[k]));
        lemma_no_pipe(s, k + 1);
    }
}

// ---------------------------------------------------------------------------
// Editing
// ---------------------------------------------------------------------------

/// Removing a stage that was just inserted, behind or before the selected one,
/// leaves the stages that were there.
pub proof fn law_remove_undoes_insert(p: PipelineView)
    requires
        p.wf(),
    ensures
        selected_removed(inserted_after(p)).stages == p.stages,
        selected_removed(inserted_before(p)).stages == p.stages,
{
    let a = inserted_after(p);
    assert(a.stages.remove(a.selected) =~= p.stages);
    let b = inserted_before(p);
    assert(b.stages.remove(b.selected) =~= p.stages);
}

/// Whatever is done to a pipeline, one of its stages stays selected, unless
/// there is none.
pub proof fn law_selection_stays_valid(p: PipelineView)
    requires
        p.wf(),
    ensures
        next_selected(p).wf(),
        prev_selected(p).wf(),
        inserted_after(p).wf(),
        inserted_before(p).wf(),
        selected_removed(p).wf(),
{
}

/// Going on to the next stage and back selects the same stage again, unless the
/// last one was selected.
pub proof fn law_prev_undoes_next(p: PipelineView)
    requires
        p.wf(),
        p.selected + 1 < p.stages.len(),
    ensures
        prev_selected(next_selected(p)) == p,
{
}

} // verus!

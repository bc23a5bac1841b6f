//! Where a command line is split into stages, and what the stages are.
use vstd::prelude::*;

use crate::options::OverridesView;
use crate::pipeline::{
    command_line, is_plain, is_separator, overlapping, piece_stages, pieces, pieces_from,
    quote_state, quoted, quoted_all, read_args, splittable, stages_from, ReadState, StageView,
};
use crate::pipeline_laws::lemma_join_first;
use crate::text::is_white_space;
use crate::text_tools::{
    begins_with, join_texts, replace_char, trim_end, trim_start, trimmed,
};

verus! {

// ---------------------------------------------------------------------------
// Quotes
// ---------------------------------------------------------------------------

/// A part of a command line: text outside quotes, or a quoted text.
pub enum Part {
    Plain(Seq<char>),
    Quoted { quote: char, text: Seq<char> },
}

/// A part as it stands in the line.
pub open spec fn written(p: Part) -> Seq<char> {
    match p {
        Part::Plain(text) => text,
        Part::Quoted { quote, text } => seq![quote] + text + seq![quote],
    }
}

/// Whether character number `i` stands right behind a backslash.
pub open spec fn behind_backslash(t: Seq<char>, i: int) -> bool {
    i > 0 && t[i - 1] == '\\'
}

/// Text outside quotes has quotes only behind backslashes, and no pipe. Quoted
/// text has its own kind of quote only behind backslashes, and may have the
/// other kind, pipes and everything else anywhere. Neither ends in a backslash.
pub open spec fn is_part(p: Part) -> bool {
    match p {
        Part::Plain(t) => {
            &&& forall|i: int|
                0 <= i < t.len() ==> (#[trigger] t[i] == '\'' || t[i] == '"' ==> behind_backslash(
                    t,
                    i,
                )) && t[i] != '|'
            &&& t.len() > 0 ==> t.last() != '\\'
        },
        Part::Quoted { quote, text } => {
            &&& quote == '\'' || quote == '"'
            &&& forall|i: int|
                0 <= i < text.len() && #[trigger] text[i] == quote ==> behind_backslash(text, i)
            &&& text.len() > 0 ==> text.last() != '\\'
        },
    }
}

/// Parts written one behind the other.
pub open spec fn all_written(parts: Seq<Part>) -> Seq<char>
    decreases parts.len(),
{
    if parts.len() == 0 {
        Seq::empty()
    } else {
        all_written(parts.drop_last()) + written(parts.last())
    }
}

proof fn lemma_plain_state(s: Seq<char>, o: int, t: Seq<char>, k: int)
    requires
        0 <= o,
        o + t.len() <= s.len(),
        s.subrange(o, o + t.len()) == t,
        is_part(Part::Plain(t)),
        !quote_state(s, o).single && !quote_state(s, o).double && !quote_state(s, o).escaped,
        0 <= k <= t.len(),
    ensures
        !quote_state(s, o + k).single,
        !quote_state(s, o + k).double,
        quote_state(s, o + k).escaped == behind_backslash(t, k),
    decreases k,
{
    if k > 0 {
        lemma_plain_state(s, o, t, k - 1);
        assert(s[o + k - 1] == t[k - 1]) by {
            assert(s.subrange(o, o + t.len())[k - 1] == s[o + k - 1]);
        }
    }
}

proof fn lemma_quoted_state(s: Seq<char>, o: int, q: char, t: Seq<char>, k: int)
    requires
        0 <= o,
        o + t.len() + 2 <= s.len(),
        s.subrange(o, o + t.len() + 2) == seq![q] + t + seq![q],
        is_part(Part::Quoted { quote: q, text: t }),
        !quote_state(s, o).single && !quote_state(s, o).double && !quote_state(s, o).escaped,
        0 <= k <= t.len(),
    ensures
        quote_state(s, o + 1 + k).single == (q == '\''),
        quote_state(s, o + 1 + k).double == (q == '"'),
        quote_state(s, o + 1 + k).escaped == behind_backslash(t, k),
    decreases k,
{
    let w = s.subrange(o, o + t.len() + 2);
    if k == 0 {
        assert(w[0] == s[o]);
    } else {
        lemma_quoted_state(s, o, q, t, k - 1);
        assert(w[k] == s[o + k]);
        assert(w[k] == t[k - 1]);
    }
}

/// Behind a part that starts outside quotes, the line is outside quotes, and no
/// stage ends in the part.
proof fn lemma_part_state(s: Seq<char>, o: int, p: Part)
    requires
        0 <= o,
        o + written(p).len() <= s.len(),
        s.subrange(o, o + written(p).len()) == written(p),
        is_part(p),
        !quote_state(s, o).single && !quote_state(s, o).double && !quote_state(s, o).escaped,
    ensures
        ({
            let q = quote_state(s, (o + written(p).len()) as int);
            !q.single && !q.double && !q.escaped
        }),
        forall|k: int| o <= k < o + written(p).len() ==> !#[trigger] is_separator(s, k),
{
    let n = written(p).len() as int;
    let w = s.subrange(o, o + n);
    match p {
        Part::Plain(t) => {
            lemma_plain_state(s, o, t, n);
            assert forall|k: int| o <= k < o + n implies !#[trigger] is_separator(s, k) by {
                assert(w[k - o] == s[k]);
                assert(t[k - o] != '|');
            }
        },
        Part::Quoted { quote, text } => {
            lemma_quoted_state(s, o, quote, text, text.len() as int);
            assert(w[n - 1] == s[o + n - 1]);
            assert(w[n - 1] == quote);
            assert forall|k: int| o <= k < o + n implies !#[trigger] is_separator(s, k) by {
                assert(w[k - o] == s[k]);
                if k == o {
                    assert(w[0] == quote);
                } else {
                    lemma_quoted_state(s, o, quote, text, k - o - 1);
                }
            }
        },
    }
}

proof fn lemma_parts_state(s: Seq<char>, parts: Seq<Part>)
    requires
        all_written(parts).len() <= s.len(),
        s.take(all_written(parts).len() as int) == all_written(parts),
        forall|i: int| 0 <= i < parts.len() ==> is_part(#[trigger] parts[i]),
    ensures
        ({
            let q = quote_state(s, all_written(parts).len() as int);
            !q.single && !q.double && !q.escaped
        }),
        forall|k: int| 0 <= k < all_written(parts).len() ==> !#[trigger] is_separator(s, k),
    decreases parts.len(),
{
    if parts.len() > 0 {
        let front = parts.drop_last();
        let x = all_written(front);
        let w = written(parts.last());
        assert(all_written(parts) == x + w);
        assert forall|i: int| 0 <= i < front.len() implies is_part(#[trigger] front[i]) by {
            assert(front[i] == parts[i]);
        }
        assert(s.take(x.len() as int) =~= x) by {
            assert forall|i: int| 0 <= i < x.len() implies s[i] == x[i] by {
                assert(s.take((x + w).len() as int)[i] == (x + w)[i]);
            }
        }
        lemma_parts_state(s, front);
        assert(s.subrange(x.len() as int, (x.len() + w.len()) as int) =~= w) by {
            assert forall|i: int| 0 <= i < w.len() implies s[x.len() + i] == w[i] by {
                assert(s.take((x + w).len() as int)[x.len() + i] == (x + w)[x.len() + i]);
            }
        }
        lemma_part_state(s, x.len() as int, parts.last());
    }
}

/// Where no stage ends, nothing is split.
proof fn lemma_skip_unsplit(s: Seq<char>, start: int, from: int, to: int)
    requires
        0 <= from <= to <= s.len(),
        forall|k: int| from <= k < to ==> !#[trigger] is_separator(s, k),
    ensures
        pieces_from(s, start, from) == pieces_from(s, start, to),
    decreases to - from,
{
    if from < to {
        lemma_skip_unsplit(s, start, from + 1, to);
    }
}

/// What follows text that ends outside quotes is split as if it stood alone.
proof fn lemma_quote_state_shift(pre: Seq<char>, c: Seq<char>, k: int)
    requires
        0 <= k <= c.len(),
        quote_state(pre + c, pre.len() as int) == quote_state(c, 0),
    ensures
        quote_state(pre + c, pre.len() + k) == quote_state(c, k),
    decreases k,
{
    if k > 0 {
        lemma_quote_state_shift(pre, c, k - 1);
        assert((pre + c)[pre.len() + k - 1] == c[k - 1]);
    }
}

proof fn lemma_pieces_shift(pre: Seq<char>, c: Seq<char>, start: int, k: int)
    requires
        pre.len() > 0,
        0 <= start <= c.len(),
        0 <= k <= c.len(),
        start <= k + 1,
        start > k ==> is_separator(c, k - 1),
        start == k && start > 0 ==> is_separator(c, k - 2),
        !overlapping(c),
        quote_state(pre + c, pre.len() as int) == quote_state(c, 0),
        !(c.len() >= 2 && c[0] == '|' && c[1] == ' '),
    ensures
        pieces_from(pre + c, pre.len() + start, pre.len() + k) == pieces_from(c, start, k),
    decreases c.len() - k,
{
    let s = pre + c;
    let o = pre.len() as int;
    if k >= c.len() {
        assert(s.subrange(o + start, s.len() as int) =~= c.subrange(start, c.len() as int));
    } else {
        lemma_quote_state_shift(pre, c, k);
        assert(s[o + k] == c[k]);
        if k > 0 {
            assert(s[o + k - 1] == c[k - 1]);
        }
        if k + 1 < c.len() {
            assert(s[o + k + 1] == c[k + 1]);
        }
        assert(is_separator(s, o + k) == is_separator(c, k));
        if is_separator(c, k) {
            if start > k {
                assert(c[k] == ' ');
            }
            if start == k && start > 0 {
                assert(is_separator(c, k - 2) && is_separator(c, (k - 2) + 2));
            }
            lemma_pieces_shift(pre, c, k + 2, k + 1);
            assert(s.subrange(o + start, o + k - 1) =~= c.subrange(start, k - 1));
        } else {
            lemma_pieces_shift(pre, c, start, k + 1);
        }
    }
}

/// A pipe with a space on each side ends a stage, and nothing in front of it
/// does, where that has no other such pipe outside quotes. Quotes of one kind
/// are ordinary characters inside quotes of the other kind, a quote behind a
/// backslash opens and closes nothing, and a pipe inside quotes ends nothing.
/// What follows is split as if it stood alone.
pub proof fn law_stages_end_at_unquoted_pipes(parts: Seq<Part>, rest: Seq<char>)
    requires
        !overlapping(rest),
        forall|i: int| 0 <= i < parts.len() ==> is_part(#[trigger] parts[i]),
        !(rest.len() >= 2 && rest[0] == '|' && rest[1] == ' '),
    ensures
        pieces(all_written(parts)) == seq![all_written(parts)],
        pieces(all_written(parts) + seq![' ', '|', ' '] + rest) == seq![all_written(parts)]
            + pieces(rest),
{
    let x = all_written(parts);
    let n = x.len() as int;
    assert(x.take(n) =~= x);
    lemma_parts_state(x, parts);
    lemma_skip_unsplit(x, 0, 0, n);
    assert(x.subrange(0, n) =~= x);
    let pre = x + seq![' ', '|', ' '];
    let s = pre + rest;
    assert(s.take(n) =~= x);
    lemma_parts_state(s, parts);
    assert(s[n] == ' ' && s[n + 1] == '|' && s[n + 2] == ' ');
    reveal_with_fuel(quote_state, 4);
    assert(is_separator(s, n + 1));
    assert(!is_separator(s, n));
    lemma_skip_unsplit(s, 0, 0, n + 1);
    assert(s.subrange(0, n) =~= x);
    assert(!is_separator(s, n + 2));
    assert(quote_state(s, n + 3) == quote_state(rest, 0));
    lemma_pieces_shift(pre, rest, 0, 0);
    assert(pieces_from(s, n + 3, n + 2) == pieces_from(s, n + 3, n + 3));
}

/// The example of the other kind of quotes spelled out: what stands between two
/// quotes of one kind, and has none of that kind and no backslash in it, stays
/// in one stage with all that is in it.
pub proof fn law_quotes_hide_other_quotes(
    a: Seq<char>,
    quote: char,
    b: Seq<char>,
    c: Seq<char>,
)
    requires
        quote == '\'' || quote == '"',
        !a.contains('\'') && !a.contains('"') && !a.contains('\\') && !a.contains('|'),
        !b.contains(quote) && !b.contains('\\'),
        !c.contains('|'),
    ensures
        pieces(a + seq![quote] + b + seq![quote] + seq![' ', '|', ' '] + c) == seq![
            a + seq![quote] + b + seq![quote],
            c,
        ],
{
    let parts = seq![Part::Plain(a), Part::Quoted { quote, text: b }];
    assert(parts.drop_last() =~= seq![Part::Plain(a)]);
    assert(seq![Part::Plain(a)].drop_last() =~= Seq::<Part>::empty());
    reveal_with_fuel(all_written, 3);
    let x = a + seq![quote] + b + seq![quote];
    assert(all_written(parts) =~= x);
    assert forall|i: int| 0 <= i < a.len() implies #[trigger] a[i] != '\'' && a[i] != '"' && a[i]
        != '\\' && a[i] != '|' by {
        assert(a.contains(a[i]));
    }
    assert forall|i: int| 0 <= i < b.len() implies #[trigger] b[i] != quote && b[i] != '\\' by {
        assert(b.contains(b[i]));
    }
    if c.len() > 0 {
        assert(c.contains(c[0]));
    }
    assert forall|k: int| !#[trigger] is_separator(c, k) by {
        if is_separator(c, k) {
            assert(c.contains(c[k]));
        }
    }
    assert(is_part(parts[0]) && is_part(parts[1]));
    law_stages_end_at_unquoted_pipes(parts, c);
    crate::pipeline_laws::law_line_without_pipe_is_one_piece(c);
    assert(seq![x] + seq![c] =~= seq![x, c]);
}

/// A pipe without a space on each side ends no stage, such as those of `a|b`,
/// `a || b` and `a |b`.
pub proof fn law_pipes_need_spaces(s: Seq<char>)
    requires
        forall|k: int|
            0 < k < s.len() - 1 && #[trigger] s[k] == '|' ==> s[k - 1] != ' ' || s[k + 1] != ' ',
    ensures
        pieces(s) == seq![s],
{
    assert forall|k: int| 0 <= k < s.len() implies !#[trigger] is_separator(s, k) by {}
    lemma_skip_unsplit(s, 0, 0, s.len() as int);
    assert(s.subrange(0, s.len() as int) =~= s);
}

// ---------------------------------------------------------------------------
// White space
// ---------------------------------------------------------------------------

/// Whether a text is white space only.
pub open spec fn all_white(s: Seq<char>) -> bool {
    forall|i: int| 0 <= i < s.len() ==> is_white_space(#[trigger] s[i])
}

proof fn lemma_trim_start(s: Seq<char>) -> (n: int)
    ensures
        0 <= n <= s.len(),
        trim_start(s) == s.skip(n),
        all_white(s.take(n)),
        n < s.len() ==> !is_white_space(s[n]),
    decreases s.len(),
{
    if s.len() > 0 && is_white_space(s[0]) {
        let t = s.drop_first();
        let m = lemma_trim_start(t);
        assert(t.skip(m) =~= s.skip(m + 1));
        assert forall|i: int| 0 <= i < m + 1 implies is_white_space(
            #[trigger] s.take(m + 1)[i],
        ) by {
            if i > 0 {
                assert(t.take(m)[i - 1] == s[i]);
            }
        }
        m + 1
    } else {
        assert(s.skip(0) =~= s);
        0
    }
}

proof fn lemma_trim_end(s: Seq<char>) -> (n: int)
    ensures
        0 <= n <= s.len(),
        trim_end(s) == s.take(n),
        all_white(s.skip(n)),
        n > 0 ==> !is_white_space(s[n - 1]),
    decreases s.len(),
{
    if s.len() > 0 && is_white_space(s.last()) {
        let t = s.drop_last();
        let m = lemma_trim_end(t);
        assert(t.take(m) =~= s.take(m));
        assert forall|i: int| 0 <= i < s.len() - m implies is_white_space(
            #[trigger] s.skip(m)[i],
        ) by {
            if i < t.len() - m {
                assert(t.skip(m)[i] == s[m + i]);
            }
        }
        m
    } else {
        assert(s.take(s.len() as int) =~= s);
        s.len() as int
    }
}

/// Trimming takes away the white space on both sides and nothing else: what is
/// left starts and ends with something else, if anything is left. Spaces, tabs
/// and newlines are white space; letters, digits and punctuation are not.
pub proof fn law_trimming_removes_white_space(s: Seq<char>) -> (r: (Seq<char>, Seq<char>))
    ensures
        s == r.0 + trimmed(s) + r.1,
        all_white(r.0),
        all_white(r.1),
        trimmed(s).len() > 0 ==> !is_white_space(trimmed(s)[0]) && !is_white_space(
            trimmed(s).last(),
        ),
        is_white_space(' ') && is_white_space('\t') && is_white_space('\n') && is_white_space('\r'),
        forall|c: char| '!' <= c <= '~' ==> !#[trigger] is_white_space(c),
{
    let n = lemma_trim_start(s);
    let t = s.skip(n);
    let m = lemma_trim_end(t);
    assert(s =~= s.take(n) + trimmed(s) + t.skip(m));
    (s.take(n), t.skip(m))
}

/// Text that starts and ends with something else than white space is what is
/// left when white space around it is trimmed away.
pub proof fn law_trimming_keeps_text(a: Seq<char>, s: Seq<char>, b: Seq<char>)
    requires
        all_white(a),
        all_white(b),
        s.len() > 0 ==> !is_white_space(s[0]) && !is_white_space(s.last()),
    ensures
        trimmed(a + s + b) == s,
{
    let x = a + s + b;
    let r = law_trimming_removes_white_space(x);
    let t = trimmed(x);
    let p = r.0.len() as int;
    if s.len() == 0 {
        if t.len() > 0 {
            assert(x[p] == t[0]);
            if p < a.len() {
                assert(x[p] == a[p]);
            } else {
                assert(x[p] == b[p - a.len()]);
            }
        }
        assert(t =~= s);
    } else {
        let o = a.len() as int;
        assert(x[o] == s[0]);
        assert(x[o + s.len() - 1] == s.last());
        if t.len() == 0 {
            if o < p {
                assert(r.0[o] == x[o]);
            } else {
                assert(r.1[o - p] == x[o]);
            }
        }
        assert(x[p] == t[0]);
        assert(x[p + t.len() - 1] == t.last());
        if p < o {
            assert(a[p] == x[p]);
        }
        if o < p {
            assert(r.0[o] == x[o]);
        }
        let e = o + s.len();
        let f = p + t.len();
        if f > e {
            assert(b[f - 1 - e] == x[f - 1]);
        }
        if e > f {
            assert(r.1[e - 1 - f] == x[e - 1]);
        }
        assert forall|i: int| 0 <= i < s.len() implies t[i] == s[i] by {
            assert(x[o + i] == s[i]);
            assert(x[p + i] == t[i]);
        }
        assert(t =~= s);
    }
}

// ---------------------------------------------------------------------------
// Stages
// ---------------------------------------------------------------------------

/// A stage of which nothing but its command is known.
pub open spec fn stage_of(command: Seq<char>) -> StageView {
    StageView {
        command,
        last_update: None,
        overrides: OverridesView { interactive: None, shell: None },
    }
}

/// The stage of one piece of a command line: none if it is blank.
pub open spec fn stage_if_any(piece: Seq<char>) -> Seq<StageView> {
    if trimmed(piece).len() == 0 {
        Seq::empty()
    } else {
        seq![stage_of(trimmed(piece))]
    }
}

proof fn lemma_piece_stages_first(first: Seq<char>, rest: Seq<Seq<char>>, n: int)
    requires
        0 <= n <= rest.len(),
    ensures
        piece_stages(seq![first] + rest, n + 1) == stage_if_any(first) + piece_stages(rest, n),
    decreases n,
{
    let all = seq![first] + rest;
    if n == 0 {
        reveal_with_fuel(piece_stages, 2);
        assert(piece_stages(all, 1) =~= stage_if_any(first) + piece_stages(rest, 0));
    } else {
        lemma_piece_stages_first(first, rest, n - 1);
        assert(all[n] == rest[n - 1]);
        assert(piece_stages(all, n + 1) =~= stage_if_any(first) + piece_stages(rest, n));
    }
}

proof fn lemma_parsed_line(line: Seq<char>)
    requires
        trimmed(line) != seq!['|'],
    ensures
        stages_from(seq![line], true) == piece_stages(pieces(line), pieces(line).len() as int),
{
    reveal_with_fuel(read_args, 2);
    assert(stages_from(seq![line], true) =~= piece_stages(
        pieces(line),
        pieces(line).len() as int,
    ));
}

/// A command line gives a stage for what stands in front of its first unquoted
/// pipe, trimmed, unless that is blank, followed by the stages of the rest.
pub proof fn law_line_gives_trimmed_stages(parts: Seq<Part>, rest: Seq<char>)
    requires
        !overlapping(rest),
        forall|i: int| 0 <= i < parts.len() ==> is_part(#[trigger] parts[i]),
        !(rest.len() >= 2 && rest[0] == '|' && rest[1] == ' '),
        trimmed(rest) != seq!['|'],
        trimmed(all_written(parts)) != seq!['|'],
        trimmed(all_written(parts) + seq![' ', '|', ' '] + rest) != seq!['|'],
    ensures
        stages_from(seq![all_written(parts)], true) == stage_if_any(all_written(parts)),
        stages_from(seq![all_written(parts) + seq![' ', '|', ' '] + rest], true) == stage_if_any(
            all_written(parts),
        ) + stages_from(seq![rest], true),
{
    let x = all_written(parts);
    law_stages_end_at_unquoted_pipes(parts, rest);
    lemma_parsed_line(x);
    lemma_parsed_line(x + seq![' ', '|', ' '] + rest);
    lemma_parsed_line(rest);
    lemma_piece_stages_first(x, pieces(rest), pieces(rest).len() as int);
    let none = Seq::<Seq<char>>::empty();
    lemma_piece_stages_first(x, none, 0);
    assert(seq![x] + none =~= seq![x]);
    assert(piece_stages(none, 0) =~= Seq::<StageView>::empty());
    assert(stage_if_any(x) + piece_stages(none, 0) =~= stage_if_any(x));
}

/// Arguments none of which is a pipe make one stage, whose command hands them to
/// a process as they are; without arguments there is no stage.
pub proof fn law_arguments_make_one_stage(args: Seq<Seq<char>>)
    requires
        forall|i: int| 0 <= i < args.len() ==> trimmed(#[trigger] args[i]) != seq!['|'],
    ensures
        args.len() == 0 ==> stages_from(args, false) == Seq::<StageView>::empty(),
        args.len() > 0 ==> stages_from(args, false).len() == 1,
        args.len() > 0 ==> stages_from(args, false)[0] == stage_of(command_line(args)),
        args.len() > 0 ==> crate::pipeline_laws::shell_words(
            stages_from(args, false)[0].command,
            None,
            false,
        ) == args,
{
    assert(args.take(args.len() as int) =~= args);
    lemma_read_plain(args, args, args.len() as int);
    crate::pipeline_laws::law_command_line_is_split_by_shell(args);
}

proof fn lemma_read_plain(args: Seq<Seq<char>>, all: Seq<Seq<char>>, n: int)
    requires
        0 <= n <= args.len() <= all.len(),
        all.take(args.len() as int) == args,
        forall|i: int| 0 <= i < args.len() ==> trimmed(#[trigger] args[i]) != seq!['|'],
    ensures
        read_args(all, false, n) == (ReadState { stages: Seq::empty(), args: args.take(n) }),
    decreases n,
{
    if n == 0 {
        assert(args.take(0) =~= Seq::<Seq<char>>::empty());
    } else {
        lemma_read_plain(args, all, n - 1);
        assert(all.take(args.len() as int)[n - 1] == all[n - 1]);
        assert(args.take(n) =~= args.take(n - 1).push(args[n - 1]));
    }
}

/// An argument that is a pipe, alone or with white space around it, ends a
/// stage, and the arguments behind it make up the rest of the pipeline.
pub proof fn law_pipe_argument_ends_stage(
    args: Seq<Seq<char>>,
    pipe: Seq<char>,
    rest: Seq<Seq<char>>,
)
    requires
        forall|i: int| 0 <= i < args.len() ==> trimmed(#[trigger] args[i]) != seq!['|'],
        trimmed(pipe) == seq!['|'],
    ensures
        stages_from(args + seq![pipe] + rest, false) == seq![stage_of(command_line(args))]
            + stages_from(rest, false),
{
    let all = args + seq![pipe] + rest;
    let n = args.len() as int;
    assert(all.take(n) =~= args);
    lemma_read_plain(args, all, n);
    assert(args.take(n) =~= args);
    let first = seq![stage_of(command_line(args))];
    assert(all[n] == pipe);
    assert(read_args(all, false, n + 1).stages =~= first);
    assert(all =~= args.push(pipe) + rest);
    assert(read_args(all, false, n + 1) =~= (ReadState { stages: first, args: Seq::empty() }));
    lemma_read_behind(args.push(pipe), rest, first, rest.len() as int);
    let r = read_args(rest, false, rest.len() as int);
    assert(stages_from(all, false) =~= first + stages_from(rest, false));
}

proof fn lemma_read_behind(
    front: Seq<Seq<char>>,
    rest: Seq<Seq<char>>,
    stages: Seq<StageView>,
    n: int,
)
    requires
        0 <= n <= rest.len(),
        read_args(front + rest, false, front.len() as int) == (ReadState {
            stages,
            args: Seq::empty(),
        }),
    ensures
        ({
            let r = read_args(rest, false, n);
            read_args(front + rest, false, front.len() + n) == (ReadState {
                stages: stages + r.stages,
                args: r.args,
            })
        }),
    decreases n,
{
    let all = front + rest;
    if n == 0 {
        assert(stages + Seq::<StageView>::empty() =~= stages);
    } else {
        lemma_read_behind(front, rest, stages, n - 1);
        assert(all[front.len() + n - 1] == rest[n - 1]);
        let a = read_args(all, false, front.len() + n);
        let r = read_args(rest, false, n);
        assert(a.stages =~= stages + r.stages);
    }
}

/// Command lines given as several arguments make up one pipeline, line after
/// line.
pub proof fn law_command_lines_add_up(lines: Seq<Seq<char>>, last: Seq<char>)
    ensures
        stages_from(lines.push(last), true) == stages_from(lines, true) + stages_from(
            seq![last],
            true,
        ),
{
    let all = lines.push(last);
    let n = lines.len() as int;
    lemma_parse_leaves_no_args(lines, n);
    lemma_parse_leaves_no_args(all, n + 1);
    lemma_read_same(lines, all, n);
    reveal_with_fuel(read_args, 2);
    assert(all[n] == last);
    assert(quoted_all(Seq::<Seq<char>>::empty()) =~= Seq::<Seq<char>>::empty());
    assert(stages_from(all, true) =~= stages_from(lines, true) + stages_from(seq![last], true));
}

proof fn lemma_parse_leaves_no_args(lines: Seq<Seq<char>>, n: int)
    requires
        0 <= n <= lines.len(),
    ensures
        read_args(lines, true, n).args == Seq::<Seq<char>>::empty(),
    decreases n,
{
    if n > 0 {
        lemma_parse_leaves_no_args(lines, n - 1);
    }
}

proof fn lemma_read_same(a: Seq<Seq<char>>, b: Seq<Seq<char>>, n: int)
    requires
        0 <= n <= a.len() <= b.len(),
        forall|i: int| 0 <= i < n ==> a[i] == b[i],
    ensures
        read_args(a, true, n) == read_args(b, true, n),
    decreases n,
{
    if n > 0 {
        lemma_read_same(a, b, n - 1);
    }
}

/// Joining puts the separator between each two parts, and nothing else.
pub proof fn law_joining(first: Seq<char>, rest: Seq<Seq<char>>, sep: Seq<char>)
    ensures
        join_texts(Seq::empty(), sep) == Seq::<char>::empty(),
        join_texts(seq![first], sep) == first,
        rest.len() > 0 ==> join_texts(seq![first] + rest, sep) == first + sep + join_texts(
            rest,
            sep,
        ),
{
    if rest.len() > 0 {
        lemma_join_first(first, rest, sep);
    }
}

/// Whether a character has no meaning to a shell: a letter, a digit or one of
/// ten signs.
pub open spec fn is_safe(c: char) -> bool {
    ||| 'a' <= c <= 'z' || 'A' <= c <= 'Z' || '0' <= c <= '9'
    ||| seq!['-', '_', '.', '/', ':', '@', '+', ',', '%', '='].contains(c)
}

/// An argument of letters, digits and harmless signs is written as it is; any
/// other one, and an empty one, in single quotes, of which those inside are
/// written as a quote between two quotes.
pub proof fn law_what_is_quoted(arg: Seq<char>, i: int)
    ensures
        arg.len() > 0 && (forall|k: int| 0 <= k < arg.len() ==> is_safe(#[trigger] arg[k]))
            ==> quoted(arg) == arg,
        arg.len() == 0 || (0 <= i < arg.len() && !is_safe(arg[i])) ==> quoted(arg) == seq!['\'']
            + replace_char(arg, '\'', seq!['\'', '\\', '\'', '\'']) + seq!['\''],
{
    let signs = seq!['-', '_', '.', '/', ':', '@', '+', ',', '%', '='];
    assert forall|c: char| #[trigger] is_safe(c) == is_plain(c) by {
        assert(signs[0] == '-' && signs[1] == '_' && signs[2] == '.' && signs[3] == '/' && signs[4]
            == ':' && signs[5] == '@' && signs[6] == '+' && signs[7] == ',' && signs[8] == '%'
            && signs[9] == '=');
        if signs.contains(c) {
            let k = signs.index_of(c);
            assert(signs[k] == c);
        }
    }
    if 0 <= i < arg.len() && !is_safe(arg[i]) {
        assert(!is_plain(arg[i]));
    }
}

/// A text begins with another one exactly if it is that one followed by
/// something.
pub proof fn law_beginnings(p: Seq<char>, rest: Seq<char>, s: Seq<char>)
    ensures
        begins_with(p + rest, p),
        begins_with(s, p) ==> s == p + s.skip(p.len() as int),
{
    assert((p + rest).take(p.len() as int) =~= p);
    if begins_with(s, p) {
        assert(s =~= s.take(p.len() as int) + s.skip(p.len() as int));
    }
}

/// An argument that is nothing but a bar and white space can be split, and so
/// can one in which no bar is followed by a space and another bar.
pub proof fn law_arguments_that_can_be_split(a: Seq<char>, b: Seq<char>, s: Seq<char>)
    requires
        all_white(a),
        all_white(b),
        forall|k: int|
            0 <= k < s.len() - 2 ==> !(#[trigger] s[k] == '|' && s[k + 1] == ' ' && s[k + 2] == '|'),
    ensures
        splittable(a + seq!['|'] + b),
        splittable(s),
{
    law_trimming_keeps_text(a, seq!['|'], b);
    if overlapping(s) {
        let k = choose|k: int|
            #[trigger] is_separator(s, k) && is_separator(s, k + 2);
        assert(s[k] == '|' && s[k + 1] == ' ' && s[k + 2] == '|');
    }
}

} // verus!

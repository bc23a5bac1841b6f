//! The pipeline: its stages, and reading it from the command line.
use vstd::prelude::*;

use crate::options::{no_overrides, OverridesView, StageOverrides};
use crate::text::{chars_of, str_eq, strings, texts};
use crate::text_tools::{join, join_texts, push_replaced, replace_char, split_chars, trim, trimmed};

verus! {

/// A single stage in a shell pipeline.
#[derive(Debug)]
pub struct PipeStage {
    /// The shell command for this stage (e.g. "jq '.[]'")
    pub command: String,
    /// When the most recent data chunk was received from the executor, in
    /// milliseconds on the caller's clock. Used by the renderer to highlight
    /// the stage/pipe while data is actively flowing.
    pub last_update: Option<u64>,
    /// Options of this stage.
    pub overrides: StageOverrides,
}

/// What a [`PipeStage`] stands for.
#[verifier::ext_equal]
pub struct StageView {
    pub command: Seq<char>,
    pub last_update: Option<u64>,
    pub overrides: OverridesView,
}

impl View for PipeStage {
    type V = StageView;

    open spec fn view(&self) -> StageView {
        StageView {
            command: self.command@,
            last_update: self.last_update,
            overrides: self.overrides@,
        }
    }
}

/// A stage that has just been made.
pub open spec fn fresh_stage(command: Seq<char>) -> StageView {
    StageView { command, last_update: None, overrides: no_overrides() }
}

impl PipeStage {
    /// A stage with the given command.
    pub fn new(command: String) -> (r: PipeStage)
        ensures
            r@ == fresh_stage(command@),
    {
        PipeStage { command, last_update: None, overrides: StageOverrides::none() }
    }
}

impl Clone for PipeStage {
    fn clone(&self) -> (r: PipeStage)
        ensures
            r@ == self@,
    {
        PipeStage {
            command: self.command.clone(),
            last_update: self.last_update,
            overrides: self.overrides.clone(),
        }
    }
}

/// The full pipeline (ordered list of stages).
#[derive(Debug)]
pub struct Pipeline {
    pub stages: Vec<PipeStage>,
    /// Index of the currently selected stage.
    pub selected: usize,
}

/// What a [`Pipeline`] stands for.
#[verifier::ext_equal]
pub struct PipelineView {
    pub stages: Seq<StageView>,
    pub selected: int,
}

/// What a list of stages stands for.
pub open spec fn stages_view(stages: Seq<PipeStage>) -> Seq<StageView> {
    Seq::new(stages.len(), |i: int| stages[i]@)
}

impl View for Pipeline {
    type V = PipelineView;

    open spec fn view(&self) -> PipelineView {
        PipelineView { stages: stages_view(self.stages@), selected: self.selected as int }
    }
}

impl PipelineView {
    /// One of the stages is selected, unless there is none.
    pub open spec fn wf(self) -> bool {
        &&& 0 <= self.selected
        &&& self.selected < self.stages.len() || self.selected == 0
    }
}

/// The next stage is selected, if there is one.
pub open spec fn next_selected(p: PipelineView) -> PipelineView {
    if p.selected + 1 < p.stages.len() {
        PipelineView { selected: p.selected + 1, ..p }
    } else {
        p
    }
}

/// The previous stage is selected, if there is one.
pub open spec fn prev_selected(p: PipelineView) -> PipelineView {
    if p.selected > 0 {
        PipelineView { selected: p.selected - 1, ..p }
    } else {
        p
    }
}

/// An empty stage stands at `pos` and is selected.
pub open spec fn inserted_at(p: PipelineView, pos: int) -> PipelineView {
    PipelineView { stages: p.stages.insert(pos, fresh_stage(Seq::empty())), selected: pos }
}

/// An empty stage stands behind the selected one and is selected.
pub open spec fn inserted_after(p: PipelineView) -> PipelineView {
    inserted_at(
        p,
        if p.stages.len() == 0 {
            0
        } else {
            p.selected + 1
        },
    )
}

/// An empty stage stands before the selected one and is selected.
pub open spec fn inserted_before(p: PipelineView) -> PipelineView {
    inserted_at(p, p.selected)
}

/// The selected stage is gone, and the one that takes its place, or else the
/// one before it, is selected.
pub open spec fn selected_removed(p: PipelineView) -> PipelineView {
    if p.stages.len() == 0 {
        p
    } else {
        let stages = p.stages.remove(p.selected);
        PipelineView {
            stages,
            selected: if p.selected >= stages.len() && p.selected > 0 {
                p.selected - 1
            } else {
                p.selected
            },
        }
    }
}

impl Pipeline {
    /// A pipeline of the given stages, the first of which is selected.
    pub fn new(stages: Vec<PipeStage>) -> (r: Pipeline)
        ensures
            r@ == (PipelineView { stages: stages_view(stages@), selected: 0 }),
    {
        Pipeline { stages, selected: 0 }
    }

    /// Whether there are no stages.
    pub fn is_empty(&self) -> (r: bool)
        ensures
            r == (self@.stages.len() == 0),
    {
        self.stages.len() == 0
    }

    /// Number of stages.
    pub fn len(&self) -> (r: usize)
        ensures
            r == self@.stages.len(),
    {
        self.stages.len()
    }

    /// The selected stage, if there are any stages.
    pub fn selected_stage(&self) -> (r: Option<&PipeStage>)
        ensures
            r is Some <==> self@.selected < self@.stages.len(),
            r matches Some(s) ==> s@ == self@.stages[self@.selected],
    {
        if self.selected < self.stages.len() {
            Some(&self.stages[self.selected])
        } else {
            None
        }
    }

    /// The selected stage, to be changed.
    pub fn selected_stage_mut(&mut self) -> (r: Option<&mut PipeStage>)
        ensures
            match r {
                Some(s) => {
                    &&& old(self)@.selected < old(self)@.stages.len()
                    &&& s@ == old(self)@.stages[old(self)@.selected]
                    &&& final(self)@.stages == old(self)@.stages.update(
                        old(self)@.selected,
                        final(s)@,
                    )
                    &&& final(self)@.selected == old(self)@.selected
                },
                None => {
                    &&& old(self)@.selected >= old(self)@.stages.len()
                    &&& final(self)@ == old(self)@
                },
            },
    {
        if self.selected < self.stages.len() {
            let i = self.selected;
            Some(&mut self.stages[i])
        } else {
            None
        }
    }

    /// Move selection to the next stage.
    pub fn select_next(&mut self)
        requires
            old(self)@.wf(),
        ensures
            final(self)@.wf(),
            final(self)@ == next_selected(old(self)@),
    {
        if self.selected < self.stages.len() && self.selected + 1 < self.stages.len() {
            self.selected = self.selected + 1;
        }
    }

    /// Move selection to the previous stage.
    pub fn select_prev(&mut self)
        requires
            old(self)@.wf(),
        ensures
            final(self)@.wf(),
            final(self)@ == prev_selected(old(self)@),
    {
        if self.selected > 0 {
            self.selected = self.selected - 1;
        }
    }

    /// Insert a new empty stage after the currently selected stage.
    pub fn insert_after_selected(&mut self)
        requires
            old(self)@.wf(),
        ensures
            final(self)@.wf(),
            final(self)@ == inserted_after(old(self)@),
    {
        let pos = if self.stages.len() == 0 {
            0
        } else {
            self.selected + 1
        };
        self.insert_stage(pos);
    }

    /// Insert a new empty stage before the currently selected stage.
    pub fn insert_before_selected(&mut self)
        requires
            old(self)@.wf(),
        ensures
            final(self)@.wf(),
            final(self)@ == inserted_before(old(self)@),
    {
        self.insert_stage(self.selected);
    }

    fn insert_stage(&mut self, pos: usize)
        requires
            pos <= old(self)@.stages.len(),
        ensures
            final(self)@.wf(),
            final(self)@ == inserted_at(old(self)@, pos as int),
    {
        let ghost before = self@;
        let stage = PipeStage::new(String::new());
        proof {
            assert(stage@.command =~= Seq::<char>::empty());
        }
        self.stages.insert(pos, stage);
        self.selected = pos;
        proof {
            assert(self@.stages =~= before.stages.insert(
                pos as int,
                fresh_stage(Seq::empty()),
            ));
        }
    }

    /// Remove the currently selected stage.
    pub fn remove_selected(&mut self)
        requires
            old(self)@.wf(),
        ensures
            final(self)@.wf(),
            final(self)@ == selected_removed(old(self)@),
    {
        let ghost before = self@;
        if self.stages.len() > 0 {
            self.stages.remove(self.selected);
            proof {
                assert(stages_view(self.stages@) =~= before.stages.remove(before.selected));
            }
            if self.selected >= self.stages.len() && self.selected > 0 {
                self.selected = self.selected - 1;
            }
        }
    }

    /// The commands of all stages.
    pub fn commands(&self) -> (r: Vec<String>)
        ensures
            strings(r@) == commands_of(self@),
    {
        let mut out: Vec<String> = Vec::new();
        let mut i: usize = 0;
        while i < self.stages.len()
            invariant
                i <= self.stages@.len(),
                out@.len() == i,
                forall|k: int| 0 <= k < i ==> (#[trigger] out@[k])@ == self.stages@[k].command@,
            decreases self.stages@.len() - i,
        {
            out.push(self.stages[i].command.clone());
            i = i + 1;
        }
        proof {
            assert(strings(out@) =~= commands_of(self@));
        }
        out
    }
}

/// The commands of all stages.
pub open spec fn commands_of(p: PipelineView) -> Seq<Seq<char>> {
    Seq::new(p.stages.len(), |i: int| p.stages[i].command)
}

impl Clone for Pipeline {
    fn clone(&self) -> (r: Pipeline)
        ensures
            r@ == self@,
    {
        let mut stages: Vec<PipeStage> = Vec::new();
        let mut i: usize = 0;
        while i < self.stages.len()
            invariant
                i <= self.stages@.len(),
                stages@.len() == i,
                forall|k: int| 0 <= k < i ==> (#[trigger] stages@[k])@ == self.stages@[k]@,
            decreases self.stages@.len() - i,
        {
            let s = self.stages[i].clone();
            stages.push(s);
            i = i + 1;
        }
        proof {
            assert(stages_view(stages@) =~= stages_view(self.stages@));
        }
        Pipeline { stages, selected: self.selected }
    }
}

// ---------------------------------------------------------------------------
// Splitting a command line
// ---------------------------------------------------------------------------

/// Where a command line is with regard to quotes.
#[verifier::ext_equal]
pub struct QuoteState {
    pub single: bool,
    pub double: bool,
    /// The last character was a backslash.
    pub escaped: bool,
}

/// One character on.
pub open spec fn quote_step(q: QuoteState, c: char) -> QuoteState {
    QuoteState {
        single: if c == '\'' && !q.double && !q.escaped {
            !q.single
        } else {
            q.single
        },
        double: if c == '"' && !q.single && !q.escaped {
            !q.double
        } else {
            q.double
        },
        escaped: c == '\\',
    }
}

/// Where the line is before its character number `k`.
pub open spec fn quote_state(s: Seq<char>, k: int) -> QuoteState
    decreases k,
{
    if k <= 0 {
        QuoteState { single: false, double: false, escaped: false }
    } else {
        quote_step(quote_state(s, k - 1), s[k - 1])
    }
}

/// Whether character number `k` is a `|` that separates two stages: one with a
/// space on each side, outside quotes.
pub open spec fn is_separator(s: Seq<char>, k: int) -> bool {
    &&& 1 <= k < s.len() - 1
    &&& s[k] == '|'
    &&& s[k - 1] == ' '
    &&& s[k + 1] == ' '
    &&& !quote_state(s, k).single
    &&& !quote_state(s, k).double
}

/// The pieces of `s` from `start` on, between the separators from `k` on.
pub open spec fn pieces_from(s: Seq<char>, start: int, k: int) -> Seq<Seq<char>>
    decreases s.len() - k,
{
    if k >= s.len() {
        seq![s.subrange(start, s.len() as int)]
    } else if is_separator(s, k) {
        seq![s.subrange(start, k - 1)] + pieces_from(s, k + 2, k + 1)
    } else {
        pieces_from(s, start, k + 1)
    }
}

/// The pieces of a command line between its separators.
pub open spec fn pieces(s: Seq<char>) -> Seq<Seq<char>> {
    pieces_from(s, 0, 0)
}

/// Whether two separators share a space.
pub open spec fn overlapping(s: Seq<char>) -> bool {
    exists|k: int| #[trigger] is_separator(s, k) && is_separator(s, k + 2)
}

/// Whether two separators of `s` share a space.
pub fn separators_overlap(s: &str) -> (r: bool)
    ensures
        r == overlapping(s@),
{
    let chars = chars_of(s);
    let n: usize = chars.len();
    let mut single = false;
    let mut double = false;
    let mut escaped = false;
    // whether the character two places back was a separator
    let mut two_back = false;
    let mut one_back = false;
    let mut k: usize = 0;
    while k < n
        invariant
            chars@ == s@,
            n == s@.len(),
            k <= n,
            quote_state(s@, k as int) == (QuoteState { single, double, escaped }),
            one_back == is_separator(s@, k - 1),
            two_back == is_separator(s@, k - 2),
            forall|j: int| j < k - 2 && #[trigger] is_separator(s@, j) ==> !is_separator(s@, j + 2),
        decreases n - k,
    {
        let c = chars[k];
        let here = c == '|' && !single && !double && k >= 1 && k < n - 1 && chars[k - 1] == ' '
            && chars[k + 1] == ' ';
        if here && two_back {
            proof {
                assert(is_separator(s@, k - 2) && is_separator(s@, (k - 2) + 2));
            }
            return true;
        }
        let was_single = single;
        if c == '\'' && !double && !escaped {
            single = !single;
        }
        if c == '"' && !was_single && !escaped {
            double = !double;
        }
        escaped = c == '\\';
        two_back = one_back;
        one_back = here;
        k = k + 1;
    }
    proof {
        assert forall|j: int| #[trigger] is_separator(s@, j) implies !is_separator(s@, j + 2) by {
            if j >= k - 2 {
                assert(j + 2 >= n);
            }
        }
    }
    false
}

proof fn lemma_texts_push(v: Seq<&str>, s: &str)
    ensures
        texts(v.push(s)) == texts(v).push(s@),
{
    assert(texts(v.push(s)) =~= texts(v).push(s@));
}

/// Split a command line at the `|` characters that have a space on each side
/// and are not inside quotes.
pub fn split_pipeline_stages<'a>(s: &'a str) -> (r: Vec<&'a str>)
    requires
        !overlapping(s@),
    ensures
        texts(r@) == pieces(s@),
{
    let chars = chars_of(s);
    let n: usize = chars.len();
    let mut parts: Vec<&'a str> = Vec::new();
    let mut start: usize = 0;
    let mut single = false;
    let mut double = false;
    let mut escaped = false;
    let mut k: usize = 0;
    proof {
        assert(texts(parts@) + pieces(s@) =~= pieces(s@));
    }
    while k < n
        invariant
            chars@ == s@,
            n == s@.len(),
            k <= n,
            start <= n,
            start <= k + 1,
            start > k ==> is_separator(s@, k - 1),
            start == k && start > 0 ==> is_separator(s@, k - 2),
            !overlapping(s@),
            quote_state(s@, k as int) == (QuoteState { single, double, escaped }),
            texts(parts@) + pieces_from(s@, start as int, k as int) == pieces(s@),
        decreases n - k,
    {
        let c = chars[k];
        if c == '|' && !single && !double && k >= 1 && k < n - 1 && chars[k - 1] == ' '
            && chars[k + 1] == ' ' {
            proof {
                assert(is_separator(s@, k as int));
                if start > k {
                    assert(s@[k as int] == ' ');
                }
                if start == k && start > 0 {
                    assert(is_separator(s@, k - 2) && is_separator(s@, (k - 2) + 2));
                }
            }
            let (front, _rest) = split_chars(s, k - 1);
            let (_before, piece) = split_chars(front, start);
            proof {
                assert(piece@ =~= s@.subrange(start as int, k - 1));
                lemma_texts_push(parts@, piece);
                assert(texts(parts@).push(piece@) + pieces_from(s@, k + 2, k + 1)
                    =~= texts(parts@) + (seq![piece@] + pieces_from(s@, k + 2, k + 1)));
            }
            parts.push(piece);
            start = k + 2;
        }
        let was_single = single;
        if c == '\'' && !double && !escaped {
            single = !single;
        }
        if c == '"' && !was_single && !escaped {
            double = !double;
        }
        escaped = c == '\\';
        k = k + 1;
    }
    let (_before, piece) = split_chars(s, start);
    proof {
        assert(piece@ =~= s@.subrange(start as int, s@.len() as int));
        lemma_texts_push(parts@, piece);
        assert(texts(parts@).push(piece@) =~= texts(parts@) + seq![piece@]);
    }
    parts.push(piece);
    parts
}

// ---------------------------------------------------------------------------
// Quoting
// ---------------------------------------------------------------------------

/// Characters that mean nothing special to a shell.
pub open spec fn is_plain(c: char) -> bool {
    ||| 'a' <= c <= 'z'
    ||| 'A' <= c <= 'Z'
    ||| '0' <= c <= '9'
    ||| c == '-'
    ||| c == '_'
    ||| c == '.'
    ||| c == '/'
    ||| c == ':'
    ||| c == '@'
    ||| c == '+'
    ||| c == ','
    ||| c == '%'
    ||| c == '='
}

/// Whether an argument needs no quotes.
pub open spec fn is_plain_word(arg: Seq<char>) -> bool {
    arg.len() > 0 && forall|i: int| 0 <= i < arg.len() ==> is_plain(#[trigger] arg[i])
}

/// An argument as it is written in a shell command.
pub open spec fn quoted(arg: Seq<char>) -> Seq<char> {
    if is_plain_word(arg) {
        arg
    } else {
        seq!['\''] + replace_char(arg, '\'', seq!['\'', '\\', '\'', '\'']) + seq!['\'']
    }
}

/// Shell-quote an argument if it contains characters that are special to the
/// shell.  This restores the quoting that the shell strips when it hands
/// individual words to the process via `argv`.
pub fn shell_quote(arg: &str) -> (r: String)
    ensures
        r@ == quoted(arg@),
{
    let chars = chars_of(arg);
    let mut plain = chars.len() > 0;
    let mut i: usize = 0;
    while plain && i < chars.len()
        invariant
            chars@ == arg@,
            i <= chars@.len(),
            plain ==> arg@.len() > 0,
            plain ==> forall|k: int| 0 <= k < i ==> is_plain(#[trigger] arg@[k]),
            !plain ==> !is_plain_word(arg@),
        decreases (if plain {
            1int
        } else {
            0int
        }), chars@.len() - i,
    {
        let c = chars[i];
        plain = ('a' <= c && c <= 'z') || ('A' <= c && c <= 'Z') || ('0' <= c && c <= '9') || c
            == '-' || c == '_' || c == '.' || c == '/' || c == ':' || c == '@' || c == '+' || c
            == ',' || c == '%' || c == '=';
        proof {
            if !plain {
                assert(!is_plain(arg@[i as int]));
            }
        }
        i = i + 1;
    }
    if plain {
        return arg.to_owned();
    }
    let mut out = String::new();
    out.push('\'');
    proof {
        reveal_strlit("'\\''");
        assert("'\\''"@ =~= seq!['\'', '\\', '\'', '\'']);
    }
    push_replaced(&mut out, arg, '\'', "'\\''");
    out.push('\'');
    proof {
        assert(out@ =~= quoted(arg@));
    }
    out
}

/// The arguments as they are written in a shell command.
pub open spec fn quoted_all(args: Seq<Seq<char>>) -> Seq<Seq<char>> {
    Seq::new(args.len(), |i: int| quoted(args[i]))
}

/// The shell command that hands the given arguments to a process.
pub open spec fn command_line(args: Seq<Seq<char>>) -> Seq<char> {
    join_texts(quoted_all(args), seq![' '])
}

/// The shell command that hands `args` to a process.
pub fn join_shell_args(args: &[String]) -> (r: String)
    ensures
        r@ == command_line(strings(args@)),
{
    let mut words: Vec<String> = Vec::new();
    let mut i: usize = 0;
    while i < args.len()
        invariant
            i <= args@.len(),
            words@.len() == i,
            forall|k: int| 0 <= k < i ==> (#[trigger] words@[k])@ == quoted(args@[k]@),
        decreases args@.len() - i,
    {
        words.push(shell_quote(args[i].as_str()));
        i = i + 1;
    }
    proof {
        reveal_strlit(" ");
        assert(" "@ =~= seq![' ']);
        assert(strings(words@) =~= quoted_all(strings(args@)));
    }
    join(words.as_slice(), " ")
}

// ---------------------------------------------------------------------------
// From arguments to stages
// ---------------------------------------------------------------------------

/// Stages made so far, and the arguments of the one that is being read.
#[verifier::ext_equal]
pub struct ReadState {
    pub stages: Seq<StageView>,
    pub args: Seq<Seq<char>>,
}

/// The stages of the non-empty pieces among the first `n`, trimmed.
pub open spec fn piece_stages(parts: Seq<Seq<char>>, n: int) -> Seq<StageView>
    decreases n,
{
    if n <= 0 {
        Seq::empty()
    } else if trimmed(parts[n - 1]).len() == 0 {
        piece_stages(parts, n - 1)
    } else {
        piece_stages(parts, n - 1).push(fresh_stage(trimmed(parts[n - 1])))
    }
}

/// One argument on. An argument that is a pipe ends the stage; with `parse`,
/// any other is a command line of its own; without, it is an argument of the
/// stage.
pub open spec fn read_step(r: ReadState, arg: Seq<char>, parse: bool) -> ReadState {
    if trimmed(arg) == seq!['|'] {
        ReadState { stages: r.stages.push(fresh_stage(command_line(r.args))), args: Seq::empty() }
    } else if parse {
        ReadState {
            stages: r.stages + piece_stages(pieces(arg), pieces(arg).len() as int),
            args: r.args,
        }
    } else {
        ReadState { stages: r.stages, args: r.args.push(arg) }
    }
}

/// The first `n` arguments read.
pub open spec fn read_args(cmds: Seq<Seq<char>>, parse: bool, n: int) -> ReadState
    decreases n,
{
    if n <= 0 {
        ReadState { stages: Seq::empty(), args: Seq::empty() }
    } else {
        read_step(read_args(cmds, parse, n - 1), cmds[n - 1], parse)
    }
}

/// The stages that arguments describe.
pub open spec fn stages_from(cmds: Seq<Seq<char>>, parse: bool) -> Seq<StageView> {
    let r = read_args(cmds, parse, cmds.len() as int);
    if r.args.len() == 0 {
        r.stages
    } else {
        r.stages.push(fresh_stage(command_line(r.args)))
    }
}

/// Whether an argument can be split: it is a pipe, or no two separators in it
/// share a space.
pub open spec fn splittable(arg: Seq<char>) -> bool {
    trimmed(arg) == seq!['|'] || !overlapping(arg)
}

/// Whether an argument can be split into stages.
pub fn can_split(arg: &str) -> (r: bool)
    ensures
        r == splittable(arg@),
{
    proof {
        reveal_strlit("|");
        assert("|"@ =~= seq!['|']);
    }
    str_eq(trim(arg), "|") || !separators_overlap(arg)
}

proof fn lemma_stages_view_push(stages: Seq<PipeStage>, s: PipeStage)
    ensures
        stages_view(stages.push(s)) == stages_view(stages).push(s@),
{
    assert(stages_view(stages.push(s)) =~= stages_view(stages).push(s@));
}

/// Append the stages of a command line.
fn push_pieces(stages: &mut Vec<PipeStage>, line: &str)
    requires
        !overlapping(line@),
    ensures
        stages_view(final(stages)@) == stages_view(old(stages)@) + piece_stages(
            pieces(line@),
            pieces(line@).len() as int,
        ),
{
    let parts = split_pipeline_stages(line);
    let ghost all = pieces(line@);
    let mut i: usize = 0;
    proof {
        assert(stages_view(stages@) + piece_stages(all, 0) =~= stages_view(stages@));
    }
    while i < parts.len()
        invariant
            i <= parts@.len(),
            texts(parts@) == all,
            stages_view(stages@) == stages_view(old(stages)@) + piece_stages(all, i as int),
        decreases parts@.len() - i,
    {
        let t = trim(parts[i]);
        proof {
            assert(all[i as int] == parts@[i as int]@);
        }
        if !t.is_empty() {
            let stage = PipeStage::new(t.to_owned());
            proof {
                lemma_stages_view_push(stages@, stage);
                assert((stages_view(old(stages)@) + piece_stages(all, i as int)).push(stage@)
                    =~= stages_view(old(stages)@) + piece_stages(all, i + 1));
            }
            stages.push(stage);
        }
        i = i + 1;
    }
}

impl Pipeline {
    /// The pipeline that command-line arguments describe. An argument that is
    /// only a `|` separates stages. With `parse`, every other argument is a
    /// command line, which is split into stages at ` | `; without it, the
    /// arguments of a stage are joined, quoted where a shell needs it.
    pub fn from_commands(cmds: Vec<String>, parse: bool) -> (r: Pipeline)
        requires
            parse ==> forall|i: int| 0 <= i < cmds@.len() ==> splittable((#[trigger] cmds@[i])@),
        ensures
            r@ == (PipelineView { stages: stages_from(strings(cmds@), parse), selected: 0 }),
    {
        let mut stages: Vec<PipeStage> = Vec::new();
        let mut args: Vec<String> = Vec::new();
        let ghost all = strings(cmds@);
        let mut i: usize = 0;
        proof {
            assert(stages_view(stages@) =~= Seq::<StageView>::empty());
            assert(strings(args@) =~= Seq::<Seq<char>>::empty());
            reveal_strlit("|");
            assert("|"@ =~= seq!['|']);
        }
        while i < cmds.len()
            invariant
                i <= cmds@.len(),
                all == strings(cmds@),
                "|"@ == seq!['|'],
                parse ==> forall|k: int|
                    0 <= k < cmds@.len() ==> splittable((#[trigger] cmds@[k])@),
                read_args(all, parse, i as int) == (ReadState {
                    stages: stages_view(stages@),
                    args: strings(args@),
                }),
            decreases cmds@.len() - i,
        {
            proof {
                assert(all[i as int] == cmds@[i as int]@);
            }
            if str_eq(trim(cmds[i].as_str()), "|") {
                let stage = PipeStage::new(join_shell_args(args.as_slice()));
                proof {
                    lemma_stages_view_push(stages@, stage);
                }
                stages.push(stage);
                args = Vec::new();
                proof {
                    assert(strings(args@) =~= Seq::<Seq<char>>::empty());
                }
            } else if parse {
                proof {
                    assert(splittable(cmds@[i as int]@));
                }
                push_pieces(&mut stages, cmds[i].as_str());
            } else {
                let arg = cmds[i].clone();
                proof {
                    assert(strings(args@.push(arg)) =~= strings(args@).push(arg@));
                }
                args.push(arg);
            }
            i = i + 1;
        }
        if args.len() > 0 {
            let stage = PipeStage::new(join_shell_args(args.as_slice()));
            proof {
                lemma_stages_view_push(stages@, stage);
            }
            stages.push(stage);
        }
        Pipeline::new(stages)
    }
}

/// The pipeline that a single command line describes, such as "a | b | c".
pub fn parse_pipeline(s: &str) -> (r: Pipeline)
    requires
        splittable(s@),
    ensures
        r@ == (PipelineView { stages: stages_from(seq![s@], true), selected: 0 }),
{
    let mut cmds: Vec<String> = Vec::new();
    cmds.push(s.to_owned());
    proof {
        assert(strings(cmds@) =~= seq![s@]);
    }
    Pipeline::from_commands(cmds, true)
}

} // verus!

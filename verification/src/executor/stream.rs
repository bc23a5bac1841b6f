//! Running the stages of a pipeline side by side while their output streams in.
//!
//! Processes, pipes and threads are the caller's. What is decided is decided
//! here: how bytes are cut into lines, what a line adds to its stage and passes
//! on to the next one, when an update is due, which stages come from the cache,
//! which are launched, and what is reported and remembered when they end.
use vstd::prelude::*;

use crate::ansi::{strip_ansi_sgr_bytes, strip_bytes};
use crate::bytes::{append_bytes, copy_bytes};
use crate::executor::batch::{mode_at, mode_of, stage_count, stage_total};
use crate::executor::cache::{key_of, CacheMap, ExecutorCache};
use crate::executor::output::{
    combined_view, copy_lines, extract_relay_bytes, lemma_combined_view_push, relayed, whole_output,
    CombinedLine, LineView, OutputMode, OutputView, StageOutput,
};
use crate::number::{decimal, push_decimal};
use crate::text::{opt_string, strings};

verus! {

// ---------------------------------------------------------------------------
// Cutting a stream into lines
// ---------------------------------------------------------------------------

/// Position after the first newline of `s`, or 0 without one.
pub open spec fn line_end(s: Seq<u8>) -> int
    decreases s.len(),
{
    if s.len() == 0 {
        0
    } else if s[0] == 0x0a {
        1
    } else if line_end(s.drop_first()) == 0 {
        0
    } else {
        1 + line_end(s.drop_first())
    }
}

/// The complete lines of `s`, each with its newline.
pub open spec fn full_lines(s: Seq<u8>) -> Seq<Seq<u8>>
    decreases s.len(),
{
    if line_end(s) <= 0 || line_end(s) > s.len() {
        Seq::empty()
    } else {
        seq![s.take(line_end(s))] + full_lines(s.skip(line_end(s)))
    }
}

/// What follows the last newline of `s`.
pub open spec fn last_part(s: Seq<u8>) -> Seq<u8>
    decreases s.len(),
{
    if line_end(s) <= 0 || line_end(s) > s.len() {
        s
    } else {
        last_part(s.skip(line_end(s)))
    }
}

proof fn lemma_line_end(s: Seq<u8>)
    ensures
        0 <= line_end(s) <= s.len(),
        line_end(s) == 0 ==> forall|i: int| 0 <= i < s.len() ==> s[i] != 0x0a,
        line_end(s) > 0 ==> s[line_end(s) - 1] == 0x0a && forall|i: int|
            0 <= i < line_end(s) - 1 ==> s[i] != 0x0a,
    decreases s.len(),
{
    if s.len() > 0 && s[0] != 0x0a {
        let t = s.drop_first();
        lemma_line_end(t);
        let n = line_end(t);
        if n == 0 {
            assert forall|i: int| 0 <= i < s.len() implies s[i] != 0x0a by {
                if i > 0 {
                    assert(t[i - 1] == s[i]);
                }
            }
        } else {
            assert forall|i: int| 0 <= i < n implies s[i] != 0x0a by {
                if i > 0 {
                    assert(t[i - 1] == s[i]);
                }
            }
        }
    }
}

proof fn lemma_line_end_is(s: Seq<u8>, n: int)
    requires
        0 < n <= s.len(),
        s[n - 1] == 0x0a,
        forall|i: int| 0 <= i < n - 1 ==> s[i] != 0x0a,
    ensures
        line_end(s) == n,
{
    lemma_line_end(s);
    if line_end(s) == 0 {
        assert(s[n - 1] != 0x0a);
    } else if line_end(s) < n {
        assert(s[line_end(s) - 1] != 0x0a);
    } else if line_end(s) > n {
        assert(s[n - 1] != 0x0a);
    }
}

proof fn lemma_line_end_none(s: Seq<u8>)
    requires
        forall|i: int| 0 <= i < s.len() ==> s[i] != 0x0a,
    ensures
        line_end(s) == 0,
{
    lemma_line_end(s);
}

/// Cuts the bytes of a stream into lines as they come in.
#[derive(Debug)]
pub struct LineSplitter {
    /// What has come in since the last newline.
    pub pending: Vec<u8>,
}

/// What a list of byte strings stands for.
pub open spec fn byte_strings(v: Seq<Vec<u8>>) -> Seq<Seq<u8>> {
    Seq::new(v.len(), |i: int| v[i]@)
}

impl LineSplitter {
    /// A splitter at the start of a stream.
    pub fn new() -> (r: LineSplitter)
        ensures
            r.pending@ == Seq::<u8>::empty(),
    {
        LineSplitter { pending: Vec::new() }
    }

    /// Take in more bytes; returns the lines that they complete, in order, each
    /// including its trailing `\n`.
    pub fn feed(&mut self, chunk: &[u8]) -> (r: Vec<Vec<u8>>)
        ensures
            byte_strings(r@) == full_lines(old(self).pending@ + chunk@),
            final(self).pending@ == last_part(old(self).pending@ + chunk@),
    {
        append_bytes(&mut self.pending, chunk);
        let ghost all = self.pending@;
        let mut lines: Vec<Vec<u8>> = Vec::new();
        let mut start: usize = 0;
        let mut i: usize = 0;
        proof {
            assert(all.skip(0) =~= all);
            assert(byte_strings(lines@) + full_lines(all) =~= full_lines(all));
        }
        while i < self.pending.len()
            invariant
                self.pending@ == all,
                start <= i <= all.len(),
                forall|k: int| start <= k < i ==> all[k] != 0x0a,
                byte_strings(lines@) + full_lines(all.skip(start as int)) == full_lines(all),
                last_part(all.skip(start as int)) == last_part(all),
            decreases all.len() - i,
        {
            if self.pending[i] == 0x0a {
                let line = vstd::slice::slice_to_vec(
                    vstd::slice::slice_subrange(self.pending.as_slice(), start, i + 1),
                );
                proof {
                    let s = all.skip(start as int);
                    let n = i + 1 - start;
                    lemma_line_end_is(s, n);
                    assert(s.take(n) =~= line@);
                    assert(s.skip(n) =~= all.skip(i + 1));
                    assert(byte_strings(lines@.push(line)) =~= byte_strings(lines@).push(line@));
                    assert(byte_strings(lines@).push(line@) + full_lines(all.skip(i + 1))
                        =~= byte_strings(lines@) + (seq![line@] + full_lines(all.skip(i + 1))));
                }
                lines.push(line);
                start = i + 1;
            }
            i = i + 1;
        }
        proof {
            let s = all.skip(start as int);
            lemma_line_end_none(s);
            assert(byte_strings(lines@) + full_lines(s) =~= byte_strings(lines@));
            assert(s =~= all.subrange(start as int, all.len() as int));
        }
        self.pending = vstd::slice::slice_to_vec(
            vstd::slice::slice_subrange(self.pending.as_slice(), start, self.pending.len()),
        );
        lines
    }

    /// The stream has ended; returns the last line if it has no newline.
    pub fn finish(self) -> (r: Option<Vec<u8>>)
        ensures
            r is Some <==> self.pending@.len() > 0,
            r matches Some(line) ==> line@ == self.pending@,
    {
        if self.pending.len() == 0 {
            None
        } else {
            Some(self.pending)
        }
    }
}

/// All byte strings of a list, one after the other.
pub open spec fn concat(parts: Seq<Seq<u8>>) -> Seq<u8>
    decreases parts.len(),
{
    if parts.len() == 0 {
        Seq::empty()
    } else {
        parts[0] + concat(parts.drop_first())
    }
}

/// Cutting a stream into lines loses nothing and adds nothing: the lines and
/// what is still pending make up the stream. Each line ends in its only
/// newline, and nothing pending holds one.
pub proof fn law_lines_make_up_stream(s: Seq<u8>)
    ensures
        concat(full_lines(s)) + last_part(s) == s,
        forall|i: int|
            0 <= i < full_lines(s).len() ==> {
                &&& (#[trigger] full_lines(s)[i]).len() > 0
                &&& full_lines(s)[i].last() == 0x0a
                &&& forall|k: int|
                    0 <= k < full_lines(s)[i].len() - 1 ==> full_lines(s)[i][k] != 0x0a
            },
        !last_part(s).contains(0x0a),
    decreases s.len(),
{
    lemma_line_end(s);
    let n = line_end(s);
    if n == 0 {
        assert(concat(full_lines(s)) + last_part(s) =~= s);
    } else {
        let t = s.skip(n);
        law_lines_make_up_stream(t);
        let first = s.take(n);
        let rest = full_lines(t);
        assert((seq![first] + rest).drop_first() =~= rest);
        assert(concat(full_lines(s)) =~= first + concat(rest));
        assert(first + t =~= s);
        assert(concat(full_lines(s)) + last_part(s) =~= first + (concat(rest) + last_part(t)));
        assert forall|i: int| 0 <= i < full_lines(s).len() implies ({
            &&& (#[trigger] full_lines(s)[i]).len() > 0
            &&& full_lines(s)[i].last() == 0x0a
            &&& forall|k: int| 0 <= k < full_lines(s)[i].len() - 1 ==> full_lines(s)[i][k] != 0x0a
        }) by {
            if i > 0 {
                assert(full_lines(s)[i] == rest[i - 1]);
            }
        }
    }
}

/// How a stream is cut does not depend on the pieces in which it comes in.
pub proof fn law_lines_independent_of_chunks(a: Seq<u8>, b: Seq<u8>)
    ensures
        full_lines(a + b) == full_lines(a) + full_lines(last_part(a) + b),
        last_part(a + b) == last_part(last_part(a) + b),
    decreases a.len(),
{
    lemma_line_end(a);
    let n = line_end(a);
    if n == 0 {
        assert(full_lines(a) + full_lines(a + b) =~= full_lines(a + b));
    } else {
        let s = a + b;
        assert forall|i: int| 0 <= i < n - 1 implies s[i] != 0x0a by {
            assert(s[i] == a[i]);
        }
        lemma_line_end_is(s, n);
        assert(s.take(n) =~= a.take(n));
        assert(s.skip(n) =~= a.skip(n) + b);
        law_lines_independent_of_chunks(a.skip(n), b);
        assert(full_lines(a + b) =~= full_lines(a) + full_lines(last_part(a) + b));
    }
}

// ---------------------------------------------------------------------------
// Messages
// ---------------------------------------------------------------------------

/// Messages sent from the streaming executor to the UI.
#[derive(Debug)]
pub enum StreamMsg {
    /// Incremental update for a stage's output buffers.
    StageUpdate {
        stage_idx: usize,
        new_stdout: Vec<u8>,
        new_stderr: Vec<u8>,
        new_combined: Vec<CombinedLine>,
    },
    /// A stage's process has exited.
    StageDone { stage_idx: usize, exit_code: Option<i32> },
    /// The entire pipeline execution has finished.
    AllDone { error: Option<String> },
}

/// What a [`StreamMsg`] stands for.
#[verifier::ext_equal]
pub enum MsgView {
    Update { stage: int, stdout: Seq<u8>, stderr: Seq<u8>, combined: Seq<LineView> },
    Done { stage: int, exit_code: Option<i32> },
    AllDone { error: Option<Seq<char>> },
}

impl View for StreamMsg {
    type V = MsgView;

    open spec fn view(&self) -> MsgView {
        match *self {
            StreamMsg::StageUpdate { stage_idx, new_stdout, new_stderr, new_combined } =>
                MsgView::Update {
                stage: stage_idx as int,
                stdout: new_stdout@,
                stderr: new_stderr@,
                combined: combined_view(new_combined@),
            },
            StreamMsg::StageDone { stage_idx, exit_code } => MsgView::Done {
                stage: stage_idx as int,
                exit_code,
            },
            StreamMsg::AllDone { error } => MsgView::AllDone { error: opt_string(error) },
        }
    }
}

/// What a list of messages stands for.
pub open spec fn msgs_view(msgs: Seq<StreamMsg>) -> Seq<MsgView> {
    Seq::new(msgs.len(), |i: int| msgs[i]@)
}

/// What an optional message stands for.
pub open spec fn opt_msg(msg: Option<StreamMsg>) -> Option<MsgView> {
    match msg {
        Some(m) => Some(m@),
        None => None,
    }
}

// ---------------------------------------------------------------------------
// Collecting the output of a running stage
// ---------------------------------------------------------------------------

/// The minimum interval between UI update messages for each stage, in
/// milliseconds.
pub const UI_THROTTLE_MILLIS: u64 = 100;

/// Gathers the lines of a running stage.
#[derive(Debug)]
pub struct Collector {
    pub stage_idx: usize,
    /// Which lines go to the next stage.
    pub mode: OutputMode,
    /// Whether there is a next stage.
    pub relays: bool,
    /// All that has come in.
    pub stdout: Vec<u8>,
    pub stderr: Vec<u8>,
    pub combined: Vec<CombinedLine>,
    /// What has not been reported yet.
    pub pend_out: Vec<u8>,
    pub pend_err: Vec<u8>,
    pub pend_comb: Vec<CombinedLine>,
}

/// What a [`Collector`] stands for.
#[verifier::ext_equal]
pub struct CollectorView {
    pub stage: int,
    pub mode: OutputMode,
    pub relays: bool,
    pub stdout: Seq<u8>,
    pub stderr: Seq<u8>,
    pub combined: Seq<LineView>,
    pub pend_out: Seq<u8>,
    pub pend_err: Seq<u8>,
    pub pend_comb: Seq<LineView>,
}

impl View for Collector {
    type V = CollectorView;

    open spec fn view(&self) -> CollectorView {
        CollectorView {
            stage: self.stage_idx as int,
            mode: self.mode,
            relays: self.relays,
            stdout: self.stdout@,
            stderr: self.stderr@,
            combined: combined_view(self.combined@),
            pend_out: self.pend_out@,
            pend_err: self.pend_err@,
            pend_comb: combined_view(self.pend_comb@),
        }
    }
}

/// A collector to which nothing has come in.
pub open spec fn new_collector(stage: int, mode: OutputMode, relays: bool) -> CollectorView {
    CollectorView {
        stage,
        mode,
        relays,
        stdout: Seq::empty(),
        stderr: Seq::empty(),
        combined: Seq::empty(),
        pend_out: Seq::empty(),
        pend_err: Seq::empty(),
        pend_comb: Seq::empty(),
    }
}

/// The bytes of a line if it came from the given stream.
pub open spec fn bytes_if(line: LineView, is_stderr: bool) -> Seq<u8> {
    if line.is_stderr == is_stderr {
        line.content
    } else {
        Seq::empty()
    }
}

/// The collector after a line has come in.
pub open spec fn after_line(c: CollectorView, line: LineView) -> CollectorView {
    CollectorView {
        stdout: c.stdout + bytes_if(line, false),
        stderr: c.stderr + bytes_if(line, true),
        combined: c.combined.push(line),
        pend_out: c.pend_out + bytes_if(line, false),
        pend_err: c.pend_err + bytes_if(line, true),
        pend_comb: c.pend_comb.push(line),
        ..c
    }
}

/// Whether a line belongs to what a mode passes on.
pub open spec fn in_mode(line: LineView, mode: OutputMode) -> bool {
    match mode {
        OutputMode::Stdout => !line.is_stderr,
        OutputMode::Stderr => line.is_stderr,
        OutputMode::Combined => true,
    }
}

/// What the next stage is sent when a line comes in.
pub open spec fn line_relay(c: CollectorView, line: LineView) -> Option<Seq<u8>> {
    if c.relays && in_mode(line, c.mode) {
        Some(strip_bytes(line.content))
    } else {
        None
    }
}

/// Whether anything has come in since the last report.
pub open spec fn has_pending(c: CollectorView) -> bool {
    c.pend_out.len() > 0 || c.pend_err.len() > 0 || c.pend_comb.len() > 0
}

/// The collector after a report.
pub open spec fn reported(c: CollectorView) -> CollectorView {
    CollectorView {
        pend_out: Seq::empty(),
        pend_err: Seq::empty(),
        pend_comb: Seq::empty(),
        ..c
    }
}

/// The report of what has come in since the last one, if anything has.
pub open spec fn report(c: CollectorView) -> Option<MsgView> {
    if has_pending(c) {
        Some(
            MsgView::Update {
                stage: c.stage,
                stdout: c.pend_out,
                stderr: c.pend_err,
                combined: c.pend_comb,
            },
        )
    } else {
        None
    }
}

/// The collector after a report, if the last one was made long enough ago.
pub open spec fn after_flush_due(c: CollectorView, elapsed_millis: u64) -> CollectorView {
    if elapsed_millis >= UI_THROTTLE_MILLIS {
        reported(c)
    } else {
        c
    }
}

/// The report, if the last one was made long enough ago.
pub open spec fn report_due(c: CollectorView, elapsed_millis: u64) -> Option<MsgView> {
    if elapsed_millis >= UI_THROTTLE_MILLIS {
        report(c)
    } else {
        None
    }
}

/// What an optional byte string stands for.
pub open spec fn opt_bytes(b: Option<Vec<u8>>) -> Option<Seq<u8>> {
    match b {
        Some(v) => Some(v@),
        None => None,
    }
}

impl Collector {
    /// A collector for stage `stage_idx`.
    pub fn new(stage_idx: usize, mode: OutputMode, relays: bool) -> (r: Collector)
        ensures
            r@ == new_collector(stage_idx as int, mode, relays),
    {
        let r = Collector {
            stage_idx,
            mode,
            relays,
            stdout: Vec::new(),
            stderr: Vec::new(),
            combined: Vec::new(),
            pend_out: Vec::new(),
            pend_err: Vec::new(),
            pend_comb: Vec::new(),
        };
        proof {
            assert(r@ =~= new_collector(stage_idx as int, mode, relays));
        }
        r
    }

    /// Take in a line; returns the bytes to send to the next stage, if any.
    pub fn take_line(&mut self, line: CombinedLine) -> (r: Option<Vec<u8>>)
        ensures
            final(self)@ == after_line(old(self)@, line@),
            opt_bytes(r) == line_relay(old(self)@, line@),
    {
        let ghost before = self@;
        let passes = self.relays && match self.mode {
            OutputMode::Stdout => !line.is_stderr,
            OutputMode::Stderr => line.is_stderr,
            OutputMode::Combined => true,
        };
        let relay = if passes {
            Some(strip_ansi_sgr_bytes(line.content.as_slice()))
        } else {
            None
        };
        if line.is_stderr {
            append_bytes(&mut self.stderr, line.content.as_slice());
            append_bytes(&mut self.pend_err, line.content.as_slice());
        } else {
            append_bytes(&mut self.stdout, line.content.as_slice());
            append_bytes(&mut self.pend_out, line.content.as_slice());
        }
        let copy = line.clone();
        proof {
            lemma_combined_view_push(self.pend_comb@, copy);
            lemma_combined_view_push(self.combined@, line);
        }
        self.pend_comb.push(copy);
        self.combined.push(line);
        proof {
            assert(self@ =~= after_line(before, line@));
        }
        relay
    }

    /// Report what has come in since the last report.
    pub fn flush(&mut self) -> (r: Option<StreamMsg>)
        ensures
            final(self)@ == reported(old(self)@),
            opt_msg(r) == report(old(self)@),
    {
        let ghost before = self@;
        if self.pend_out.len() == 0 && self.pend_err.len() == 0 && self.pend_comb.len() == 0 {
            proof {
                assert(self@ =~= reported(before));
            }
            return None;
        }
        let mut new_stdout: Vec<u8> = Vec::new();
        let mut new_stderr: Vec<u8> = Vec::new();
        let mut new_combined: Vec<CombinedLine> = Vec::new();
        std::mem::swap(&mut self.pend_out, &mut new_stdout);
        std::mem::swap(&mut self.pend_err, &mut new_stderr);
        std::mem::swap(&mut self.pend_comb, &mut new_combined);
        proof {
            assert(self@ =~= reported(before));
        }
        Some(
            StreamMsg::StageUpdate {
                stage_idx: self.stage_idx,
                new_stdout,
                new_stderr,
                new_combined,
            },
        )
    }

    /// Report what has come in, unless the last report was made less than
    /// [`UI_THROTTLE_MILLIS`] ago.
    pub fn flush_due(&mut self, elapsed_millis: u64) -> (r: Option<StreamMsg>)
        ensures
            final(self)@ == after_flush_due(old(self)@, elapsed_millis),
            opt_msg(r) == report_due(old(self)@, elapsed_millis),
    {
        if elapsed_millis >= UI_THROTTLE_MILLIS {
            self.flush()
        } else {
            None
        }
    }

    /// The stage has ended; returns its output, without an exit code yet.
    pub fn into_output(self) -> (r: StageOutput)
        ensures
            r.wf(),
            r@ == whole_output(self@.stdout, self@.stderr, None, self@.combined),
    {
        StageOutput::new(self.stdout, self.stderr, None, self.combined)
    }
}

// ---------------------------------------------------------------------------
// Deciding what runs
// ---------------------------------------------------------------------------

/// How far a pipeline run has come.
#[derive(Clone, Copy, Debug, PartialEq, Eq, Structural)]
pub enum RunPhase {
    /// Stages are served from the cache.
    Serving,
    /// The remaining stages are launched.
    Launching,
    /// All processes have been launched; their ends are awaited in order.
    Waiting,
    /// The run is over.
    Finished,
}

/// A pipeline run.
#[derive(Debug)]
pub struct PipelineRun {
    pub commands: Vec<String>,
    pub output_modes: Vec<OutputMode>,
    pub interactive_flags: Vec<bool>,
    /// Number of stages to run.
    pub count: usize,
    pub phase: RunPhase,
    /// The stage that is served, launched or awaited next.
    pub next: usize,
    /// The first stage that is not served from the cache.
    pub first_live: usize,
    /// What stage `next` reads while stages are served or awaited; what stage
    /// `first_live` reads while stages are launched.
    pub stdin: Vec<u8>,
    /// Whether the output of a stage was given up, so that what later stages
    /// have read is not known.
    pub given_up: bool,
}

/// What a [`PipelineRun`] stands for.
#[verifier::ext_equal]
pub struct RunView {
    pub commands: Seq<Seq<char>>,
    pub modes: Seq<OutputMode>,
    pub interactive: Seq<bool>,
    pub count: int,
    pub phase: RunPhase,
    pub next: int,
    pub first_live: int,
    pub stdin: Seq<u8>,
    pub given_up: bool,
}

impl View for PipelineRun {
    type V = RunView;

    open spec fn view(&self) -> RunView {
        RunView {
            commands: strings(self.commands@),
            modes: self.output_modes@,
            interactive: self.interactive_flags@,
            count: self.count as int,
            phase: self.phase,
            next: self.next as int,
            first_live: self.first_live as int,
            stdin: self.stdin@,
            given_up: self.given_up,
        }
    }
}

/// The start of a run.
pub open spec fn begun(
    commands: Seq<Seq<char>>,
    modes: Seq<OutputMode>,
    interactive: Seq<bool>,
    up_to: int,
    force: bool,
) -> RunView {
    let count = stage_total(commands.len(), up_to);
    RunView {
        commands,
        modes,
        interactive,
        count,
        phase: if count == 0 {
            RunPhase::Finished
        } else if force {
            RunPhase::Launching
        } else {
            RunPhase::Serving
        },
        next: 0,
        first_live: 0,
        stdin: Seq::empty(),
        given_up: false,
    }
}

/// The end of a run that went well.
pub open spec fn all_done() -> MsgView {
    MsgView::AllDone { error: None }
}

/// What is sent when a run begins.
pub open spec fn begin_msgs(m: RunView) -> Seq<MsgView> {
    if m.count == 0 {
        seq![all_done()]
    } else {
        Seq::empty()
    }
}

/// The end of a run that was cancelled.
pub open spec fn cancelled_msg() -> MsgView {
    MsgView::AllDone { error: Some("cancelled"@) }
}

/// Whether the next stage is remembered.
pub open spec fn next_is_hit(m: RunView, cache: CacheMap) -> bool {
    cache.contains_key(key_of(m.commands[m.next], m.stdin))
}

/// What the cache remembers of the next stage.
pub open spec fn next_hit(m: RunView, cache: CacheMap) -> OutputView {
    cache[key_of(m.commands[m.next], m.stdin)]
}

/// The run after the next stage was looked up in the cache.
pub open spec fn after_serve(m: RunView, cache: CacheMap, cancelled: bool) -> RunView {
    if cancelled {
        RunView { phase: RunPhase::Finished, ..m }
    } else if next_is_hit(m, cache) {
        RunView {
            next: m.next + 1,
            stdin: relayed(next_hit(m, cache), mode_at(m.modes, m.next)),
            phase: if m.next + 1 == m.count {
                RunPhase::Finished
            } else {
                RunPhase::Serving
            },
            ..m
        }
    } else {
        RunView { phase: RunPhase::Launching, first_live: m.next, ..m }
    }
}

/// What is sent for a stage that is served from the cache.
pub open spec fn hit_msgs(stage: int, out: OutputView) -> Seq<MsgView> {
    seq![
        MsgView::Update {
            stage,
            stdout: out.stdout,
            stderr: out.stderr,
            combined: out.combined,
        },
        MsgView::Done { stage, exit_code: out.exit_code },
    ]
}

/// What is sent when the next stage was looked up in the cache.
pub open spec fn serve_msgs(m: RunView, cache: CacheMap, cancelled: bool) -> Seq<MsgView> {
    if cancelled {
        seq![cancelled_msg()]
    } else if next_is_hit(m, cache) {
        hit_msgs(m.next, next_hit(m, cache)) + if m.next + 1 == m.count {
            seq![all_done()]
        } else {
            Seq::empty()
        }
    } else {
        Seq::empty()
    }
}

/// What is to be done while stages are launched.
#[derive(Debug)]
pub enum Launch {
    /// Start a process for the stage and report with
    /// [`PipelineRun::spawned`] or [`PipelineRun::spawn_failed`].
    Spawn { stage_idx: usize, interactive: bool, mode: OutputMode, relays: bool },
    /// All are running: send `stdin`, if it is there, to the first of them,
    /// close its input, and await their ends.
    Ready { stdin: Option<Vec<u8>> },
    /// Stop all processes that were started and send `msg`.
    Stop { msg: StreamMsg },
}

/// What a [`Launch`] stands for.
#[verifier::ext_equal]
pub enum LaunchView {
    Spawn { stage: int, interactive: bool, mode: OutputMode, relays: bool },
    Ready { stdin: Option<Seq<u8>> },
    Stop { msg: MsgView },
}

impl View for Launch {
    type V = LaunchView;

    open spec fn view(&self) -> LaunchView {
        match *self {
            Launch::Spawn { stage_idx, interactive, mode, relays } => LaunchView::Spawn {
                stage: stage_idx as int,
                interactive,
                mode,
                relays,
            },
            Launch::Ready { stdin } => LaunchView::Ready { stdin: opt_bytes(stdin) },
            Launch::Stop { msg } => LaunchView::Stop { msg: msg@ },
        }
    }
}

/// The run after the next launch was decided.
pub open spec fn after_launch(m: RunView, cancelled: bool) -> RunView {
    if m.next == m.count {
        RunView { phase: RunPhase::Waiting, next: m.first_live, ..m }
    } else if cancelled {
        RunView { phase: RunPhase::Finished, ..m }
    } else {
        m
    }
}

/// Whether stage `i` runs in an interactive shell.
pub open spec fn interactive_at(flags: Seq<bool>, i: int) -> bool {
    0 <= i < flags.len() && flags[i]
}

/// The next launch.
pub open spec fn launch_of(m: RunView, cancelled: bool) -> LaunchView {
    if m.next == m.count {
        LaunchView::Ready {
            stdin: if m.stdin.len() == 0 {
                None
            } else {
                Some(m.stdin)
            },
        }
    } else if cancelled {
        LaunchView::Stop { msg: cancelled_msg() }
    } else {
        LaunchView::Spawn {
            stage: m.next,
            interactive: interactive_at(m.interactive, m.next),
            mode: mode_at(m.modes, m.next),
            relays: m.next + 1 < m.count,
        }
    }
}

/// The run after the process of the next stage was started.
pub open spec fn after_spawn(m: RunView) -> RunView {
    RunView { next: m.next + 1, ..m }
}

/// The run after the process of the next stage could not be started.
pub open spec fn after_spawn_failed(m: RunView) -> RunView {
    RunView { phase: RunPhase::Finished, ..m }
}

/// The text of an error that kept a stage from starting.
pub open spec fn spawn_error(stage: int, error: Seq<char>) -> Seq<char> {
    "stage "@ + decimal(stage as nat) + ": "@ + error
}

/// The run after it was asked whether to go on waiting.
pub open spec fn after_check(m: RunView, cancelled: bool) -> RunView {
    if cancelled {
        RunView { phase: RunPhase::Finished, ..m }
    } else {
        m
    }
}

/// The run after the stage that was awaited has ended.
pub open spec fn after_end(m: RunView, output: Option<OutputView>) -> RunView {
    RunView {
        next: m.next + 1,
        stdin: match output {
            Some(out) => relayed(out, mode_at(m.modes, m.next)),
            None => m.stdin,
        },
        given_up: m.given_up || output is None,
        phase: if m.next + 1 == m.count {
            RunPhase::Finished
        } else {
            RunPhase::Waiting
        },
        ..m
    }
}

/// The cache after the stage that was awaited has ended. Its output is
/// remembered under its command and what the full output of the stage before it
/// passes on, since that is what it is looked up by. So it is only remembered
/// where that output is known. The stage has read the same bytes, as
/// `law_streamed_relay_is_whole_relay` says, unless a line of that output ends
/// inside a control sequence: the stage has read its lines one by one, and a
/// sequence that goes on in the next line was left in them.
pub open spec fn cache_after_end(
    m: RunView,
    cache: CacheMap,
    exit_code: Option<i32>,
    output: Option<OutputView>,
) -> CacheMap {
    match output {
        Some(out) if !m.given_up => cache.insert(
            key_of(m.commands[m.next], m.stdin),
            OutputView { exit_code, ..out },
        ),
        _ => cache,
    }
}

/// What is sent when the stage that was awaited has ended.
pub open spec fn end_msgs(m: RunView, exit_code: Option<i32>) -> Seq<MsgView> {
    seq![MsgView::Done { stage: m.next, exit_code }] + if m.next + 1 == m.count {
        seq![all_done()]
    } else {
        Seq::empty()
    }
}

/// What an optional output stands for.
pub open spec fn opt_output(o: Option<StageOutput>) -> Option<OutputView> {
    match o {
        Some(out) => Some(out@),
        None => None,
    }
}

impl PipelineRun {
    /// The stages that the run is about exist.
    pub open spec fn wf(&self) -> bool {
        &&& self.first_live <= self.next <= self.count <= self.commands@.len()
        &&& self.phase is Serving || self.phase is Waiting ==> self.next < self.count
        &&& self.phase is Launching ==> self.first_live < self.count
    }

    /// Begin a run of the stages up to and including `up_to`. A forced run
    /// serves nothing from the cache. Returns what is to be sent at once.
    pub fn begin(
        commands: Vec<String>,
        up_to: usize,
        force: bool,
        output_modes: Vec<OutputMode>,
        interactive_flags: Vec<bool>,
    ) -> (r: (PipelineRun, Vec<StreamMsg>))
        ensures
            r.0.wf(),
            r.0@ == begun(
                strings(commands@),
                output_modes@,
                interactive_flags@,
                up_to as int,
                force,
            ),
            msgs_view(r.1@) == begin_msgs(r.0@),
    {
        let count = stage_count(commands.len(), up_to);
        let mut msgs: Vec<StreamMsg> = Vec::new();
        if count == 0 {
            msgs.push(StreamMsg::AllDone { error: None });
        }
        let run = PipelineRun {
            commands,
            output_modes,
            interactive_flags,
            count,
            phase: if count == 0 {
                RunPhase::Finished
            } else if force {
                RunPhase::Launching
            } else {
                RunPhase::Serving
            },
            next: 0,
            first_live: 0,
            stdin: Vec::new(),
            given_up: false,
        };
        proof {
            assert(strings(run.commands@).len() == run.commands@.len());
            assert(run@ =~= begun(
                strings(commands@),
                output_modes@,
                interactive_flags@,
                up_to as int,
                force,
            ));
            assert(msgs_view(msgs@) =~= if count == 0 {
                seq![all_done()]
            } else {
                Seq::empty()
            });
        }
        (run, msgs)
    }

    /// Look up the next stage in the cache, unless the run was cancelled.
    /// Returns what is to be sent.
    pub fn serve(&mut self, cache: &ExecutorCache, cancelled: bool) -> (r: Vec<StreamMsg>)
        requires
            old(self).wf(),
            old(self).phase is Serving,
            cache.wf(),
        ensures
            final(self).wf(),
            final(self)@ == after_serve(old(self)@, cache@, cancelled),
            msgs_view(r@) == serve_msgs(old(self)@, cache@, cancelled),
    {
        let ghost before = self@;
        let i = self.next;
        let mut msgs: Vec<StreamMsg> = Vec::new();
        if cancelled {
            msgs.push(StreamMsg::AllDone { error: Some("cancelled".to_owned()) });
            self.phase = RunPhase::Finished;
        } else {
            match cache.lookup(self.commands[i].as_str(), self.stdin.as_slice()) {
                Some(hit) => {
                    msgs.push(
                        StreamMsg::StageUpdate {
                            stage_idx: i,
                            new_stdout: copy_bytes(hit.stdout.as_slice()),
                            new_stderr: copy_bytes(hit.stderr.as_slice()),
                            new_combined: copy_lines(&hit.combined),
                        },
                    );
                    msgs.push(StreamMsg::StageDone { stage_idx: i, exit_code: hit.exit_code });
                    let mode = mode_of(self.output_modes.as_slice(), i);
                    self.stdin = extract_relay_bytes(hit, mode);
                    self.next = i + 1;
                    if self.next == self.count {
                        msgs.push(StreamMsg::AllDone { error: None });
                        self.phase = RunPhase::Finished;
                    }
                },
                None => {
                    self.phase = RunPhase::Launching;
                    self.first_live = i;
                },
            }
        }
        proof {
            assert(self@ =~= after_serve(before, cache@, cancelled));
            assert(msgs_view(msgs@) =~= serve_msgs(before, cache@, cancelled));
        }
        msgs
    }

    /// Decide the next launch.
    pub fn launch(&mut self, cancelled: bool) -> (r: Launch)
        requires
            old(self).wf(),
            old(self).phase is Launching,
        ensures
            final(self).wf(),
            final(self)@ == after_launch(old(self)@, cancelled),
            r@ == launch_of(old(self)@, cancelled),
    {
        let i = self.next;
        if i == self.count {
            self.phase = RunPhase::Waiting;
            self.next = self.first_live;
            let stdin = if self.stdin.len() == 0 {
                None
            } else {
                Some(copy_bytes(self.stdin.as_slice()))
            };
            Launch::Ready { stdin }
        } else if cancelled {
            self.phase = RunPhase::Finished;
            Launch::Stop { msg: StreamMsg::AllDone { error: Some("cancelled".to_owned()) } }
        } else {
            let interactive = i < self.interactive_flags.len() && self.interactive_flags[i];
            let mode = mode_of(self.output_modes.as_slice(), i);
            Launch::Spawn { stage_idx: i, interactive, mode, relays: i + 1 < self.count }
        }
    }

    /// The process of the stage that was to be launched has started.
    pub fn spawned(&mut self)
        requires
            old(self).wf(),
            old(self).phase is Launching,
            old(self).next < old(self).count,
        ensures
            final(self).wf(),
            final(self)@ == after_spawn(old(self)@),
    {
        self.next = self.next + 1;
    }

    /// The process of the stage that was to be launched could not be started.
    /// All others are to be stopped, and the message sent.
    pub fn spawn_failed(&mut self, error: &str) -> (r: StreamMsg)
        requires
            old(self).wf(),
            old(self).phase is Launching,
            old(self).next < old(self).count,
        ensures
            final(self).wf(),
            final(self)@ == after_spawn_failed(old(self)@),
            r@ == (MsgView::AllDone { error: Some(spawn_error(old(self)@.next, error@)) }),
    {
        let mut text = "stage ".to_owned();
        push_decimal(&mut text, self.next as u64);
        text.append(": ");
        text.append(error);
        self.phase = RunPhase::Finished;
        StreamMsg::AllDone { error: Some(text) }
    }

    /// Decide whether to go on waiting for the processes. If the run was
    /// cancelled, all of them are to be stopped, and the message sent.
    pub fn check_cancelled(&mut self, cancelled: bool) -> (r: Option<StreamMsg>)
        requires
            old(self).wf(),
            old(self).phase is Waiting,
        ensures
            final(self).wf(),
            final(self)@ == after_check(old(self)@, cancelled),
            (match r {
                Some(msg) => cancelled && msg@ == cancelled_msg(),
                None => !cancelled,
            }),
    {
        if cancelled {
            self.phase = RunPhase::Finished;
            Some(StreamMsg::AllDone { error: Some("cancelled".to_owned()) })
        } else {
            None
        }
    }

    /// The process of the next stage has ended. `output` is what it put out,
    /// or `None` if that was given up. Returns what is to be sent.
    pub fn stage_ended(
        &mut self,
        cache: &mut ExecutorCache,
        exit_code: Option<i32>,
        output: Option<StageOutput>,
    ) -> (r: Vec<StreamMsg>)
        requires
            old(self).wf(),
            old(self).phase is Waiting,
            old(cache).wf(),
            output matches Some(out) ==> out.wf(),
        ensures
            final(self).wf(),
            final(cache).wf(),
            final(self)@ == after_end(old(self)@, opt_output(output)),
            final(cache)@ == cache_after_end(
                old(self)@,
                old(cache)@,
                exit_code,
                opt_output(output),
            ),
            msgs_view(r@) == end_msgs(old(self)@, exit_code),
    {
        let ghost before = self@;
        let i = self.next;
        let mut msgs: Vec<StreamMsg> = Vec::new();
        match output {
            Some(out) => {
                let mut out = out;
                out.set_exit_code(exit_code);
                let mode = mode_of(self.output_modes.as_slice(), i);
                let relay = extract_relay_bytes(&out, mode);
                if !self.given_up {
                    cache.store(self.commands[i].as_str(), self.stdin.as_slice(), out);
                }
                self.stdin = relay;
            },
            None => {
                self.given_up = true;
            },
        }
        msgs.push(StreamMsg::StageDone { stage_idx: i, exit_code });
        self.next = i + 1;
        if self.next == self.count {
            msgs.push(StreamMsg::AllDone { error: None });
            self.phase = RunPhase::Finished;
        }
        proof {
            assert(self@ =~= after_end(before, opt_output(output)));
            assert(msgs_view(msgs@) =~= end_msgs(before, exit_code));
        }
        msgs
    }
}

} // verus!

//! The course of a run, step by step.
use vstd::prelude::*;
use vstd::utf8::{decode_utf8, valid_utf8};

use crate::ansi::strip_bytes;
use crate::bytes::{lemma_count_concat, shown_text};
use crate::executor::batch::{gives, stage_ran, stage_stdin};
use crate::executor::cache::{prefilled, sha256_digest, CacheMap, FillView, KeyView};
use crate::executor::output::{
    combined_text, joined, lemma_joined_concat, lemma_stream_bytes_concat, line_total, output_text,
    relayed, stream_bytes, LineView, OutputMode, OutputView, StageOutput,
};
use crate::executor::stream::{
    after_check, after_end, after_flush_due, after_launch, after_line, after_serve, after_spawn,
    after_spawn_failed, begin_msgs, begun, cache_after_end, end_msgs, launch_of, line_relay, report,
    report_due, reported, serve_msgs, spawn_error, CollectorView, LaunchView, MsgView, RunPhase,
    RunView,
};
use crate::number::decimal;

verus! {

// ---------------------------------------------------------------------------
// The start
// ---------------------------------------------------------------------------

/// How many stages there are up to and including `up_to`.
pub open spec fn stages_up_to(len: int, up_to: int) -> int {
    if up_to < len {
        up_to + 1
    } else {
        len
    }
}

/// The run after `k` processes were started one after the other.
pub open spec fn launched(m: RunView, k: nat) -> RunView
    decreases k,
{
    if k == 0 {
        m
    } else {
        after_spawn(after_launch(launched(m, (k - 1) as nat), false))
    }
}

/// What is to be done for stage `k` of `n`: start it, in the shell and with the
/// stream that are set for it, and with a pipe to the next stage unless it is
/// the last one.
pub open spec fn starts_stage(
    l: LaunchView,
    modes: Seq<OutputMode>,
    interactive: Seq<bool>,
    k: int,
    n: int,
) -> bool {
    l matches LaunchView::Spawn { stage, interactive: i, mode, relays } && {
        &&& stage == k
        &&& i == (k < interactive.len() && interactive[k])
        &&& k < modes.len() ==> mode == modes[k]
        &&& k >= modes.len() ==> mode == OutputMode::Stdout
        &&& relays == (k < n - 1)
    }
}

/// A forced run takes nothing from the cache: it begins with launching the first
/// stage, whatever is remembered, and goes on with every stage in turn; the
/// first of them reads nothing, and the ends of all of them are awaited from the
/// first one on. Nothing is sent before a stage has put something out.
pub proof fn law_forced_run_starts_every_stage(
    commands: Seq<Seq<char>>,
    modes: Seq<OutputMode>,
    interactive: Seq<bool>,
    up_to: int,
    k: nat,
)
    requires
        commands.len() > 0,
        up_to >= 0,
    ensures
        ({
            let m = begun(commands, modes, interactive, up_to, true);
            let n = stages_up_to(commands.len() as int, up_to);
            &&& m.phase == RunPhase::Launching
            &&& m.next == 0
            &&& m.first_live == 0
            &&& m.count == n
            &&& m.commands == commands
            &&& begin_msgs(m).len() == 0
            &&& k <= n ==> launched(m, k) == (RunView { next: k as int, ..m })
            &&& k < n ==> starts_stage(
                launch_of(launched(m, k), false),
                modes,
                interactive,
                k as int,
                n,
            )
            &&& k < n ==> after_launch(launched(m, k), false) == launched(m, k)
            &&& k == n ==> launch_of(launched(m, k), false) == (LaunchView::Ready { stdin: None })
            &&& k == n ==> after_launch(launched(m, k), false) == (RunView {
                phase: RunPhase::Waiting,
                next: 0,
                ..m
            })
        }),
    decreases k,
{
    if k > 0 {
        law_forced_run_starts_every_stage(commands, modes, interactive, up_to, (k - 1) as nat);
    }
}

/// Once a run launches stages, it never asks the cache again: no step leads back
/// to serving.
pub proof fn law_launched_run_serves_nothing(
    m: RunView,
    cancelled: bool,
    output: Option<OutputView>,
)
    requires
        !(m.phase is Serving),
    ensures
        !(after_launch(m, cancelled).phase is Serving),
        !(after_spawn(m).phase is Serving),
        !(after_spawn_failed(m).phase is Serving),
        !(after_check(m, cancelled).phase is Serving),
        !(after_end(m, output).phase is Serving),
{
}

/// A run that is not forced asks the cache from the first stage on; a run
/// without stages is over at once, and says so.
pub proof fn law_unforced_run_asks_the_cache(
    commands: Seq<Seq<char>>,
    modes: Seq<OutputMode>,
    interactive: Seq<bool>,
    up_to: int,
    force: bool,
)
    requires
        up_to >= 0,
    ensures
        ({
            let m = begun(commands, modes, interactive, up_to, force);
            &&& m.commands == commands && m.modes == modes && m.interactive == interactive
            &&& m.next == 0 && m.first_live == 0 && m.stdin.len() == 0 && !m.given_up
            &&& m.count == stages_up_to(commands.len() as int, up_to)
            &&& commands.len() > 0 && !force ==> m.phase == RunPhase::Serving && begin_msgs(
                m,
            ).len() == 0
            &&& commands.len() == 0 ==> m.phase == RunPhase::Finished && begin_msgs(m) == seq![
                MsgView::AllDone { error: None },
            ]
        }),
{
}

// ---------------------------------------------------------------------------
// Serving
// ---------------------------------------------------------------------------

/// What a stage with this output passes on: the bytes of the stream that is
/// set for it, without control sequences.
pub open spec fn passes_on(out: OutputView, modes: Seq<OutputMode>, stage: int) -> Seq<u8> {
    if stage >= modes.len() || modes[stage] == OutputMode::Stdout {
        strip_bytes(out.stdout)
    } else if modes[stage] == OutputMode::Stderr {
        strip_bytes(out.stderr)
    } else {
        strip_bytes(joined(out.combined))
    }
}

/// A stage whose command has already run on the same input is not run again: its
/// output and exit code are sent, and the next stage is looked up with what it
/// passes on. After the last stage the run is over. At the first stage that is
/// not remembered the processes start, and nothing is sent.
pub proof fn law_serving(m: RunView, cache: CacheMap)
    requires
        m.phase is Serving,
        0 <= m.next < m.count <= m.commands.len(),
    ensures
        ({
            let key = KeyView {
                command: m.commands[m.next],
                stdin_hash: sha256_digest(m.stdin),
            };
            let out = cache[key];
            let is_last = m.next == m.count - 1;
            let r = after_serve(m, cache, false);
            let sent = serve_msgs(m, cache, false);
            &&& cache.contains_key(key) ==> {
                &&& sent.len() == (if is_last {
                    3int
                } else {
                    2
                })
                &&& sent[0] == (MsgView::Update {
                    stage: m.next,
                    stdout: out.stdout,
                    stderr: out.stderr,
                    combined: out.combined,
                })
                &&& sent[1] == (MsgView::Done { stage: m.next, exit_code: out.exit_code })
                &&& is_last ==> sent[2] == (MsgView::AllDone { error: None })
                &&& r == (RunView {
                    next: m.next + 1,
                    stdin: passes_on(out, m.modes, m.next),
                    phase: if is_last {
                        RunPhase::Finished
                    } else {
                        RunPhase::Serving
                    },
                    ..m
                })
            }
            &&& !cache.contains_key(key) ==> sent.len() == 0 && r == (RunView {
                phase: RunPhase::Launching,
                first_live: m.next,
                ..m
            })
        }),
{
}

// ---------------------------------------------------------------------------
// Launching, waiting and cancelling
// ---------------------------------------------------------------------------

/// Processes are started from the first stage that was not served on, each in
/// the shell and with the stream that are set for it; when all are running, the
/// first of them gets what the stage before it passes on, if that is anything.
pub proof fn law_launching(m: RunView)
    requires
        m.phase is Launching,
        0 <= m.first_live <= m.next <= m.count <= m.commands.len(),
    ensures
        m.next < m.count ==> starts_stage(
            launch_of(m, false),
            m.modes,
            m.interactive,
            m.next,
            m.count,
        ) && after_launch(m, false) == m,
        m.next == m.count ==> after_launch(m, false) == (RunView {
            phase: RunPhase::Waiting,
            next: m.first_live,
            ..m
        }),
        m.next == m.count && m.stdin.len() == 0 ==> launch_of(m, false) == (LaunchView::Ready {
            stdin: None,
        }),
        m.next == m.count && m.stdin.len() > 0 ==> launch_of(m, false) == (LaunchView::Ready {
            stdin: Some(m.stdin),
        }),
        after_spawn(m) == (RunView { next: m.next + 1, ..m }),
{
}

/// A stage that cannot be started ends the run, with an error that names the
/// stage by its number and gives the reason.
pub proof fn law_failed_start_ends_run(m: RunView, reason: Seq<char>)
    requires
        0 <= m.next,
    ensures
        after_spawn_failed(m) == (RunView { phase: RunPhase::Finished, ..m }),
        spawn_error(m.next, reason) == seq!['s', 't', 'a', 'g', 'e', ' '] + decimal(m.next as nat)
            + seq![':', ' '] + reason,
{
    reveal_strlit("stage ");
    reveal_strlit(": ");
    assert("stage "@ =~= seq!['s', 't', 'a', 'g', 'e', ' ']);
    assert(": "@ =~= seq![':', ' ']);
}

/// A run that is cancelled while stages are served, launched or awaited is over,
/// and the one thing that is sent is that it was cancelled. One that has only
/// the ends of its processes to await yet is not stopped in launching.
pub proof fn law_cancelling(m: RunView, cache: CacheMap)
    ensures
        ({
            let over = RunView { phase: RunPhase::Finished, ..m };
            let msg = MsgView::AllDone {
                error: Some(seq!['c', 'a', 'n', 'c', 'e', 'l', 'l', 'e', 'd']),
            };
            &&& after_serve(m, cache, true) == over && serve_msgs(m, cache, true) == seq![msg]
            &&& m.next < m.count ==> after_launch(m, true) == over && launch_of(m, true) == (
            LaunchView::Stop { msg })
            &&& m.next == m.count ==> after_launch(m, true) == after_launch(m, false) && launch_of(
                m,
                true,
            ) == launch_of(m, false)
            &&& after_check(m, true) == over
            &&& after_check(m, false) == m
        }),
{
    reveal_strlit("cancelled");
    assert("cancelled"@ =~= seq!['c', 'a', 'n', 'c', 'e', 'l', 'l', 'e', 'd']);
}

/// When a stage has ended, its exit code is sent, and after the last one that
/// the run is over. Its output is remembered with that exit code, under its
/// command and its input; nothing else of the cache changes. The next stage is
/// awaited with what it passes on. Once an output was given up, nothing is
/// remembered any more.
pub proof fn law_stage_ends(
    m: RunView,
    cache: CacheMap,
    exit_code: Option<i32>,
    out: OutputView,
    other: KeyView,
)
    requires
        m.phase is Waiting,
        0 <= m.next < m.count <= m.commands.len(),
    ensures
        ({
            let is_last = m.next == m.count - 1;
            let key = KeyView {
                command: m.commands[m.next],
                stdin_hash: sha256_digest(m.stdin),
            };
            let sent = end_msgs(m, exit_code);
            let r = after_end(m, Some(out));
            let lost = after_end(m, None);
            let after = cache_after_end(m, cache, exit_code, Some(out));
            let phase = if is_last {
                RunPhase::Finished
            } else {
                RunPhase::Waiting
            };
            &&& sent.len() == (if is_last {
                2int
            } else {
                1
            })
            &&& sent[0] == (MsgView::Done { stage: m.next, exit_code })
            &&& is_last ==> sent[1] == (MsgView::AllDone { error: None })
            &&& r == (RunView {
                next: m.next + 1,
                stdin: passes_on(out, m.modes, m.next),
                phase,
                ..m
            })
            &&& lost == (RunView { next: m.next + 1, given_up: true, phase, ..m })
            &&& !m.given_up ==> after.contains_key(key) && after[key] == (OutputView {
                exit_code,
                ..out
            })
            &&& other != key ==> after.contains_key(other) == cache.contains_key(other)
            &&& other != key && cache.contains_key(other) ==> after[other] == cache[other]
            &&& m.given_up ==> after == cache
            &&& cache_after_end(m, cache, exit_code, None) == cache
        }),
{
}

/// Entries that are put into the cache beforehand are found there under their
/// command and input; one put in later takes the place of an equal one.
pub proof fn law_filling_the_cache(cache: CacheMap, fills: Seq<FillView>, e: FillView)
    ensures
        ({
            let key = KeyView { command: e.command, stdin_hash: sha256_digest(e.stdin) };
            prefilled(cache, fills.push(e), fills.len() as int + 1) == prefilled(
                cache,
                fills,
                fills.len() as int,
            ).insert(key, e.output)
        }),
        prefilled(cache, Seq::empty(), 0) == cache,
{
    lemma_prefilled_front(cache, fills, e, fills.len() as int);
}

proof fn lemma_prefilled_front(cache: CacheMap, fills: Seq<FillView>, e: FillView, n: int)
    requires
        n <= fills.len(),
    ensures
        prefilled(cache, fills.push(e), n) == prefilled(cache, fills, n),
    decreases n,
{
    if n > 0 {
        lemma_prefilled_front(cache, fills, e, n - 1);
    }
}

// ---------------------------------------------------------------------------
// Running one stage after the other
// ---------------------------------------------------------------------------

/// One stage: with `force`, or where nothing is remembered of its command and
/// input, it is executed and remembered; else what is remembered is taken, and
/// nothing is executed.
pub proof fn law_stage_by_stage<E, F: Fn(&str, &[u8]) -> Result<StageOutput, E>>(
    f: F,
    before: CacheMap,
    after: CacheMap,
    command: Seq<char>,
    stdin: Seq<u8>,
    force: bool,
    out: OutputView,
)
    requires
        stage_ran::<E, F>(f, before, after, command, stdin, force, out),
    ensures
        ({
            let key = KeyView { command, stdin_hash: sha256_digest(stdin) };
            &&& force || !before.contains_key(key) ==> gives::<E, F>(f, command, stdin, out)
                && after == before.insert(key, out)
            &&& !force && before.contains_key(key) ==> out == before[key] && after == before
        }),
{
}

/// The first stage reads nothing; each other one reads what the stage in front
/// of it passes on.
pub proof fn law_what_stages_read(outs: Seq<OutputView>, modes: Seq<OutputMode>, i: int)
    requires
        0 <= i <= outs.len(),
    ensures
        i == 0 ==> stage_stdin(outs, modes, i).len() == 0,
        i > 0 ==> stage_stdin(outs, modes, i) == passes_on(outs[i - 1], modes, i - 1),
{
}

// ---------------------------------------------------------------------------
// Lines as they come in
// ---------------------------------------------------------------------------

/// A line from stdout is added to stdout and to both together, and is reported
/// there; likewise one from stderr. It goes on to the next stage, without
/// control sequences, if there is one and the line belongs to the stream that is
/// set.
pub proof fn law_line_comes_in(c: CollectorView, content: Seq<u8>)
    ensures
        ({
            let out = LineView { content, is_stderr: false };
            let err = LineView { content, is_stderr: true };
            let after_out = after_line(c, out);
            let after_err = after_line(c, err);
            &&& after_out == (CollectorView {
                stdout: c.stdout + content,
                combined: c.combined.push(out),
                pend_out: c.pend_out + content,
                pend_comb: c.pend_comb.push(out),
                ..c
            })
            &&& after_err == (CollectorView {
                stderr: c.stderr + content,
                combined: c.combined.push(err),
                pend_err: c.pend_err + content,
                pend_comb: c.pend_comb.push(err),
                ..c
            })
            &&& line_relay(c, out) == (if c.relays && c.mode != OutputMode::Stderr {
                Some(strip_bytes(content))
            } else {
                None
            })
            &&& line_relay(c, err) == (if c.relays && c.mode != OutputMode::Stdout {
                Some(strip_bytes(content))
            } else {
                None
            })
        }),
{
}

/// A report holds what has come in since the last one, and is only made if
/// anything has; after it nothing is left to report, and what has come in on the
/// whole stays.
pub proof fn law_reporting(c: CollectorView)
    ensures
        reported(c).pend_out.len() == 0,
        reported(c).pend_err.len() == 0,
        reported(c).pend_comb.len() == 0,
        reported(c).stdout == c.stdout && reported(c).stderr == c.stderr && reported(c).combined
            == c.combined,
        report(reported(c)) is None,
        c.pend_out.len() == 0 && c.pend_err.len() == 0 && c.pend_comb.len() == 0 ==> report(
            c,
        ) is None,
        c.pend_out.len() > 0 || c.pend_err.len() > 0 || c.pend_comb.len() > 0 ==> report(c)
            == Some(
            MsgView::Update {
                stage: c.stage,
                stdout: c.pend_out,
                stderr: c.pend_err,
                combined: c.pend_comb,
            },
        ),
{
}

/// A report is due a tenth of a second after the last one, and not before.
pub proof fn law_reports_are_spaced_out(c: CollectorView, elapsed_millis: u64)
    ensures
        elapsed_millis < 100 ==> after_flush_due(c, elapsed_millis) == c,
        elapsed_millis < 100 ==> report_due(c, elapsed_millis) is None,
        elapsed_millis >= 100 ==> after_flush_due(c, elapsed_millis) == reported(c),
        elapsed_millis >= 100 ==> report_due(c, elapsed_millis) == report(c),
{
}

// ---------------------------------------------------------------------------
// What was put out
// ---------------------------------------------------------------------------

/// What an output passes on in each of the three modes, and which text it shows.
pub proof fn law_modes(o: OutputView)
    ensures
        relayed(o, OutputMode::Stdout) == strip_bytes(o.stdout),
        relayed(o, OutputMode::Stderr) == strip_bytes(o.stderr),
        relayed(o, OutputMode::Combined) == strip_bytes(joined(o.combined)),
        output_text(o, OutputMode::Stdout) == o.stdout_text,
        output_text(o, OutputMode::Stderr) == o.stderr_text,
        output_text(o, OutputMode::Combined) == combined_text(
            o.combined,
            o.combined.len() as int,
        ),
{
}

/// Both streams together are their lines in the order in which they came in;
/// each stream is the lines that came from it.
pub proof fn law_streams_are_their_lines(a: Seq<LineView>, b: Seq<LineView>, line: LineView)
    ensures
        joined(a + b) == joined(a) + joined(b),
        joined(seq![line]) == line.content,
        stream_bytes(a + b, line.is_stderr) == stream_bytes(a, line.is_stderr) + stream_bytes(
            b,
            line.is_stderr,
        ),
        stream_bytes(seq![line], line.is_stderr) == line.content,
        stream_bytes(seq![line], !line.is_stderr).len() == 0,
        joined(Seq::empty()).len() == 0,
{
    lemma_joined_concat(a, b);
    lemma_stream_bytes_concat(a, b, line.is_stderr);
    let s = seq![line];
    let none = Seq::<LineView>::empty();
    assert(s.drop_last() =~= none);
    assert(joined(none) =~= Seq::<u8>::empty());
    assert(joined(s) =~= line.content);
    assert(stream_bytes(none, line.is_stderr) =~= Seq::<u8>::empty());
    assert(stream_bytes(none, !line.is_stderr) =~= Seq::<u8>::empty());
    assert(stream_bytes(s, line.is_stderr) =~= line.content);
}

/// The text of both streams together is the text of their lines, in the order in
/// which they came in, whichever stream each came from.
pub proof fn law_text_of_lines(a: Seq<LineView>, b: Seq<LineView>, line: LineView)
    ensures
        combined_text(a + b, (a + b).len() as int) == combined_text(a, a.len() as int)
            + combined_text(b, b.len() as int),
        combined_text(seq![line], 1) == shown_text(line.content),
        combined_text(Seq::empty(), 0).len() == 0,
        valid_utf8(line.content) ==> combined_text(seq![line], 1) == decode_utf8(line.content),
{
    lemma_text_of_more(a, b, b.len() as int);
    reveal_with_fuel(combined_text, 2);
    assert(combined_text(seq![line], 1) =~= shown_text(line.content));
}

proof fn lemma_text_of_first(a: Seq<LineView>, b: Seq<LineView>, n: int)
    requires
        n <= a.len(),
    ensures
        combined_text(a + b, n) == combined_text(a, n),
    decreases n,
{
    if n > 0 {
        lemma_text_of_first(a, b, n - 1);
    }
}

proof fn lemma_text_of_more(a: Seq<LineView>, b: Seq<LineView>, n: int)
    requires
        0 <= n <= b.len(),
    ensures
        combined_text(a + b, a.len() + n) == combined_text(a, a.len() as int) + combined_text(b, n),
    decreases n,
{
    if n == 0 {
        lemma_text_of_first(a, b, a.len() as int);
        assert(combined_text(a, a.len() as int) + combined_text(b, 0) =~= combined_text(
            a,
            a.len() as int,
        ));
    } else {
        lemma_text_of_more(a, b, n - 1);
        assert((a + b)[a.len() + n - 1] == b[n - 1]);
        assert(combined_text(a + b, a.len() + n) =~= combined_text(a, a.len() as int)
            + combined_text(b, n));
    }
}

/// Bytes have as many lines as newlines, and one more if something follows the
/// last newline: a line with its newline adds one, whatever was there before
/// ends in a newline or is nothing.
pub proof fn law_counting_lines(a: Seq<u8>, b: Seq<u8>)
    requires
        forall|i: int| 0 <= i < b.len() ==> b[i] != 0x0a,
    ensures
        line_total(Seq::empty()) == 0,
        a.len() == 0 || a.last() == 0x0a ==> line_total(a + b.push(0x0a)) == line_total(a) + 1,
        a.len() == 0 || a.last() == 0x0a ==> b.len() > 0 ==> line_total(a + b) == line_total(a) + 1,
{
    lemma_no_newlines(b);
    lemma_count_concat(a, b, 0x0a);
    lemma_count_concat(a, b.push(0x0a), 0x0a);
    assert(b.push(0x0a).drop_last() =~= b);
}

proof fn lemma_no_newlines(b: Seq<u8>)
    requires
        forall|i: int| 0 <= i < b.len() ==> b[i] != 0x0a,
    ensures
        crate::bytes::count_of(b, 0x0a) == 0,
    decreases b.len(),
{
    if b.len() > 0 {
        lemma_no_newlines(b.drop_last());
    }
}

} // verus!

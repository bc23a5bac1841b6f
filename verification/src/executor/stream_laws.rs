//! What holds of a streaming run as a whole.
use vstd::prelude::*;

use crate::ansi::strip_bytes;
use crate::ansi_laws::{closed_bytes, law_strip_bytes_concat};
use crate::executor::batch::{mode_at, remembered, stage_stdin, stage_total};
use crate::executor::cache::{
    key_of, prefilled, sha256_digest, CacheMap, FillView, KeyView,
};
use crate::executor::output::{
    appended, empty_output, joined, law_empty_is_whole, law_one_piece_is_whole, lemma_joined_concat,
    lemma_stream_bytes_concat, mode_bytes, relayed, stream_bytes, whole_output, LineView,
    OutputMode, OutputView,
};
use crate::executor::stream::{
    after_end, after_line, after_serve, all_done, begun, bytes_if, cache_after_end, has_pending,
    hit_msgs, in_mode, line_relay, new_collector, reported, serve_msgs, CollectorView, MsgView,
    RunPhase, RunView,
};

verus! {

// ---------------------------------------------------------------------------
// Collecting
// ---------------------------------------------------------------------------

/// What happens to a collector.
pub enum CollectorEvent {
    /// A line comes in.
    Line(LineView),
    /// A report is made, if there is anything to report.
    Report,
}

/// Data of one report, or of several together.
#[verifier::ext_equal]
pub struct UpdateView {
    pub stdout: Seq<u8>,
    pub stderr: Seq<u8>,
    pub combined: Seq<LineView>,
}

/// The collector after all events.
pub open spec fn collected(c: CollectorView, events: Seq<CollectorEvent>) -> CollectorView
    decreases events.len(),
{
    if events.len() == 0 {
        c
    } else {
        let before = collected(c, events.drop_last());
        match events.last() {
            CollectorEvent::Line(line) => after_line(before, line),
            CollectorEvent::Report => reported(before),
        }
    }
}

/// The reports made during all events.
pub open spec fn reports(c: CollectorView, events: Seq<CollectorEvent>) -> Seq<UpdateView>
    decreases events.len(),
{
    if events.len() == 0 {
        Seq::empty()
    } else {
        let before = collected(c, events.drop_last());
        let earlier = reports(c, events.drop_last());
        if events.last() is Report && has_pending(before) {
            earlier.push(
                UpdateView {
                    stdout: before.pend_out,
                    stderr: before.pend_err,
                    combined: before.pend_comb,
                },
            )
        } else {
            earlier
        }
    }
}

/// A stage output that starts empty and takes in every report.
pub open spec fn received(updates: Seq<UpdateView>) -> OutputView
    decreases updates.len(),
{
    if updates.len() == 0 {
        empty_output()
    } else {
        let u = updates.last();
        appended(received(updates.drop_last()), u.stdout, u.stderr, u.combined)
    }
}

/// All that has come in is what was reported followed by what is pending, and
/// the two streams are the lines of each.
pub proof fn law_reports_make_up_output(
    stage: int,
    mode: OutputMode,
    relays: bool,
    events: Seq<CollectorEvent>,
)
    ensures
        ({
            let c = collected(new_collector(stage, mode, relays), events);
            let o = received(reports(new_collector(stage, mode, relays), events));
            &&& c.stdout == o.stdout + c.pend_out
            &&& c.stderr == o.stderr + c.pend_err
            &&& c.combined == o.combined + c.pend_comb
            &&& c.stdout == stream_bytes(c.combined, false)
            &&& c.stderr == stream_bytes(c.combined, true)
            &&& c.stage == stage
            &&& c.mode == mode
            &&& c.relays == relays
        }),
    decreases events.len(),
{
    let start = new_collector(stage, mode, relays);
    let c = collected(start, events);
    let o = received(reports(start, events));
    if events.len() == 0 {
        assert(c.stdout =~= o.stdout + c.pend_out);
        assert(c.stderr =~= o.stderr + c.pend_err);
        assert(c.combined =~= o.combined + c.pend_comb);
        assert(c.stdout =~= stream_bytes(c.combined, false));
        assert(c.stderr =~= stream_bytes(c.combined, true));
    } else {
        let earlier = events.drop_last();
        law_reports_make_up_output(stage, mode, relays, earlier);
        let b = collected(start, earlier);
        let p = received(reports(start, earlier));
        match events.last() {
            CollectorEvent::Line(line) => {
                assert(c.stdout =~= o.stdout + c.pend_out);
                assert(c.stderr =~= o.stderr + c.pend_err);
                assert(c.combined =~= o.combined + c.pend_comb);
                assert(c.combined.drop_last() =~= b.combined);
            },
            CollectorEvent::Report => {
                if has_pending(b) {
                    assert(reports(start, events).drop_last() =~= reports(start, earlier));
                } else {
                    assert(b.pend_out =~= Seq::<u8>::empty());
                    assert(b.pend_err =~= Seq::<u8>::empty());
                    assert(b.pend_comb =~= Seq::<LineView>::empty());
                }
                assert(c.stdout =~= o.stdout + c.pend_out);
                assert(c.stderr =~= o.stderr + c.pend_err);
                assert(c.combined =~= o.combined + c.pend_comb);
            },
        }
    }
}

/// A stage that is followed through its reports, the last of which is made when
/// its process has ended, shows what the process has put out, as if that had come
/// in at once: the same bytes, lines, texts and line indexes.
pub proof fn law_reports_show_output(
    stage: int,
    mode: OutputMode,
    relays: bool,
    events: Seq<CollectorEvent>,
)
    requires
        events.len() > 0,
        events.last() is Report,
    ensures
        ({
            let c = collected(new_collector(stage, mode, relays), events);
            let shown = received(reports(new_collector(stage, mode, relays), events));
            shown == whole_output(c.stdout, c.stderr, None, c.combined)
        }),
{
    let start = new_collector(stage, mode, relays);
    let c = collected(start, events);
    let us = reports(start, events);
    law_reports_make_up_output(stage, mode, relays, events);
    assert(received(us).stdout + c.pend_out =~= received(us).stdout);
    assert(received(us).stderr + c.pend_err =~= received(us).stderr);
    assert(received(us).combined + c.pend_comb =~= received(us).combined);
    law_received_is_whole(us);
}

/// Output that came in through any number of reports is the output of what they
/// held together.
pub proof fn law_received_is_whole(us: Seq<UpdateView>)
    ensures
        ({
            let o = received(us);
            o == whole_output(o.stdout, o.stderr, None, o.combined)
        }),
    decreases us.len(),
{
    if us.len() == 0 {
        law_empty_is_whole();
    } else {
        law_received_is_whole(us.drop_last());
    }
}

/// The bytes of the lines that a mode passes on.
pub open spec fn mode_lines(lines: Seq<LineView>, mode: OutputMode) -> Seq<u8> {
    match mode {
        OutputMode::Stdout => stream_bytes(lines, false),
        OutputMode::Stderr => stream_bytes(lines, true),
        OutputMode::Combined => joined(lines),
    }
}

/// What the next stage is sent while the lines come in.
pub open spec fn sent(c: CollectorView, lines: Seq<LineView>) -> Seq<u8>
    decreases lines.len(),
{
    if lines.len() == 0 {
        Seq::empty()
    } else {
        (match line_relay(c, lines[0]) {
            Some(bytes) => bytes,
            None => Seq::empty(),
        }) + sent(c, lines.drop_first())
    }
}

proof fn lemma_mode_lines_first(lines: Seq<LineView>, mode: OutputMode)
    requires
        lines.len() > 0,
    ensures
        mode_lines(lines, mode) == (if in_mode(lines[0], mode) {
            lines[0].content
        } else {
            Seq::empty()
        }) + mode_lines(lines.drop_first(), mode),
{
    let one = seq![lines[0]];
    let rest = lines.drop_first();
    assert(lines =~= one + rest);
    lemma_joined_concat(one, rest);
    lemma_stream_bytes_concat(one, rest, false);
    lemma_stream_bytes_concat(one, rest, true);
    reveal_with_fuel(joined, 2);
    reveal_with_fuel(stream_bytes, 2);
    assert(one.drop_last() =~= Seq::<LineView>::empty());
    assert(joined(one) =~= lines[0].content);
    assert(stream_bytes(one, false) =~= bytes_if(lines[0], false));
    assert(stream_bytes(one, true) =~= bytes_if(lines[0], true));
}

/// What the next stage reads line by line is what it reads when the output is
/// passed on at once, as long as no line ends inside a control sequence.
pub proof fn law_streamed_relay_is_whole_relay(c: CollectorView, lines: Seq<LineView>)
    requires
        c.relays,
        forall|i: int|
            0 <= i < lines.len() && in_mode(lines[i], c.mode) ==> closed_bytes(
                (#[trigger] lines[i]).content,
            ),
    ensures
        sent(c, lines) == strip_bytes(mode_lines(lines, c.mode)),
        forall|exit_code: Option<i32>|
            sent(c, lines) == #[trigger] relayed(
                whole_output(
                    stream_bytes(lines, false),
                    stream_bytes(lines, true),
                    exit_code,
                    lines,
                ),
                c.mode,
            ),
    decreases lines.len(),
{
    if lines.len() == 0 {
        assert(mode_lines(lines, c.mode) =~= Seq::<u8>::empty());
        assert(strip_bytes(mode_lines(lines, c.mode)) =~= Seq::<u8>::empty());
    } else {
        let rest = lines.drop_first();
        assert forall|i: int| 0 <= i < rest.len() && in_mode(rest[i], c.mode) implies closed_bytes(
            (#[trigger] rest[i]).content,
        ) by {
            assert(rest[i] == lines[i + 1]);
        }
        law_streamed_relay_is_whole_relay(c, rest);
        lemma_mode_lines_first(lines, c.mode);
        if in_mode(lines[0], c.mode) {
            assert(closed_bytes(lines[0].content));
            law_strip_bytes_concat(lines[0].content, mode_lines(rest, c.mode));
        } else {
            assert(Seq::<u8>::empty() + mode_lines(rest, c.mode) =~= mode_lines(rest, c.mode));
            assert(sent(c, lines) =~= sent(c, rest));
        }
    }
}

// ---------------------------------------------------------------------------
// Serving from the cache
// ---------------------------------------------------------------------------

/// The run after `k` stages were looked up, none of which was cancelled.
pub open spec fn served(m: RunView, cache: CacheMap, k: nat) -> RunView
    decreases k,
{
    if k == 0 {
        m
    } else {
        after_serve(served(m, cache, (k - 1) as nat), cache, false)
    }
}

/// What is sent while `k` stages are looked up.
pub open spec fn served_msgs(m: RunView, cache: CacheMap, k: nat) -> Seq<MsgView>
    decreases k,
{
    if k == 0 {
        Seq::empty()
    } else {
        served_msgs(m, cache, (k - 1) as nat) + serve_msgs(
            served(m, cache, (k - 1) as nat),
            cache,
            false,
        )
    }
}

/// What is sent for the first `n` outputs when they come from the cache.
pub open spec fn hits_msgs(outs: Seq<OutputView>, n: int) -> Seq<MsgView>
    decreases n,
{
    if n <= 0 {
        Seq::empty()
    } else {
        hits_msgs(outs, n - 1) + hit_msgs(n - 1, outs[n - 1])
    }
}

/// A run that is about to look up its first stage.
pub open spec fn at_start(m: RunView) -> bool {
    &&& m.phase == RunPhase::Serving
    &&& m.next == 0
    &&& m.first_live == 0
    &&& m.stdin == Seq::<u8>::empty()
    &&& 0 < m.count <= m.commands.len()
}

proof fn lemma_served_prefix(m: RunView, cache: CacheMap, outs: Seq<OutputView>, k: nat)
    requires
        at_start(m),
        k <= m.count,
        outs.len() == k,
        remembered(cache, m.commands, m.modes, k as int) == Some(outs),
    ensures
        ({
            let r = served(m, cache, k);
            &&& r.next == k
            &&& r.stdin == stage_stdin(outs, m.modes, k as int)
            &&& r.commands == m.commands
            &&& r.modes == m.modes
            &&& r.interactive == m.interactive
            &&& r.count == m.count
            &&& r.first_live == 0
            &&& r.phase == (if k == m.count {
                RunPhase::Finished
            } else {
                RunPhase::Serving
            })
        }),
        served_msgs(m, cache, k) == hits_msgs(outs, k as int) + (if k == m.count {
            seq![all_done()]
        } else {
            Seq::empty()
        }),
    decreases k,
{
    if k == 0 {
        assert(served_msgs(m, cache, k) =~= hits_msgs(outs, 0) + Seq::<MsgView>::empty());
    } else {
        let j = (k - 1) as nat;
        let before = outs.drop_last();
        lemma_remembered_length(cache, m.commands, m.modes, j as int);
        assert(remembered(cache, m.commands, m.modes, j as int) == Some(before)) by {
            match remembered(cache, m.commands, m.modes, j as int) {
                Some(b) => {
                    assert(outs.drop_last() =~= b);
                },
                None => {},
            }
        }
        lemma_served_prefix(m, cache, before, j);
        assert(outs =~= before.push(outs.last()));
        lemma_hits_msgs_prefix(outs, before, j as int);
        assert(served_msgs(m, cache, k) =~= hits_msgs(outs, k as int) + (if k == m.count {
            seq![all_done()]
        } else {
            Seq::<MsgView>::empty()
        }));
    }
}

proof fn lemma_hits_msgs_prefix(a: Seq<OutputView>, b: Seq<OutputView>, n: int)
    requires
        n <= a.len(),
        n <= b.len(),
        forall|i: int| 0 <= i < n ==> a[i] == b[i],
    ensures
        hits_msgs(a, n) == hits_msgs(b, n),
    decreases n,
{
    if n > 0 {
        lemma_hits_msgs_prefix(a, b, n - 1);
    }
}

proof fn lemma_remembered_length(
    cache: CacheMap,
    commands: Seq<Seq<char>>,
    modes: Seq<OutputMode>,
    n: int,
)
    requires
        n >= 0,
    ensures
        remembered(cache, commands, modes, n) matches Some(outs) ==> outs.len() == n,
    decreases n,
{
    if n > 0 {
        lemma_remembered_length(cache, commands, modes, n - 1);
    }
}

/// A pipeline of which the cache remembers every stage is served from it: for
/// each stage its output and exit code are sent, then that all is done.
/// Nothing is launched.
pub proof fn law_remembered_run_is_served(m: RunView, cache: CacheMap, outs: Seq<OutputView>)
    requires
        at_start(m),
        remembered(cache, m.commands, m.modes, m.count) == Some(outs),
    ensures
        served(m, cache, m.count as nat).phase == RunPhase::Finished,
        served_msgs(m, cache, m.count as nat) == hits_msgs(outs, m.count).push(all_done()),
{
    lemma_remembered_length(cache, m.commands, m.modes, m.count);
    lemma_served_prefix(m, cache, outs, m.count as nat);
    assert(hits_msgs(outs, m.count) + seq![all_done()] =~= hits_msgs(outs, m.count).push(
        all_done(),
    ));
}

/// Stages are served up to the first one that the cache does not remember, and
/// launched from that one on, which reads what the stage before it passes on.
pub proof fn law_launch_starts_at_first_miss(
    m: RunView,
    cache: CacheMap,
    outs: Seq<OutputView>,
    n: nat,
)
    requires
        at_start(m),
        n < m.count,
        remembered(cache, m.commands, m.modes, n as int) == Some(outs),
        remembered(cache, m.commands, m.modes, n + 1int) is None,
    ensures
        ({
            let r = served(m, cache, n + 1);
            &&& r.phase == RunPhase::Launching
            &&& r.first_live == n
            &&& r.next == n
            &&& r.stdin == stage_stdin(outs, m.modes, n as int)
        }),
        served_msgs(m, cache, n + 1) == hits_msgs(outs, n as int),
{
    lemma_remembered_length(cache, m.commands, m.modes, n as int);
    lemma_served_prefix(m, cache, outs, n);
    assert(served_msgs(m, cache, n + 1) =~= hits_msgs(outs, n as int));
}

/// A stage output that starts empty and takes in what is sent for a stage served
/// from the cache has the bytes, lines and exit code that were remembered.
pub proof fn law_hit_shows_remembered_output(out: OutputView)
    ensures
        ({
            let shown = OutputView {
                exit_code: out.exit_code,
                ..appended(empty_output(), out.stdout, out.stderr, out.combined)
            };
            shown == whole_output(out.stdout, out.stderr, out.exit_code, out.combined)
        }),
{
    law_one_piece_is_whole(out.stdout, out.stderr, out.combined);
}

// ---------------------------------------------------------------------------
// Remembering what ran
// ---------------------------------------------------------------------------

/// How a stage that was launched has ended.
pub struct EndView {
    pub exit_code: Option<i32>,
    pub output: OutputView,
}

/// The output of a stage that has ended, with its exit code.
pub open spec fn ended_output(e: EndView) -> OutputView {
    OutputView { exit_code: e.exit_code, ..e.output }
}

/// The run after stages have ended.
pub open spec fn after_ends(m: RunView, ends: Seq<EndView>) -> RunView
    decreases ends.len(),
{
    if ends.len() == 0 {
        m
    } else {
        after_end(after_ends(m, ends.drop_last()), Some(ends.last().output))
    }
}

/// The cache after stages have ended.
pub open spec fn cache_after_ends(m: RunView, cache: CacheMap, ends: Seq<EndView>) -> CacheMap
    decreases ends.len(),
{
    if ends.len() == 0 {
        cache
    } else {
        let earlier = ends.drop_last();
        cache_after_end(
            after_ends(m, earlier),
            cache_after_ends(m, cache, earlier),
            ends.last().exit_code,
            Some(ends.last().output),
        )
    }
}

/// The outputs of the stages that were served and of those that have ended.
pub open spec fn all_outputs(served_outs: Seq<OutputView>, ends: Seq<EndView>) -> Seq<OutputView> {
    served_outs + Seq::new(ends.len(), |i: int| ended_output(ends[i]))
}

/// The key of stage `i`.
pub open spec fn stage_key(
    commands: Seq<Seq<char>>,
    modes: Seq<OutputMode>,
    outs: Seq<OutputView>,
    i: int,
) -> KeyView {
    key_of(commands[i], stage_stdin(outs, modes, i))
}

proof fn lemma_after_ends(
    m: RunView,
    cache: CacheMap,
    served_outs: Seq<OutputView>,
    ends: Seq<EndView>,
)
    requires
        !m.given_up,
        m.first_live == m.next,
        m.next == served_outs.len(),
        m.next + ends.len() <= m.count <= m.commands.len(),
        m.stdin == stage_stdin(served_outs, m.modes, m.next),
        remembered(cache, m.commands, m.modes, m.next) == Some(served_outs),
        forall|i: int, j: int|
            0 <= i < j < m.next + ends.len() ==> #[trigger] stage_key(
                m.commands,
                m.modes,
                all_outputs(served_outs, ends),
                i,
            ) != #[trigger] stage_key(m.commands, m.modes, all_outputs(served_outs, ends), j),
    ensures
        ({
            let outs = all_outputs(served_outs, ends);
            let r = after_ends(m, ends);
            let after = cache_after_ends(m, cache, ends);
            &&& r.next == m.next + ends.len()
            &&& r.modes == m.modes
            &&& r.commands == m.commands
            &&& r.count == m.count
            &&& !r.given_up
            &&& r.stdin == stage_stdin(outs, m.modes, r.next)
            &&& outs.len() == r.next
            &&& forall|i: int|
                0 <= i < r.next ==> after.contains_key(
                    #[trigger] stage_key(m.commands, m.modes, outs, i),
                ) && after[stage_key(m.commands, m.modes, outs, i)] == outs[i]
        }),
    decreases ends.len(),
{
    let outs = all_outputs(served_outs, ends);
    let r = after_ends(m, ends);
    let after = cache_after_ends(m, cache, ends);
    if ends.len() == 0 {
        assert(outs =~= served_outs);
        lemma_remembered_keys(cache, m.commands, m.modes, served_outs, m.next);
    } else {
        let earlier = ends.drop_last();
        let outs0 = all_outputs(served_outs, earlier);
        assert(outs =~= outs0.push(ended_output(ends.last())));
        assert forall|i: int| 0 <= i < m.next + ends.len() implies #[trigger] stage_key(
            m.commands,
            m.modes,
            outs0,
            i,
        ) == stage_key(m.commands, m.modes, outs, i) by {}
        assert forall|i: int, j: int| 0 <= i < j < m.next + earlier.len() implies #[trigger]
            stage_key(m.commands, m.modes, outs0, i) != #[trigger] stage_key(
            m.commands,
            m.modes,
            outs0,
            j,
        ) by {
            assert(stage_key(m.commands, m.modes, outs, i) != stage_key(
                m.commands,
                m.modes,
                outs,
                j,
            ));
        }
        lemma_after_ends(m, cache, served_outs, earlier);
        let r0 = after_ends(m, earlier);
        let last = r0.next;
        assert(mode_bytes(ends.last().output, mode_at(m.modes, last)) == mode_bytes(
            ended_output(ends.last()),
            mode_at(m.modes, last),
        ));
        assert(stage_key(m.commands, m.modes, outs, last) == key_of(
            r0.commands[r0.next],
            r0.stdin,
        ));
        assert forall|i: int| 0 <= i < r.next implies after.contains_key(
            #[trigger] stage_key(m.commands, m.modes, outs, i),
        ) && after[stage_key(m.commands, m.modes, outs, i)] == outs[i] by {
            if i < last {
                assert(stage_key(m.commands, m.modes, outs0, i) == stage_key(
                    m.commands,
                    m.modes,
                    outs,
                    i,
                ));
                assert(stage_key(m.commands, m.modes, outs, i) != stage_key(
                    m.commands,
                    m.modes,
                    outs,
                    last,
                ));
            }
        }
    }
}

proof fn lemma_remembered_keys(
    cache: CacheMap,
    commands: Seq<Seq<char>>,
    modes: Seq<OutputMode>,
    outs: Seq<OutputView>,
    n: int,
)
    requires
        n >= 0,
        remembered(cache, commands, modes, n) == Some(outs),
    ensures
        outs.len() == n,
        forall|i: int|
            0 <= i < n ==> cache.contains_key(#[trigger] stage_key(commands, modes, outs, i))
                && cache[stage_key(commands, modes, outs, i)] == outs[i],
    decreases n,
{
    lemma_remembered_length(cache, commands, modes, n);
    if n > 0 {
        lemma_remembered_length(cache, commands, modes, n - 1);
        let before = remembered(cache, commands, modes, n - 1)->0;
        lemma_remembered_keys(cache, commands, modes, before, n - 1);
        assert(outs.drop_last() =~= before);
        assert forall|i: int| 0 <= i < n implies cache.contains_key(
            #[trigger] stage_key(commands, modes, outs, i),
        ) && cache[stage_key(commands, modes, outs, i)] == outs[i] by {
            assert(stage_key(commands, modes, outs, i) == stage_key(commands, modes, before, i));
        }
    }
}

proof fn lemma_keys_remembered(
    cache: CacheMap,
    commands: Seq<Seq<char>>,
    modes: Seq<OutputMode>,
    outs: Seq<OutputView>,
    n: int,
)
    requires
        0 <= n <= outs.len(),
        forall|i: int|
            0 <= i < n ==> cache.contains_key(#[trigger] stage_key(commands, modes, outs, i))
                && cache[stage_key(commands, modes, outs, i)] == outs[i],
    ensures
        remembered(cache, commands, modes, n) == Some(outs.take(n)),
    decreases n,
{
    if n == 0 {
        assert(outs.take(0) =~= Seq::<OutputView>::empty());
    } else {
        lemma_keys_remembered(cache, commands, modes, outs, n - 1);
        assert(stage_stdin(outs.take(n - 1), modes, n - 1) == stage_stdin(outs, modes, n - 1));
        assert(cache.contains_key(stage_key(commands, modes, outs, n - 1)));
        assert(outs.take(n) =~= outs.take(n - 1).push(outs[n - 1]));
    }
}

/// When every launched stage has ended with its output, the cache remembers the
/// whole pipeline, so that the same run again is served from it. Left out are
/// pipelines in which a command occurs twice with the same input: of these the
/// cache keeps the output of the later stage.
pub proof fn law_finished_run_is_remembered(
    m: RunView,
    cache: CacheMap,
    served_outs: Seq<OutputView>,
    ends: Seq<EndView>,
)
    requires
        m.phase == RunPhase::Waiting,
        !m.given_up,
        m.first_live == m.next,
        m.next == served_outs.len(),
        m.next + ends.len() == m.count,
        m.count <= m.commands.len(),
        m.stdin == stage_stdin(served_outs, m.modes, m.next),
        remembered(cache, m.commands, m.modes, m.next) == Some(served_outs),
        forall|i: int, j: int|
            0 <= i < j < m.count ==> #[trigger] stage_key(
                m.commands,
                m.modes,
                all_outputs(served_outs, ends),
                i,
            ) != #[trigger] stage_key(m.commands, m.modes, all_outputs(served_outs, ends), j),
    ensures
        remembered(cache_after_ends(m, cache, ends), m.commands, m.modes, m.count) == Some(
            all_outputs(served_outs, ends),
        ),
{
    let outs = all_outputs(served_outs, ends);
    lemma_after_ends(m, cache, served_outs, ends);
    lemma_keys_remembered(
        cache_after_ends(m, cache, ends),
        m.commands,
        m.modes,
        outs,
        m.count,
    );
    assert(outs.take(m.count) =~= outs);
}

/// A pipeline that has run to its end is served from the cache when it is run
/// again: no process is started, and for each stage in order the whole output
/// and the exit code of the first run are sent, then that all is done. Left out
/// are pipelines in which a command occurs twice with the same input, and those
/// in which two different inputs have the same digest.
pub proof fn law_run_again_is_served(
    m: RunView,
    cache: CacheMap,
    served_outs: Seq<OutputView>,
    ends: Seq<EndView>,
    interactive: Seq<bool>,
    up_to: int,
)
    requires
        m.phase == RunPhase::Waiting,
        !m.given_up,
        m.first_live == m.next,
        m.next == served_outs.len(),
        m.next + ends.len() == m.count,
        0 <= up_to,
        0 < m.count == stage_total(m.commands.len(), up_to),
        m.stdin == stage_stdin(served_outs, m.modes, m.next),
        remembered(cache, m.commands, m.modes, m.next) == Some(served_outs),
        ({
            let outs = all_outputs(served_outs, ends);
            forall|i: int, j: int|
                #![trigger stage_stdin(outs, m.modes, i), stage_stdin(outs, m.modes, j)]
                0 <= i < j < m.count ==> {
                    let a = stage_stdin(outs, m.modes, i);
                    let b = stage_stdin(outs, m.modes, j);
                    &&& m.commands[i] != m.commands[j] || a != b
                    &&& a != b ==> sha256_digest(a) != sha256_digest(b)
                }
        }),
    ensures
        ({
            let outs = all_outputs(served_outs, ends);
            let after = cache_after_ends(m, cache, ends);
            let again = begun(m.commands, m.modes, interactive, up_to, false);
            &&& served(again, after, m.count as nat).phase == RunPhase::Finished
            &&& served_msgs(again, after, m.count as nat) == hits_msgs(outs, m.count).push(
                all_done(),
            )
        }),
{
    let outs = all_outputs(served_outs, ends);
    assert forall|i: int, j: int| 0 <= i < j < m.count implies #[trigger] stage_key(
        m.commands,
        m.modes,
        outs,
        i,
    ) != #[trigger] stage_key(m.commands, m.modes, outs, j) by {
        let a = stage_stdin(outs, m.modes, i);
        let b = stage_stdin(outs, m.modes, j);
        assert(m.commands[i] != m.commands[j] || a != b);
    }
    law_finished_run_is_remembered(m, cache, served_outs, ends);
    law_remembered_run_is_served(
        begun(m.commands, m.modes, interactive, up_to, false),
        cache_after_ends(m, cache, ends),
        outs,
    );
}

/// Once the output of a stage was given up, nothing of the run is remembered any
/// more.
pub proof fn law_nothing_is_remembered_after_giving_up(
    m: RunView,
    cache: CacheMap,
    exit_code: Option<i32>,
    output: Option<OutputView>,
    later: Seq<EndView>,
)
    requires
        m.given_up || output is None,
    ensures
        cache_after_end(m, cache, exit_code, output) == cache,
        cache_after_ends(after_end(m, output), cache, later) == cache,
        after_ends(after_end(m, output), later).given_up,
    decreases later.len(),
{
    if later.len() > 0 {
        law_nothing_is_remembered_after_giving_up(m, cache, exit_code, output, later.drop_last());
    }
}

/// What ends is remembered under its own key only: the cache keeps whatever it
/// holds under the keys of other commands.
pub proof fn law_finished_run_keeps_other_commands(
    m: RunView,
    cache: CacheMap,
    ends: Seq<EndView>,
    k: KeyView,
)
    requires
        m.next >= 0,
        m.next + ends.len() <= m.commands.len(),
        forall|i: int| m.next <= i < m.next + ends.len() ==> #[trigger] m.commands[i] != k.command,
    ensures
        cache_after_ends(m, cache, ends).contains_key(k) <==> cache.contains_key(k),
        cache.contains_key(k) ==> cache_after_ends(m, cache, ends)[k] == cache[k],
        after_ends(m, ends).next == m.next + ends.len(),
        after_ends(m, ends).commands == m.commands,
    decreases ends.len(),
{
    if ends.len() > 0 {
        let earlier = ends.drop_last();
        law_finished_run_keeps_other_commands(m, cache, earlier, k);
        let r = after_ends(m, earlier);
        assert(m.commands[r.next] != k.command);
    }
}

// ---------------------------------------------------------------------------
// Going on with what is there
// ---------------------------------------------------------------------------

/// The entries that go on with the outputs `outs` of a pipeline.
pub open spec fn fills_of(
    commands: Seq<Seq<char>>,
    modes: Seq<OutputMode>,
    outs: Seq<OutputView>,
) -> Seq<FillView> {
    Seq::new(
        outs.len(),
        |i: int|
            FillView {
                command: commands[i],
                stdin: stage_stdin(outs, modes, i),
                output: outs[i],
            },
    )
}

proof fn lemma_prefilled_keys(
    cache: CacheMap,
    commands: Seq<Seq<char>>,
    modes: Seq<OutputMode>,
    outs: Seq<OutputView>,
    n: int,
)
    requires
        0 <= n <= outs.len(),
        forall|i: int, j: int|
            0 <= i < j < outs.len() ==> #[trigger] stage_key(commands, modes, outs, i)
                != #[trigger] stage_key(commands, modes, outs, j),
    ensures
        forall|i: int|
            0 <= i < n ==> prefilled(cache, fills_of(commands, modes, outs), n).contains_key(
                #[trigger] stage_key(commands, modes, outs, i),
            ) && prefilled(cache, fills_of(commands, modes, outs), n)[stage_key(
                commands,
                modes,
                outs,
                i,
            )] == outs[i],
    decreases n,
{
    if n > 0 {
        lemma_prefilled_keys(cache, commands, modes, outs, n - 1);
        assert forall|i: int| 0 <= i < n implies prefilled(
            cache,
            fills_of(commands, modes, outs),
            n,
        ).contains_key(#[trigger] stage_key(commands, modes, outs, i)) && prefilled(
            cache,
            fills_of(commands, modes, outs),
            n,
        )[stage_key(commands, modes, outs, i)] == outs[i] by {
            if i < n - 1 {
                assert(stage_key(commands, modes, outs, i) != stage_key(
                    commands,
                    modes,
                    outs,
                    n - 1,
                ));
            }
        }
    }
}

/// Stages whose outputs were put into the cache are served from it, so that
/// their commands are not started again when a stage is added behind them. Left
/// out are pipelines in which a command occurs twice with the same input.
pub proof fn law_pre_filled_stages_are_remembered(
    cache: CacheMap,
    commands: Seq<Seq<char>>,
    modes: Seq<OutputMode>,
    outs: Seq<OutputView>,
)
    requires
        forall|i: int, j: int|
            0 <= i < j < outs.len() ==> #[trigger] stage_key(commands, modes, outs, i)
                != #[trigger] stage_key(commands, modes, outs, j),
    ensures
        remembered(
            prefilled(cache, fills_of(commands, modes, outs), outs.len() as int),
            commands,
            modes,
            outs.len() as int,
        ) == Some(outs),
{
    let n = outs.len() as int;
    lemma_prefilled_keys(cache, commands, modes, outs, n);
    lemma_keys_remembered(
        prefilled(cache, fills_of(commands, modes, outs), n),
        commands,
        modes,
        outs,
        n,
    );
    assert(outs.take(n) =~= outs);
}

} // verus!

//! What becomes of the messages of a run, and what is shown of its output.
use vstd::prelude::*;
use vstd::utf8::{decode_utf8, valid_utf8};

use crate::ansi::{index_of, strip};
use crate::app_model::{
    current_text, editor_scrolled, line_count, msg_received, save_not_done, stderr_map, AppModel,
    ModeView,
};
use crate::bytes::shown_text;
use crate::editor::{scroll_for, EditorView};
use crate::executor::output::{
    combined_text, display_lines, LineView, OutputMode, OutputView,
};
use crate::executor::stream::MsgView;
use crate::key_laws::{is_blank, seen};
use crate::line_flags::{law_one_flag_per_line, line_flags};
use crate::pipeline::StageView;
use crate::search::matches_in;
use crate::text_tools::text_lines;

verus! {

/// The output of a stage so far, which is blank before any has come in.
pub open spec fn is_so_far(m: AppModel, stage: int, o: OutputView) -> bool {
    if stage < m.outputs.len() {
        o == m.outputs[stage]
    } else {
        is_blank(o)
    }
}

/// What a stage puts out is added behind what it has put out so far, in each
/// stream; the text that is shown is that of all its bytes. Other stages keep
/// what they have. When it came in is noted at the stage.
pub proof fn law_output_comes_in(
    m: AppModel,
    stage: int,
    so_far: OutputView,
    stdout: Seq<u8>,
    stderr: Seq<u8>,
    combined: Seq<LineView>,
)
    requires
        m.pipeline.stages.len() > 0,
        stage >= 0,
        is_so_far(m, stage, so_far),
    ensures
        ({
            let r = msg_received(m, MsgView::Update { stage, stdout, stderr, combined });
            let o = r.outputs[stage];
            &&& r.outputs.len() == (if stage < m.outputs.len() {
                m.outputs.len() as int
            } else {
                stage + 1
            })
            &&& o.stdout == so_far.stdout + stdout
            &&& o.stderr == so_far.stderr + stderr
            &&& o.combined == so_far.combined + combined
            &&& o.exit_code == so_far.exit_code
            &&& o.stdout_text == shown_text(o.stdout)
            &&& o.stderr_text == shown_text(o.stderr)
            &&& valid_utf8(o.stdout) ==> o.stdout_text == decode_utf8(o.stdout)
            &&& valid_utf8(o.stderr) ==> o.stderr_text == decode_utf8(o.stderr)
            &&& o.stdout_index == index_of(o.stdout_text)
            &&& o.stderr_index == index_of(o.stderr_text)
            &&& forall|i: int|
                0 <= i < m.outputs.len() && i != stage ==> #[trigger] r.outputs[i] == m.outputs[i]
            &&& forall|i: int|
                m.outputs.len() <= i < stage ==> is_blank(#[trigger] r.outputs[i])
            &&& r == (AppModel { outputs: r.outputs, pipeline: r.pipeline, ..m })
            &&& r.pipeline.selected == m.pipeline.selected
            &&& r.pipeline.stages.len() == m.pipeline.stages.len()
            &&& forall|i: int|
                0 <= i < m.pipeline.stages.len() ==> #[trigger] r.pipeline.stages[i] == (if i
                    == stage {
                    StageView { last_update: Some(m.clock), ..m.pipeline.stages[i] }
                } else {
                    m.pipeline.stages[i]
                })
        }),
{
}

/// The exit code of a stage is noted with its output, and nothing else changes;
/// that of a stage without output is not.
pub proof fn law_exit_code_comes_in(m: AppModel, stage: int, exit_code: Option<i32>)
    ensures
        ({
            let r = msg_received(m, MsgView::Done { stage, exit_code });
            &&& !(0 <= stage < m.outputs.len()) ==> r == m
            &&& 0 <= stage < m.outputs.len() ==> {
                &&& r == (AppModel { outputs: r.outputs, ..m })
                &&& r.outputs == m.outputs.update(
                    stage,
                    OutputView { exit_code, ..m.outputs[stage] },
                )
            }
        }),
{
}

/// After a run nothing is running, and the search is that of the text that is
/// there now. An error is shown, unless it is only that the run was cancelled.
pub proof fn law_run_ends(m: AppModel, error: Option<Seq<char>>)
    requires
        0 <= m.pipeline.selected,
    ensures
        ({
            let r = msg_received(m, MsgView::AllDone { error });
            let cancelled = seq!['c', 'a', 'n', 'c', 'e', 'l', 'l', 'e', 'd'];
            &&& !r.running
            &&& r.outputs == m.outputs && r.pipeline == m.pipeline && r.request == m.request
            &&& r.mode == m.mode
            &&& error is None || error == Some(cancelled) ==> r.error == m.error
            &&& error is Some && error != Some(cancelled) ==> r.error == error
            &&& seen(r).search.query == seen(m).search.query
            &&& seen(r).search.matches == matches_in(seen(m).search.query, strip(current_text(m)))
            &&& seen(r).search.match_idx == 0
            &&& seen(r).scroll == seen(m).scroll && seen(r).output_mode == seen(m).output_mode
            &&& forall|i: int|
                0 <= i < m.views.len() && i != m.pipeline.selected ==> #[trigger] r.views[i]
                    == m.views[i]
        }),
{
    reveal_strlit("cancelled");
    assert("cancelled"@ =~= seq!['c', 'a', 'n', 'c', 'e', 'l', 'l', 'e', 'd']);
}

/// An output that could not be written is an error that says so and why, and
/// nothing else changes.
pub proof fn law_failed_save_is_shown(m: AppModel, reason: Seq<char>)
    ensures
        save_not_done(m, reason) == (AppModel {
            error: Some(
                seq!['S', 'a', 'v', 'e', ' ', 'f', 'a', 'i', 'l', 'e', 'd', ':', ' '] + reason,
            ),
            ..m
        }),
{
    reveal_strlit("Save failed: ");
    assert("Save failed: "@ =~= seq![
        'S',
        'a',
        'v',
        'e',
        ' ',
        'f',
        'a',
        'i',
        'l',
        'e',
        'd',
        ':',
        ' ',
    ]);
}

// ---------------------------------------------------------------------------
// What is shown of it
// ---------------------------------------------------------------------------

/// Lines are told apart by stream only where both are looked at: there is a flag
/// for each line of the text then, and no flag else.
pub proof fn law_flags_are_for_both_streams(m: AppModel)
    requires
        0 <= m.pipeline.selected,
    ensures
        m.pipeline.stages.len() == 0 || m.outputs.len() == 0 || seen(m).output_mode
            != OutputMode::Combined ==> stderr_map(m).len() == 0,
        m.pipeline.stages.len() > 0 && m.outputs.len() > 0 && seen(m).output_mode
            == OutputMode::Combined ==> stderr_map(m).len() == text_lines(current_text(m)).len(),
{
    if m.pipeline.stages.len() > 0 && m.outputs.len() > 0 {
        let i = if m.pipeline.selected < m.outputs.len() {
            m.pipeline.selected
        } else {
            m.outputs.len() - 1
        };
        let lines = m.outputs[i].combined;
        law_one_flag_per_line(lines, lines.len() as int);
    }
}

/// A line is from the stream of the piece in which it starts: a piece that comes
/// in adds its own flag for each line that starts in it, and no flag that was
/// there changes.
pub proof fn law_lines_keep_the_stream_they_start_in(pieces: Seq<LineView>, n: int, i: int)
    requires
        0 < n <= pieces.len(),
    ensures
        ({
            let before = line_flags(pieces, n - 1);
            let after = line_flags(pieces, n);
            &&& after.len() == text_lines(combined_text(pieces, n)).len()
            &&& before.len() <= after.len()
            &&& 0 <= i < before.len() ==> after[i] == before[i]
            &&& before.len() <= i < after.len() ==> after[i] == pieces[n - 1].is_stderr
        }),
        line_flags(pieces, 0).len() == 0,
{
    law_one_flag_per_line(pieces, n);
}

/// The number of lines is that of the output that is looked at, in the stream in
/// which it is; without an output there is none.
pub proof fn law_lines_that_are_seen(m: AppModel)
    requires
        0 <= m.pipeline.selected,
    ensures
        m.pipeline.stages.len() == 0 || m.outputs.len() == 0 ==> line_count(m) == 0,
        m.pipeline.stages.len() > 0 && m.pipeline.selected < m.outputs.len() ==> line_count(m)
            == display_lines(m.outputs[m.pipeline.selected], seen(m).output_mode),
        m.pipeline.stages.len() > 0 && 0 < m.outputs.len() <= m.pipeline.selected ==> line_count(m)
            == display_lines(m.outputs.last(), seen(m).output_mode),
{
}

/// A text that is edited is scrolled only as far as it takes to have the cursor
/// in view, and not at all where it is.
pub proof fn law_editor_scrolls_no_further(m: AppModel, e: EditorView, width: int, pending: bool)
    ensures
        ({
            let col = e.caret.before.len() as int;
            let to = scroll_for(e.scroll_x, col, width);
            let v = EditorView { scroll_x: to, ..e };
            let editing = AppModel { mode: ModeView::Editing { editor: e, pending }, ..m };
            let saving = AppModel { mode: ModeView::Saving(e), ..m };
            let command = AppModel { mode: ModeView::Command(e), ..m };
            &&& e.scroll_x <= col < e.scroll_x + width || width == 0 ==> to == e.scroll_x
            &&& width > 0 && col < e.scroll_x ==> to == col
            &&& width > 0 && col >= e.scroll_x + width ==> to + width == col + 1
            &&& editor_scrolled(editing, width) == (AppModel {
                mode: ModeView::Editing { editor: v, pending },
                ..m
            })
            &&& editor_scrolled(saving, width) == (AppModel { mode: ModeView::Saving(v), ..m })
            &&& editor_scrolled(command, width) == (AppModel { mode: ModeView::Command(v), ..m })
        }),
{
}

} // verus!

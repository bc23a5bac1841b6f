//! What holds of the application as a whole.
use vstd::prelude::*;

use crate::ansi_laws::law_no_lines;
use crate::app_model::{
    at_match, brought_back, current_text, current_view, default_view, edit_cancelled,
    edit_confirmed, event_handled, exec_triggered, fitting, grown, has_output, line_count,
    max_scroll, mode_changed, msg_received, next_match_view, prev_match_view, redone, rows_of,
    scrolled_down, scrolled_up, selected_command, shown_lines, snapshot, stage_deleted,
    stage_inserted, undone, AppModel, ModeView, SnapshotView, ViewView,
};
use crate::executor::output::{
    empty_output, law_one_piece_is_whole, whole_output, OutputMode, OutputView,
};
use crate::executor::stream::{hit_msgs, MsgView};
use crate::keys::Event;
use crate::pipeline_laws::law_remove_undoes_insert;

verus! {

// ---------------------------------------------------------------------------
// Undoing
// ---------------------------------------------------------------------------

/// Whether a snapshot has a mode for each of its stages.
pub open spec fn snapshot_wf(s: SnapshotView) -> bool {
    s.modes.len() == s.pipeline.stages.len()
}

/// Every change of the pipeline can be undone: deleting a stage, inserting one,
/// and giving one another command each leave the pipeline as it was on the undo
/// stack, and nothing to redo.
pub proof fn law_changes_are_noted(m: AppModel, before: bool)
    ensures
        stage_deleted(m).undo == m.undo.push(snapshot(m)),
        stage_deleted(m).redo == Seq::<SnapshotView>::empty(),
        stage_inserted(m, before).undo == m.undo.push(snapshot(m)),
        stage_inserted(m, before).redo == Seq::<SnapshotView>::empty(),
        match m.mode {
            ModeView::Editing { editor, pending } => m.pipeline.selected < m.pipeline.stages.len()
                && selected_command(m) != editor.text() && !pending ==> edit_confirmed(m).undo
                == m.undo.push(snapshot(m)) && edit_confirmed(m).redo
                == Seq::<SnapshotView>::empty(),
            _ => true,
        },
{
}

/// An edit that changes nothing leaves nothing to undo.
pub proof fn law_unchanged_edit_is_not_noted(m: AppModel)
    requires
        match m.mode {
            ModeView::Editing { editor, .. } => editor.text() == selected_command(m),
            _ => false,
        },
    ensures
        edit_confirmed(m) == (AppModel { mode: ModeView::Normal, ..m }),
{
}

/// Undoing a change brings back the pipeline that was there before it, with the
/// stage that was selected and the streams that its stages passed on.
pub proof fn law_undo_restores(m: AppModel, after: AppModel)
    requires
        after.undo == m.undo.push(snapshot(m)),
    ensures
        undone(after).pipeline == m.pipeline,
        snapshot(undone(after)) == snapshot(m),
        undone(after).undo == m.undo,
{
    assert(after.undo.drop_last() =~= m.undo);
    lemma_snapshot_of_restored(after, snapshot(m));
    let u = undone(after);
    assert(u.pipeline == m.pipeline);
    assert(snapshot(u).modes =~= snapshot(m).modes);
}

proof fn lemma_snapshot_of_restored(m: AppModel, s: SnapshotView)
    requires
        snapshot_wf(s),
    ensures
        brought_back(m, s).pipeline == s.pipeline,
        snapshot(brought_back(m, s)).modes == s.modes,
        snapshot(brought_back(m, s)) == s,
        brought_back(m, s).undo == m.undo,
        brought_back(m, s).redo == m.redo,
{
    let b = brought_back(m, s);
    assert(b.views.len() == s.modes.len());
    assert(snapshot(b).modes =~= s.modes);
}

/// Redoing brings back what undoing took away, and leaves both stacks as they
/// were.
pub proof fn law_redo_reverts_undo(m: AppModel)
    requires
        m.undo.len() > 0,
        snapshot_wf(m.undo.last()),
    ensures
        redone(undone(m)).pipeline == m.pipeline,
        snapshot(redone(undone(m))) == snapshot(m),
        redone(undone(m)).undo == m.undo,
        redone(undone(m)).redo == m.redo,
{
    let u = undone(m);
    let s = m.undo.last();
    let base = AppModel { undo: m.undo.drop_last(), redo: m.redo.push(snapshot(m)), ..m };
    lemma_snapshot_of_restored(base, s);
    assert(u.redo == m.redo.push(snapshot(m)));
    assert(u.redo.last() == snapshot(m));
    let base2 = AppModel { redo: u.redo.drop_last(), undo: u.undo.push(snapshot(u)), ..u };
    lemma_snapshot_of_restored(base2, snapshot(m));
    assert(u.redo.drop_last() =~= m.redo);
    assert(m.undo.drop_last().push(s) =~= m.undo);
}

/// Undoing brings back what redoing made again, and leaves both stacks as they
/// were.
pub proof fn law_undo_reverts_redo(m: AppModel)
    requires
        m.redo.len() > 0,
        snapshot_wf(m.redo.last()),
    ensures
        undone(redone(m)).pipeline == m.pipeline,
        snapshot(undone(redone(m))) == snapshot(m),
        undone(redone(m)).undo == m.undo,
        undone(redone(m)).redo == m.redo,
{
    let u = redone(m);
    let s = m.redo.last();
    let base = AppModel { redo: m.redo.drop_last(), undo: m.undo.push(snapshot(m)), ..m };
    lemma_snapshot_of_restored(base, s);
    assert(u.undo.last() == snapshot(m));
    let base2 = AppModel { undo: u.undo.drop_last(), redo: u.redo.push(snapshot(u)), ..u };
    lemma_snapshot_of_restored(base2, snapshot(m));
    assert(u.undo.drop_last() =~= m.undo);
    assert(m.redo.drop_last().push(s) =~= m.redo);
}

/// With nothing to undo or redo, undoing and redoing change nothing.
pub proof fn law_nothing_to_undo(m: AppModel)
    ensures
        m.undo.len() == 0 ==> undone(m) == m,
        m.redo.len() == 0 ==> redone(m) == m,
{
}

/// The view of stage `i`.
pub open spec fn view_at(m: AppModel, i: int) -> ViewView {
    if i < m.views.len() {
        m.views[i]
    } else {
        default_view()
    }
}

/// A new stage has a view of its own, and each other stage keeps its view,
/// wherever it moves.
pub proof fn law_insertion_keeps_views(m: AppModel, before: bool)
    requires
        m.pipeline.wf(),
    ensures
        ({
            let n = stage_inserted(m, before);
            let at = n.pipeline.selected;
            &&& n.views.len() == n.pipeline.stages.len()
            &&& current_view(n) == default_view()
            &&& forall|i: int|
                0 <= i < m.pipeline.stages.len() ==> {
                    let j = if i < at {
                        i
                    } else {
                        i + 1
                    };
                    &&& #[trigger] m.pipeline.stages[i] == n.pipeline.stages[j]
                    &&& view_at(n, j) == view_at(m, i)
                }
        }),
{
}

/// Leaving the editor without confirming a new stage leaves the stages that were
/// there before it was inserted, each with its view.
pub proof fn law_cancel_removes_new_stage(m: AppModel, before: bool)
    requires
        m.pipeline.wf(),
    ensures
        ({
            let r = edit_cancelled(stage_inserted(m, before));
            &&& r.pipeline.stages == m.pipeline.stages
            &&& r.mode == ModeView::Normal
            &&& forall|i: int|
                0 <= i < m.pipeline.stages.len() ==> #[trigger] view_at(r, i) == view_at(m, i)
            &&& m.views.len() == m.pipeline.stages.len() ==> r.views == m.views
        }),
{
    law_remove_undoes_insert(m.pipeline);
    let r = edit_cancelled(stage_inserted(m, before));
    let count = m.pipeline.stages.len() as int;
    let kept = grown(m.views, count - 1).take(count);
    let at = stage_inserted(m, before).pipeline.selected;
    assert(kept.insert(at, default_view()).remove(at) =~= kept);
    assert(r.views =~= kept);
    if m.views.len() == count {
        assert(kept =~= m.views);
    }
}

/// Deleting the only stage leaves nothing to show and nothing running.
pub proof fn law_deleting_last_stage_clears(m: AppModel)
    requires
        m.pipeline.wf(),
        m.pipeline.stages.len() == 1,
    ensures
        stage_deleted(m).pipeline.stages.len() == 0,
        stage_deleted(m).outputs.len() == 0,
        !stage_deleted(m).running,
        current_text(stage_deleted(m)).len() == 0,
{
}

// ---------------------------------------------------------------------------
// Scrolling
// ---------------------------------------------------------------------------

/// Number of rows that the lines from number `k` on take up.
pub open spec fn rows_from(lines: Seq<Seq<char>>, k: int, width: int) -> int
    decreases lines.len() - k,
{
    if k >= lines.len() {
        0
    } else {
        rows_of(lines[k].len() as int, width) + rows_from(lines, k + 1, width)
    }
}

proof fn lemma_fitting(
    lines: Seq<Seq<char>>,
    width: int,
    visible: int,
    taken: int,
    rows: int,
)
    requires
        0 <= taken <= lines.len(),
        lines.len() > 0,
        rows == rows_from(lines, lines.len() - taken, width),
        taken > 1 ==> rows <= visible,
    ensures
        ({
            let t = fitting(lines, width, visible, taken, rows);
            &&& 1 <= t <= lines.len()
            &&& taken <= t
            &&& t > 1 ==> rows_from(lines, lines.len() - t, width) <= visible
            &&& t < lines.len() ==> rows_from(lines, lines.len() - t - 1, width) > visible
        }),
    decreases lines.len() - taken,
{
    if taken < lines.len() {
        let r = rows_of(lines[lines.len() - 1 - taken].len() as int, width);
        if taken > 0 && rows + r > visible {
        } else {
            lemma_fitting(lines, width, visible, taken + 1, rows + r);
        }
    }
}

/// Scrolled to the end, the last lines are all in view, or only the last one if
/// it alone is higher than the pane; and they fill the pane: one line more would
/// not fit. Where there is any line, one is in view.
pub proof fn law_max_scroll_shows_end(m: AppModel)
    ensures
        ({
            let lines = shown_lines(m);
            let s = max_scroll(m);
            &&& lines.len() == line_count(m)
            &&& lines.len() == 0 ==> s == 0
            &&& lines.len() > 0 ==> 0 <= s < lines.len()
            &&& s < lines.len() - 1 ==> rows_from(lines, s, m.visible_width) <= m.visible_lines
            &&& s > 0 ==> rows_from(lines, s - 1, m.visible_width) > m.visible_lines
        }),
{
    let lines = shown_lines(m);
    if !has_output(m) {
        law_no_lines(usize::MAX as int, Map::empty());
    }
    if lines.len() > 0 {
        lemma_fitting(lines, m.visible_width, m.visible_lines, 0, 0);
    }
}

/// However far one scrolls down, the position is at most that of the end; from
/// there, scrolling up takes effect at once.
pub proof fn law_scrolling_stays_in_output(m: AppModel, n: int)
    requires
        m.pipeline.wf(),
        n >= 0,
        current_view(m).scroll >= 0,
    ensures
        0 <= current_view(scrolled_down(m, n)).scroll <= max_scroll(m),
        max_scroll(scrolled_down(m, n)) == max_scroll(m),
        current_view(m).scroll == max_scroll(m) && n <= max_scroll(m) ==> current_view(
            scrolled_up(m, n),
        ).scroll == max_scroll(m) - n,
{
    law_max_scroll_shows_end(m);
}

/// Scrolling down and up by the same amount leads back, as long as the end was
/// not in the way.
pub proof fn law_up_undoes_down(m: AppModel, n: int)
    requires
        m.pipeline.wf(),
        n >= 0,
        current_view(m).scroll >= 0,
        current_view(m).scroll + n <= max_scroll(m),
    ensures
        current_view(scrolled_up(scrolled_down(m, n), n)) == current_view(m),
{
}

// ---------------------------------------------------------------------------
// Searching
// ---------------------------------------------------------------------------

/// A view in which the highlighted match is in the first line.
pub open spec fn on_match(v: ViewView) -> bool {
    &&& 0 <= v.search.match_idx < v.search.matches.len()
    &&& v.search.matches[v.search.match_idx].0 == v.scroll
}

/// Going on to the next match and back to the previous one leads back, and the
/// other way round.
pub proof fn law_prev_undoes_next(v: ViewView)
    requires
        on_match(v),
    ensures
        prev_match_view(next_match_view(v)) == v,
        next_match_view(prev_match_view(v)) == v,
{
    let a = next_match_view(v);
    assert(prev_match_view(a) =~= v);
    let b = prev_match_view(v);
    assert(next_match_view(b) =~= v);
}

/// The view after `k` steps to the next match.
pub open spec fn nth_next(v: ViewView, k: nat) -> ViewView
    decreases k,
{
    if k == 0 {
        v
    } else {
        next_match_view(nth_next(v, (k - 1) as nat))
    }
}

proof fn lemma_nth_next(v: ViewView, k: nat)
    requires
        on_match(v),
        k <= v.search.matches.len(),
    ensures
        ({
            let n = v.search.matches.len() as int;
            let i = v.search.match_idx + k;
            nth_next(v, k) == at_match(
                v,
                if i < n {
                    i
                } else {
                    i - n
                },
            )
        }),
    decreases k,
{
    if k == 0 {
        assert(at_match(v, v.search.match_idx) =~= v);
    } else {
        lemma_nth_next(v, (k - 1) as nat);
    }
}

/// Stepping through the matches visits each of them once, in order, and comes
/// back to the first.
pub proof fn law_next_visits_all_matches(v: ViewView, k: nat)
    requires
        on_match(v),
        k < v.search.matches.len(),
    ensures
        ({
            let n = v.search.matches.len() as int;
            let i = v.search.match_idx + k;
            nth_next(v, k).search.match_idx == (if i < n {
                i
            } else {
                i - n
            })
        }),
        nth_next(v, v.search.matches.len()) == v,
{
    lemma_nth_next(v, k);
    lemma_nth_next(v, v.search.matches.len());
    assert(at_match(v, v.search.match_idx) =~= v);
}

/// Without matches, stepping to the next or previous one changes nothing.
pub proof fn law_no_matches_no_steps(v: ViewView)
    requires
        v.search.matches.len() == 0,
    ensures
        next_match_view(v) == v,
        prev_match_view(v) == v,
{
}

// ---------------------------------------------------------------------------
// Running
// ---------------------------------------------------------------------------

/// Changing the mode of a stage keeps the outputs up to that stage and drops
/// those of later stages.
pub proof fn law_mode_change_drops_later_outputs(m: AppModel, idx: int, mode: OutputMode)
    requires
        m.pipeline.wf(),
        idx >= 0,
    ensures
        ({
            let r = mode_changed(m, idx, mode);
            let kept = if m.outputs.len() > idx + 1 {
                idx + 1
            } else {
                m.outputs.len() as int
            };
            &&& r.outputs == m.outputs.take(kept)
            &&& r.pipeline == m.pipeline
            &&& r.views[idx].output_mode == mode
        }),
{
    let r = mode_changed(m, idx, mode);
    assert(m.outputs.take(m.outputs.len() as int) =~= m.outputs);
}

/// A stage that is served from the cache while its placeholder is empty shows
/// the output and the exit code that were remembered.
pub proof fn law_served_stage_shows_output(m: AppModel, stage: int, out: OutputView)
    requires
        m.pipeline.stages.len() > 0,
        0 <= stage < m.outputs.len(),
        m.outputs[stage] == empty_output(),
    ensures
        ({
            let msgs = hit_msgs(stage, out);
            let r = msg_received(msg_received(m, msgs[0]), msgs[1]);
            &&& r.outputs[stage] == whole_output(
                out.stdout,
                out.stderr,
                out.exit_code,
                out.combined,
            )
            &&& forall|i: int|
                0 <= i < m.outputs.len() && i != stage ==> #[trigger] r.outputs[i] == m.outputs[i]
        }),
{
    law_one_piece_is_whole(out.stdout, out.stderr, out.combined);
}

/// After all stages are gone, data that still comes in changes nothing.
pub proof fn law_stale_data_is_ignored(m: AppModel, msg: MsgView)
    requires
        m.pipeline.stages.len() == 0,
        m.outputs.len() == 0,
        msg is Update || msg is Done,
    ensures
        msg_received(m, msg) == m,
{
}

/// A run that is triggered is of all commands up to the selected one, and its
/// outputs start empty.
pub proof fn law_trigger_requests_run(m: AppModel, force: bool)
    requires
        m.pipeline.wf(),
        m.pipeline.stages.len() > 0,
    ensures
        ({
            let r = exec_triggered(m, force);
            &&& r.running
            &&& r.error is None
            &&& r.request matches Some(q) && q.up_to == m.pipeline.selected && q.force == force
                && q.commands.len() == m.pipeline.stages.len()
            &&& r.outputs.len() == m.pipeline.selected + 1
            &&& forall|i: int| 0 <= i < r.outputs.len() ==> #[trigger] r.outputs[i]
                == empty_output()
        }),
{
}

/// While help is shown, any event closes it and does nothing else.
pub proof fn law_help_takes_any_event(m: AppModel, event: Event)
    requires
        m.show_help,
    ensures
        event_handled(m, event) == (AppModel { show_help: false, ..m }, false),
{
}

} // verus!

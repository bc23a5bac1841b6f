//! What the application state stands for, and what each event does to it.
use vstd::prelude::*;

use crate::ansi::strip;
use crate::ansi_laws::line_texts;
use crate::ansi_lines::visible_lines;
use crate::caret::{
    caret_at, caret_backspace, caret_delete, caret_insert, caret_left, caret_right, Caret,
};
use crate::editor::{editor_with, key_edit, scroll_for, EditorView};
use crate::executor::batch::stage_stdin;
use crate::executor::cache::FillView;
use crate::executor::output::{
    appended, display_lines, empty_output, output_text, OutputMode, OutputView,
};
use crate::executor::stream::MsgView;
use crate::keys::{Event, KeyCode, KeyEvent};
use crate::line_flags::line_flags;
use crate::options::{resolved, OptionsView};
use crate::pipeline::{
    commands_of, inserted_after, inserted_before, next_selected, prev_selected, selected_removed,
    PipelineView, StageView,
};
use crate::search::{
    matches_before, matches_in, nav_down, nav_reset, nav_revert, nav_up, no_search, query_pushed,
    SearchHistoryView, SearchView,
};
use crate::text::byte_len;
use crate::text_tools::{begins_with, trimmed};

verus! {

// ---------------------------------------------------------------------------
// The state
// ---------------------------------------------------------------------------

/// How the output of a stage is looked at.
#[verifier::ext_equal]
pub struct ViewView {
    pub output_mode: OutputMode,
    pub search: SearchView,
    pub scroll: int,
}

/// The interaction mode.
#[verifier::ext_equal]
pub enum ModeView {
    Normal,
    Editing { editor: EditorView, pending: bool },
    Saving(EditorView),
    ConfirmingDelete,
    Searching,
    Command(EditorView),
}

/// A pipeline as it was, with how its stages pass their output on.
#[verifier::ext_equal]
pub struct SnapshotView {
    pub pipeline: PipelineView,
    pub modes: Seq<OutputMode>,
}

/// A run that is to be started.
#[verifier::ext_equal]
pub struct RequestView {
    pub commands: Seq<Seq<char>>,
    pub up_to: int,
    pub force: bool,
    pub modes: Seq<OutputMode>,
    pub interactive: Seq<bool>,
    pub pre_fill: Seq<FillView>,
}

/// A file that is to be written.
#[verifier::ext_equal]
pub struct SaveView {
    pub path: Seq<char>,
    pub content: Seq<char>,
}

/// The application state.
#[verifier::ext_equal]
pub struct AppModel {
    pub pipeline: PipelineView,
    pub mode: ModeView,
    pub views: Seq<ViewView>,
    pub outputs: Seq<OutputView>,
    pub error: Option<Seq<char>>,
    pub running: bool,
    pub show_help: bool,
    pub visible_lines: int,
    pub visible_width: int,
    pub history: SearchHistoryView,
    pub undo: Seq<SnapshotView>,
    pub redo: Seq<SnapshotView>,
    pub defaults: OptionsView,
    pub request: Option<RequestView>,
    pub save: Option<SaveView>,
    pub clock: u64,
}

/// The view of a stage that has not been looked at.
pub open spec fn default_view() -> ViewView {
    ViewView { output_mode: OutputMode::Stdout, search: no_search(), scroll: 0 }
}

/// The application at its start.
pub open spec fn started(pipeline: PipelineView, history: SearchHistoryView) -> AppModel {
    AppModel {
        pipeline,
        mode: ModeView::Normal,
        views: Seq::new(pipeline.stages.len(), |i: int| default_view()),
        outputs: Seq::empty(),
        error: None,
        running: false,
        show_help: false,
        visible_lines: 1,
        visible_width: 80,
        history,
        undo: Seq::empty(),
        redo: Seq::empty(),
        defaults: OptionsView { interactive: false, shell: None },
        request: None,
        save: None,
        clock: 0,
    }
}

// ---------------------------------------------------------------------------
// The stage that is looked at
// ---------------------------------------------------------------------------

/// The views, with default views added until there is one for stage `i`.
pub open spec fn grown(views: Seq<ViewView>, i: int) -> Seq<ViewView> {
    if i < views.len() {
        views
    } else {
        views + Seq::new((i + 1 - views.len()) as nat, |k: int| default_view())
    }
}

/// The view of the selected stage.
pub open spec fn current_view(m: AppModel) -> ViewView {
    if m.pipeline.selected < m.views.len() {
        m.views[m.pipeline.selected]
    } else {
        default_view()
    }
}

/// The state with another view of the selected stage.
pub open spec fn with_view(m: AppModel, v: ViewView) -> AppModel {
    AppModel {
        views: grown(m.views, m.pipeline.selected).update(m.pipeline.selected, v),
        ..m
    }
}

/// Whether there is an output to show.
pub open spec fn has_output(m: AppModel) -> bool {
    m.pipeline.stages.len() > 0 && m.outputs.len() > 0
}

/// The output that is shown: that of the selected stage, or of the last stage
/// that has one.
pub open spec fn current_output(m: AppModel) -> OutputView {
    m.outputs[if m.pipeline.selected < m.outputs.len() {
        m.pipeline.selected
    } else {
        m.outputs.len() - 1
    }]
}

/// The text that is shown.
pub open spec fn current_text(m: AppModel) -> Seq<char> {
    if has_output(m) {
        output_text(current_output(m), current_view(m).output_mode)
    } else {
        Seq::empty()
    }
}

/// Which lines of the text that is shown are from stderr, in Combined mode.
pub open spec fn stderr_map(m: AppModel) -> Seq<bool> {
    if has_output(m) && current_view(m).output_mode == OutputMode::Combined {
        line_flags(current_output(m).combined, current_output(m).combined.len() as int)
    } else {
        Seq::empty()
    }
}

/// Number of lines that are shown.
pub open spec fn line_count(m: AppModel) -> int {
    if has_output(m) {
        display_lines(current_output(m), current_view(m).output_mode)
    } else {
        0
    }
}

// ---------------------------------------------------------------------------
// Running
// ---------------------------------------------------------------------------

/// The run of all stages up to the selected one.
pub open spec fn request_of(m: AppModel, force: bool) -> RequestView {
    RequestView {
        commands: commands_of(m.pipeline),
        up_to: m.pipeline.selected,
        force,
        modes: view_modes(m),
        interactive: Seq::new(
            m.pipeline.stages.len(),
            |i: int| resolved(m.pipeline.stages[i].overrides, m.defaults).interactive,
        ),
        pre_fill: Seq::empty(),
    }
}

/// A run is requested, and empty outputs wait for what it puts out.
pub open spec fn exec_triggered(m: AppModel, force: bool) -> AppModel {
    if m.pipeline.stages.len() == 0 {
        m
    } else {
        let count = if m.pipeline.selected + 1 < m.pipeline.stages.len() {
            m.pipeline.selected + 1
        } else {
            m.pipeline.stages.len() as int
        };
        AppModel {
            outputs: Seq::new(count as nat, |i: int| empty_output()),
            running: true,
            error: None,
            request: Some(request_of(m, force)),
            ..m
        }
    }
}

/// The modes of the views.
pub open spec fn view_modes(m: AppModel) -> Seq<OutputMode> {
    Seq::new(m.views.len(), |i: int| m.views[i].output_mode)
}

/// Number of stages in front of the selected one that have an output.
pub open spec fn filled_stages(m: AppModel) -> int {
    if m.pipeline.selected < m.outputs.len() {
        m.pipeline.selected
    } else {
        m.outputs.len() as int
    }
}

/// What the stages in front of the selected one have put out so far, each with
/// its command and what it read.
pub open spec fn accumulated(m: AppModel) -> Seq<FillView> {
    Seq::new(
        filled_stages(m) as nat,
        |i: int|
            FillView {
                command: m.pipeline.stages[i].command,
                stdin: stage_stdin(m.outputs, view_modes(m), i),
                output: m.outputs[i],
            },
    )
}

/// A run is requested in which the stages in front of the selected one are not
/// started again, if they are running.
pub open spec fn exec_continued(m: AppModel) -> AppModel {
    let r = exec_triggered(m, false);
    if m.running {
        AppModel {
            request: Some(RequestView { pre_fill: accumulated(m), ..request_of(m, false) }),
            ..r
        }
    } else {
        r
    }
}

/// A run is requested unless the selected stage already has an output.
pub open spec fn exec_if_missing(m: AppModel) -> AppModel {
    if m.pipeline.selected >= m.outputs.len() {
        exec_triggered(m, false)
    } else {
        m
    }
}

/// The matches are those of the current query in the current text.
pub open spec fn searched(m: AppModel) -> AppModel {
    let v = current_view(m);
    with_view(
        m,
        ViewView {
            search: SearchView {
                matches: matches_in(v.search.query, strip(current_text(m))),
                match_idx: 0,
                ..v.search
            },
            ..v
        },
    )
}

/// Stage `idx` is looked at, and passes its output on, in another mode. What
/// later stages put out no longer counts.
pub open spec fn mode_changed(m: AppModel, idx: int, mode: OutputMode) -> AppModel {
    let views = grown(m.views, idx);
    searched(
        AppModel {
            views: views.update(idx, ViewView { output_mode: mode, scroll: 0, ..views[idx] }),
            outputs: if m.outputs.len() > idx + 1 {
                m.outputs.take(idx + 1)
            } else {
                m.outputs
            },
            ..m
        },
    )
}

/// The mode after `mode`.
pub open spec fn next_mode(mode: OutputMode) -> OutputMode {
    match mode {
        OutputMode::Stdout => OutputMode::Stderr,
        OutputMode::Stderr => OutputMode::Combined,
        OutputMode::Combined => OutputMode::Stdout,
    }
}

/// The outputs, with empty ones added until there is one for stage `i`.
pub open spec fn outputs_grown(outputs: Seq<OutputView>, i: int) -> Seq<OutputView> {
    if i < outputs.len() {
        outputs
    } else {
        outputs + Seq::new((i + 1 - outputs.len()) as nat, |k: int| empty_output())
    }
}

/// The time at which stage `i` got data is noted.
pub open spec fn touched(p: PipelineView, i: int, now: u64) -> PipelineView {
    if 0 <= i < p.stages.len() {
        PipelineView {
            stages: p.stages.update(i, StageView { last_update: Some(now), ..p.stages[i] }),
            ..p
        }
    } else {
        p
    }
}

/// A message of the running pipeline has come in.
pub open spec fn msg_received(m: AppModel, msg: MsgView) -> AppModel {
    match msg {
        MsgView::Update { stage, stdout, stderr, combined } => if m.pipeline.stages.len() == 0 {
            m
        } else {
            let outputs = outputs_grown(m.outputs, stage);
            AppModel {
                outputs: outputs.update(
                    stage,
                    appended(outputs[stage], stdout, stderr, combined),
                ),
                pipeline: touched(m.pipeline, stage, m.clock),
                ..m
            }
        },
        MsgView::Done { stage, exit_code } => if 0 <= stage < m.outputs.len() {
            AppModel {
                outputs: m.outputs.update(stage, OutputView { exit_code, ..m.outputs[stage] }),
                ..m
            }
        } else {
            m
        },
        MsgView::AllDone { error } => searched(
            AppModel {
                running: false,
                error: match error {
                    Some(e) => if e == "cancelled"@ {
                        m.error
                    } else {
                        Some(e)
                    },
                    None => m.error,
                },
                ..m
            },
        ),
    }
}

// ---------------------------------------------------------------------------
// Scrolling
// ---------------------------------------------------------------------------

/// Number of rows that a line of `len` characters takes up.
pub open spec fn rows_of(len: int, width: int) -> int {
    let w = if width > 0 {
        width
    } else {
        1
    };
    if len <= 0 {
        1
    } else {
        (len + w - 1) / w
    }
}

/// How many lines at the end fit in `visible` rows, `taken` of which, with
/// `rows` rows, are known to. The last line always counts as fitting.
pub open spec fn fitting(
    lines: Seq<Seq<char>>,
    width: int,
    visible: int,
    taken: int,
    rows: int,
) -> int
    decreases lines.len() - taken,
{
    if taken >= lines.len() {
        lines.len() as int
    } else {
        let r = rows_of(lines[lines.len() - 1 - taken].len() as int, width);
        if taken > 0 && rows + r > visible {
            taken
        } else {
            fitting(lines, width, visible, taken + 1, rows + r)
        }
    }
}

/// The text of each line that is shown.
pub open spec fn shown_lines(m: AppModel) -> Seq<Seq<char>> {
    line_texts(visible_lines(current_text(m), 0, usize::MAX as int, Map::empty(), None))
}

/// The first line shown when the end of the output is in view.
pub open spec fn max_scroll(m: AppModel) -> int {
    let lines = shown_lines(m);
    lines.len() - fitting(lines, m.visible_width, m.visible_lines, 0, 0)
}

/// The smaller of two numbers.
pub open spec fn smaller(a: int, b: int) -> int {
    if a < b {
        a
    } else {
        b
    }
}

/// The output is shown from line `line` on.
pub open spec fn scrolled_to(m: AppModel, line: int) -> AppModel {
    with_view(m, ViewView { scroll: line, ..current_view(m) })
}

/// The output is shown from `n` lines further down, but not beyond its end.
pub open spec fn scrolled_down(m: AppModel, n: int) -> AppModel {
    scrolled_to(m, smaller(current_view(m).scroll + n, max_scroll(m)))
}

/// The output is shown from `n` lines further up.
pub open spec fn scrolled_up(m: AppModel, n: int) -> AppModel {
    scrolled_to(
        m,
        if current_view(m).scroll > n {
            current_view(m).scroll - n
        } else {
            0
        },
    )
}

// ---------------------------------------------------------------------------
// Searching
// ---------------------------------------------------------------------------

/// The view with match number `idx` highlighted and in view.
pub open spec fn at_match(v: ViewView, idx: int) -> ViewView {
    ViewView {
        search: SearchView { match_idx: idx, ..v.search },
        scroll: v.search.matches[idx].0 as int,
        ..v
    }
}

/// The first match in or after the first line in view, or else the first one.
pub open spec fn first_match_view(v: ViewView) -> ViewView {
    let n = v.search.matches.len();
    if n == 0 {
        v
    } else {
        let idx = matches_before(v.search.matches, v.scroll, false);
        at_match(
            v,
            if idx >= n {
                0
            } else {
                idx
            },
        )
    }
}

/// The next match: the one after the highlighted match if that is in the first
/// line in view, else the first one after that line; the first one follows the
/// last.
pub open spec fn next_match_view(v: ViewView) -> ViewView {
    let n = v.search.matches.len();
    if n == 0 {
        v
    } else if v.search.matches[v.search.match_idx].0 == v.scroll {
        at_match(
            v,
            if v.search.match_idx + 1 < n {
                v.search.match_idx + 1
            } else {
                0
            },
        )
    } else {
        let idx = matches_before(v.search.matches, v.scroll, true);
        at_match(
            v,
            if idx < n {
                idx
            } else {
                0
            },
        )
    }
}

/// The previous match: the one before the highlighted match if that is in the
/// first line in view, else the last one before that line; the last one
/// precedes the first.
pub open spec fn prev_match_view(v: ViewView) -> ViewView {
    let n = v.search.matches.len();
    if n == 0 {
        v
    } else if v.search.matches[v.search.match_idx].0 == v.scroll {
        at_match(
            v,
            if v.search.match_idx > 0 {
                v.search.match_idx - 1
            } else {
                n - 1
            },
        )
    } else {
        let idx = matches_before(v.search.matches, v.scroll, false);
        at_match(
            v,
            if idx > 0 {
                idx - 1
            } else {
                n - 1
            },
        )
    }
}

/// The search is cleared, and the mode is another one.
pub open spec fn search_cleared(m: AppModel, mode: ModeView) -> AppModel {
    AppModel {
        history: nav_reset(m.history),
        mode,
        ..with_view(m, ViewView { search: no_search(), ..current_view(m) })
    }
}

/// The query is committed, its matches are found, and the first one from where
/// the output is looked at is shown.
pub open spec fn search_confirmed(m: AppModel) -> AppModel {
    let found = searched(
        AppModel { history: query_pushed(m.history, current_view(m).search.query), ..m },
    );
    with_view(
        AppModel { mode: ModeView::Normal, ..found },
        first_match_view(current_view(found)),
    )
}

/// The query and the position in it.
pub open spec fn query_set(m: AppModel, query: Seq<char>, cursor: int) -> AppModel {
    let v = current_view(m);
    with_view(m, ViewView { search: SearchView { query, cursor, ..v.search }, ..v })
}

/// The same, given as the text on both sides of the position.
pub open spec fn query_caret_set(m: AppModel, c: Caret) -> AppModel {
    query_set(m, c.before + c.after, byte_len(c.before) as int)
}

/// The query is replaced by `text`, if there is one, with the position at its
/// end.
pub open spec fn query_replaced(
    m: AppModel,
    history: SearchHistoryView,
    text: Option<Seq<char>>,
) -> AppModel {
    let h = AppModel { history, ..m };
    match text {
        Some(t) => query_set(h, t, byte_len(t) as int),
        None => h,
    }
}

/// A key while a search query is entered.
pub open spec fn search_key(m: AppModel, key: KeyEvent) -> AppModel {
    let s = current_view(m).search;
    let c = caret_at(s.query, s.cursor);
    match key.code {
        KeyCode::Esc => search_cleared(m, ModeView::Normal),
        KeyCode::Enter => search_confirmed(m),
        KeyCode::Up => query_replaced(
            m,
            nav_up(m.history, s.query).0,
            nav_up(m.history, s.query).1,
        ),
        KeyCode::Down => query_replaced(
            m,
            nav_down(m.history, s.query).0,
            nav_down(m.history, s.query).1,
        ),
        KeyCode::Backspace => query_caret_set(m, caret_backspace(c)),
        KeyCode::Delete => query_caret_set(m, caret_delete(c)),
        KeyCode::Left => query_caret_set(m, caret_left(c)),
        KeyCode::Right => query_caret_set(m, caret_right(c)),
        KeyCode::Home => query_set(m, s.query, 0),
        KeyCode::End => query_set(m, s.query, byte_len(s.query) as int),
        KeyCode::Char(ch) => if ch == 'r' && key.modifiers.alt {
            query_replaced(m, nav_revert(m.history).0, nav_revert(m.history).1)
        } else if !key.modifiers.control && !key.modifiers.alt {
            query_caret_set(m, caret_insert(c, seq![ch]))
        } else {
            m
        },
        _ => m,
    }
}

// ---------------------------------------------------------------------------
// Changing the pipeline
// ---------------------------------------------------------------------------

/// The pipeline as it is.
pub open spec fn snapshot(m: AppModel) -> SnapshotView {
    SnapshotView {
        pipeline: m.pipeline,
        modes: Seq::new(
            m.pipeline.stages.len(),
            |i: int|
                if i < m.views.len() {
                    m.views[i].output_mode
                } else {
                    OutputMode::Stdout
                },
        ),
    }
}

/// The pipeline is about to change: it can be brought back, and what was undone
/// before can no longer be.
pub open spec fn noted(m: AppModel) -> AppModel {
    AppModel { undo: m.undo.push(snapshot(m)), redo: Seq::empty(), ..m }
}

/// The pipeline has changed: it is run again, or there is nothing to show.
pub open spec fn rerun(m: AppModel) -> AppModel {
    if m.pipeline.stages.len() > 0 {
        exec_triggered(m, false)
    } else {
        AppModel { outputs: Seq::empty(), running: false, ..m }
    }
}

/// The pipeline is as it was, with a fresh view of each stage.
pub open spec fn brought_back(m: AppModel, s: SnapshotView) -> AppModel {
    rerun(
        AppModel {
            pipeline: s.pipeline,
            views: Seq::new(
                s.modes.len(),
                |i: int| ViewView { output_mode: s.modes[i], ..default_view() },
            ),
            ..m
        },
    )
}

/// The last change is undone.
pub open spec fn undone(m: AppModel) -> AppModel {
    if m.undo.len() == 0 {
        m
    } else {
        brought_back(
            AppModel { undo: m.undo.drop_last(), redo: m.redo.push(snapshot(m)), ..m },
            m.undo.last(),
        )
    }
}

/// The change that was undone last is made again.
pub open spec fn redone(m: AppModel) -> AppModel {
    if m.redo.len() == 0 {
        m
    } else {
        brought_back(
            AppModel { redo: m.redo.drop_last(), undo: m.undo.push(snapshot(m)), ..m },
            m.redo.last(),
        )
    }
}

/// The views without that of stage `i`.
pub open spec fn view_removed(views: Seq<ViewView>, i: int) -> Seq<ViewView> {
    if i < views.len() {
        views.remove(i)
    } else {
        views
    }
}

/// The selected stage and its view are gone.
pub open spec fn stage_removed(m: AppModel) -> AppModel {
    AppModel {
        pipeline: selected_removed(m.pipeline),
        views: view_removed(m.views, m.pipeline.selected),
        ..m
    }
}

/// The selected stage is deleted.
pub open spec fn stage_deleted(m: AppModel) -> AppModel {
    rerun(stage_removed(noted(m)))
}

/// The command of the selected stage.
pub open spec fn selected_command(m: AppModel) -> Seq<char> {
    if m.pipeline.selected < m.pipeline.stages.len() {
        m.pipeline.stages[m.pipeline.selected].command
    } else {
        Seq::empty()
    }
}

/// The command of the selected stage is being edited.
pub open spec fn editing_started(m: AppModel, pending: bool) -> AppModel {
    AppModel { mode: ModeView::Editing { editor: editor_with(selected_command(m)), pending }, ..m }
}

/// The views of `count` stages, with a default view for a new stage at `at`.
pub open spec fn view_inserted(views: Seq<ViewView>, count: int, at: int) -> Seq<ViewView> {
    grown(views, count - 1).take(count).insert(at, default_view())
}

/// A new stage, with a view of its own, is inserted and edited.
pub open spec fn stage_inserted(m: AppModel, before: bool) -> AppModel {
    let n = noted(m);
    let pipeline = if before {
        inserted_before(m.pipeline)
    } else {
        inserted_after(m.pipeline)
    };
    editing_started(
        AppModel {
            pipeline,
            views: view_inserted(m.views, m.pipeline.stages.len() as int, pipeline.selected),
            ..n
        },
        true,
    )
}

/// The selected stage has the command `text`.
pub open spec fn command_set(p: PipelineView, text: Seq<char>) -> PipelineView {
    PipelineView {
        stages: p.stages.update(
            p.selected,
            StageView { command: text, ..p.stages[p.selected] },
        ),
        ..p
    }
}

/// The selected stage gets the command `text`. The change can be undone, except
/// that of a new stage, whose insertion can be.
pub open spec fn command_changed(m: AppModel, text: Seq<char>, pending: bool) -> AppModel {
    if m.pipeline.selected < m.pipeline.stages.len() && selected_command(m) != text {
        let n = if pending {
            m
        } else {
            noted(m)
        };
        AppModel { pipeline: command_set(n.pipeline, text), ..n }
    } else {
        m
    }
}

/// The text in the editor becomes the stage's command and is run, without the
/// editor being left.
pub open spec fn edit_updated(m: AppModel) -> AppModel {
    exec_triggered(
        match m.mode {
            ModeView::Editing { editor, pending } => command_changed(m, editor.text(), pending),
            _ => m,
        },
        false,
    )
}

/// The text in the editor becomes the stage's command, and is run if it is
/// another one. A new stage goes on with what the stages in front of it have
/// put out so far.
pub open spec fn edit_confirmed(m: AppModel) -> AppModel {
    let n = AppModel { mode: ModeView::Normal, ..m };
    match m.mode {
        ModeView::Editing { editor, pending } => if m.pipeline.selected < m.pipeline.stages.len()
            && selected_command(m) != editor.text() {
            let c = command_changed(n, editor.text(), pending);
            if pending {
                exec_continued(c)
            } else {
                exec_triggered(c, false)
            }
        } else {
            n
        },
        _ => n,
    }
}

/// The editor is left; a stage that was only inserted is gone.
pub open spec fn edit_cancelled(m: AppModel) -> AppModel {
    let r = match m.mode {
        ModeView::Editing { editor, pending } => if pending {
            stage_removed(m)
        } else {
            m
        },
        _ => m,
    };
    AppModel { mode: ModeView::Normal, ..r }
}

/// The shown text is to be written to the file named in the editor.
pub open spec fn save_confirmed(m: AppModel) -> AppModel {
    let n = AppModel { mode: ModeView::Normal, ..m };
    match m.mode {
        ModeView::Saving(editor) => if editor.text().len() > 0 {
            AppModel {
                save: Some(SaveView { path: editor.text(), content: current_text(m) }),
                ..n
            }
        } else {
            n
        },
        _ => n,
    }
}

/// The output could not be written to the file.
pub open spec fn save_not_done(m: AppModel, error: Seq<char>) -> AppModel {
    AppModel { error: Some("Save failed: "@ + error), ..m }
}

// ---------------------------------------------------------------------------
// Keys
// ---------------------------------------------------------------------------

/// The editor that is active.
pub open spec fn active_editor(mode: ModeView) -> Option<EditorView> {
    match mode {
        ModeView::Editing { editor, .. } => Some(editor),
        ModeView::Saving(editor) => Some(editor),
        ModeView::Command(editor) => Some(editor),
        _ => None,
    }
}

/// The mode with another state of its editor.
pub open spec fn editor_replaced(mode: ModeView, e: EditorView) -> ModeView {
    match mode {
        ModeView::Editing { pending, .. } => ModeView::Editing { editor: e, pending },
        ModeView::Saving(_) => ModeView::Saving(e),
        ModeView::Command(_) => ModeView::Command(e),
        other => other,
    }
}

/// A key goes to the active editor.
pub open spec fn editor_key(m: AppModel, key: KeyEvent) -> AppModel {
    match active_editor(m.mode) {
        Some(e) => match key_edit(e, key) {
            Some(v) => AppModel { mode: editor_replaced(m.mode, v), ..m },
            None => m,
        },
        None => m,
    }
}

/// The active editor is scrolled to its cursor.
pub open spec fn editor_scrolled(m: AppModel, inner_width: int) -> AppModel {
    match active_editor(m.mode) {
        Some(e) => AppModel {
            mode: editor_replaced(
                m.mode,
                EditorView {
                    scroll_x: scroll_for(e.scroll_x, e.caret.before.len() as int, inner_width),
                    ..e
                },
            ),
            ..m
        },
        None => m,
    }
}

/// A key while a command or a file name is edited.
pub open spec fn dialog_key(m: AppModel, key: KeyEvent) -> AppModel {
    match key.code {
        KeyCode::Esc => edit_cancelled(m),
        KeyCode::Tab => edit_updated(m),
        KeyCode::Enter => match m.mode {
            ModeView::Editing { .. } => edit_confirmed(m),
            ModeView::Saving(_) => save_confirmed(m),
            _ => m,
        },
        _ => editor_key(m, key),
    }
}

/// A key while deletion is to be confirmed.
pub open spec fn confirm_delete_key(m: AppModel, key: KeyEvent) -> AppModel {
    let n = AppModel { mode: ModeView::Normal, ..m };
    if key.code == KeyCode::Char('y') || key.code == KeyCode::Char('Y') {
        stage_deleted(n)
    } else {
        n
    }
}

/// The first known command that begins with `text`.
pub open spec fn completion(text: Seq<char>) -> Option<Seq<char>> {
    if begins_with("help"@, text) {
        Some("help"@)
    } else if begins_with("quit"@, text) {
        Some("quit"@)
    } else {
        None
    }
}

/// A key in command mode, and whether the application ends.
pub open spec fn command_key(m: AppModel, key: KeyEvent) -> (AppModel, bool) {
    let n = AppModel { mode: ModeView::Normal, ..m };
    match key.code {
        KeyCode::Esc => (n, false),
        KeyCode::Enter => {
            let cmd = match m.mode {
                ModeView::Command(e) => trimmed(e.text()),
                _ => Seq::empty(),
            };
            if cmd == "h"@ || cmd == "help"@ {
                (AppModel { show_help: true, ..n }, false)
            } else {
                (n, cmd == "q"@ || cmd == "quit"@)
            }
        },
        KeyCode::Tab => match m.mode {
            ModeView::Command(e) => match completion(e.text()) {
                Some(cmd) => (
                    AppModel {
                        mode: ModeView::Command(
                            EditorView {
                                caret: Caret { before: cmd, after: Seq::empty() },
                                ..e
                            },
                        ),
                        ..m
                    },
                    false,
                ),
                None => (m, false),
            },
            _ => (m, false),
        },
        _ => (editor_key(m, key), false),
    }
}

/// The deletion key: a stage that others read from is only deleted when that is
/// confirmed.
pub open spec fn delete_pressed(m: AppModel) -> AppModel {
    if m.pipeline.stages.len() == 0 {
        m
    } else if m.pipeline.selected == m.pipeline.stages.len() - 1 {
        stage_deleted(m)
    } else {
        AppModel { mode: ModeView::ConfirmingDelete, ..m }
    }
}

/// Whether a key ends the application.
pub open spec fn is_quit(key: KeyEvent) -> bool {
    key.code == KeyCode::Char('q') || (key.code == KeyCode::Char('c') && key.modifiers.control)
}

/// Number of lines in a page of output.
pub open spec fn full_page(m: AppModel) -> int {
    if m.visible_lines > 1 {
        m.visible_lines
    } else {
        1
    }
}

/// Number of lines in half a page of output.
pub open spec fn half_page(m: AppModel) -> int {
    if m.visible_lines > 1 {
        m.visible_lines / 2
    } else {
        1
    }
}

/// A key other than a character in normal mode.
pub open spec fn normal_named_key(m: AppModel, code: KeyCode) -> AppModel {
    match code {
        KeyCode::Right => searched(
            exec_if_missing(AppModel { pipeline: next_selected(m.pipeline), ..m }),
        ),
        KeyCode::Left => searched(
            exec_if_missing(AppModel { pipeline: prev_selected(m.pipeline), ..m }),
        ),
        KeyCode::Delete => delete_pressed(m),
        KeyCode::Down => scrolled_down(m, 1),
        KeyCode::Up => scrolled_up(m, 1),
        KeyCode::PageDown => scrolled_down(m, full_page(m)),
        KeyCode::PageUp => scrolled_up(m, full_page(m)),
        KeyCode::Home => scrolled_to(m, 0),
        KeyCode::End => scrolled_to(m, max_scroll(m)),
        KeyCode::Esc => search_cleared(m, ModeView::Normal),
        _ => m,
    }
}

/// A character with the control key held down in normal mode, where that means
/// something of its own.
pub open spec fn normal_control_char(m: AppModel, ch: char, shift: bool) -> Option<AppModel> {
    if ch == 'z' && !shift {
        Some(undone(m))
    } else if ch == 'Z' || ch == 'z' || ch == 'r' {
        Some(redone(m))
    } else if ch == 'd' {
        Some(scrolled_down(m, half_page(m)))
    } else if ch == 'u' {
        Some(scrolled_up(m, half_page(m)))
    } else if ch == 'f' {
        Some(scrolled_down(m, full_page(m)))
    } else if ch == 'b' {
        Some(scrolled_up(m, full_page(m)))
    } else {
        None
    }
}

/// A character in normal mode.
pub open spec fn normal_char(m: AppModel, ch: char) -> AppModel {
    if ch == 'l' {
        normal_named_key(m, KeyCode::Right)
    } else if ch == 'h' {
        normal_named_key(m, KeyCode::Left)
    } else if ch == 'e' {
        if m.pipeline.stages.len() > 0 {
            editing_started(m, false)
        } else {
            m
        }
    } else if ch == 'o' || ch == '|' {
        stage_inserted(m, false)
    } else if ch == 'O' {
        stage_inserted(m, true)
    } else if ch == 'n' {
        with_view(m, next_match_view(current_view(m)))
    } else if ch == 'N' || ch == 'p' {
        with_view(m, prev_match_view(current_view(m)))
    } else if ch == 'd' {
        delete_pressed(m)
    } else if ch == 'u' {
        undone(m)
    } else if ch == 'r' {
        exec_triggered(m, true)
    } else if ch == 's' {
        AppModel { mode: ModeView::Saving(editor_with(Seq::empty())), ..m }
    } else if ch == 'm' {
        mode_changed(m, m.pipeline.selected, next_mode(current_view(m).output_mode))
    } else if ch == '1' {
        mode_changed(m, m.pipeline.selected, OutputMode::Stdout)
    } else if ch == '2' {
        mode_changed(m, m.pipeline.selected, OutputMode::Stderr)
    } else if ch == '3' {
        mode_changed(m, m.pipeline.selected, OutputMode::Combined)
    } else if ch == 'j' {
        scrolled_down(m, 1)
    } else if ch == 'k' {
        scrolled_up(m, 1)
    } else if ch == 'g' {
        scrolled_to(m, 0)
    } else if ch == 'G' {
        scrolled_to(m, max_scroll(m))
    } else if ch == '/' {
        search_cleared(m, ModeView::Searching)
    } else if ch == '?' {
        AppModel { show_help: !m.show_help, ..m }
    } else if ch == ':' {
        AppModel { mode: ModeView::Command(editor_with(Seq::empty())), ..m }
    } else {
        m
    }
}

/// A key in normal mode that does not end the application.
pub open spec fn normal_key(m: AppModel, key: KeyEvent) -> AppModel {
    match key.code {
        KeyCode::Char(ch) => if key.modifiers.control {
            match normal_control_char(m, ch, key.modifiers.shift) {
                Some(r) => r,
                None => normal_char(m, ch),
            }
        } else {
            normal_char(m, ch)
        },
        code => normal_named_key(m, code),
    }
}

/// An event, and whether the application ends. While help is shown, any event
/// only closes it.
pub open spec fn event_handled(m: AppModel, event: Event) -> (AppModel, bool) {
    if m.show_help {
        (AppModel { show_help: false, ..m }, false)
    } else {
        match event {
            Event::Key(key) => match m.mode {
                ModeView::Normal => if is_quit(key) {
                    (m, true)
                } else {
                    (normal_key(m, key), false)
                },
                ModeView::Editing { .. } => (dialog_key(m, key), false),
                ModeView::Saving(_) => (dialog_key(m, key), false),
                ModeView::ConfirmingDelete => (confirm_delete_key(m, key), false),
                ModeView::Command(_) => command_key(m, key),
                ModeView::Searching => (search_key(m, key), false),
            },
            Event::Other => (m, false),
        }
    }
}

} // verus!

//! The application: its state, and how it reacts to keys and to the running
//! pipeline.
//!
//! The application does no input or output itself. It is given events and
//! messages; the runs that it wants and the files that are to be written stand
//! in [`App::exec_request`] and [`App::save_request`] until the caller takes
//! them.
use std::borrow::Cow;

use vstd::prelude::*;

use crate::ansi::{index_of, strip_ansi_sgr, AnsiLineIndex};
use crate::ansi_laws::{law_shown_lines_are_text_lines, lemma_split_count};
use crate::ansi_lines::shown_line_count;
use crate::app_laws::law_max_scroll_shows_end;
use crate::app_model::{
    accumulated, active_editor, brought_back, command_changed, command_key, command_set,
    confirm_delete_key, current_output, current_text, current_view, default_view, delete_pressed,
    dialog_key, edit_cancelled, edit_confirmed, edit_updated, editing_started, editor_key,
    editor_replaced, editor_scrolled, event_handled, exec_continued, exec_if_missing,
    exec_triggered, filled_stages, fitting, full_page, grown, half_page, has_output, is_quit,
    line_count, max_scroll, mode_changed, msg_received, next_match_view, normal_char,
    normal_control_char, normal_key, normal_named_key, noted, outputs_grown, prev_match_view,
    query_set, redone, request_of, rerun, rows_of, save_confirmed, save_not_done, scrolled_down,
    scrolled_to, scrolled_up, search_cleared, search_confirmed, search_key, searched,
    selected_command, shown_lines, snapshot, stage_deleted, stage_inserted, stage_removed, started,
    stderr_map, touched, undone, view_inserted, view_modes, view_removed, with_view, AppModel,
    ModeView, RequestView, SaveView, SnapshotView, ViewView,
};
use crate::caret::{
    backspace_at, delete_at, insert_char_at, left_of, lemma_caret_ends, lemma_caret_splits,
    right_of,
};
use crate::editor::{editor_with, EditorState};
use crate::executor::batch::{mode_of, outputs_view, stage_stdin};
use crate::executor::cache::{fills_view, FillView, PreFillEntry};
pub use crate::executor::output::OutputMode;
use crate::executor::output::{
    empty_output, extract_relay_bytes, join_combined, OutputView, StageOutput,
};
use crate::executor::stream::StreamMsg;
use crate::keys::{Event, KeyCode, KeyEvent};
use crate::line_flags::flag_lines;
use crate::options::GlobalDefaults;
use crate::pipeline::Pipeline;
use crate::search::{count_before, no_history, SearchHistory, SearchState};
use crate::text::{
    byte_count, byte_len, chars_of, opt_string, split_by, str_eq, strings, texts,
};
use crate::text_tools::{starts_with, trim};

verus! {

/// Per-stage view state (output mode, search, scroll position).
#[derive(Debug)]
pub struct StageViewState {
    pub output_mode: OutputMode,
    pub search: SearchState,
    pub scroll: usize,
}

impl View for StageViewState {
    type V = ViewView;

    open spec fn view(&self) -> ViewView {
        ViewView {
            output_mode: self.output_mode,
            search: self.search@,
            scroll: self.scroll as int,
        }
    }
}

impl Default for StageViewState {
    fn default() -> (r: StageViewState)
        ensures
            r.search.wf(),
            r@ == default_view(),
    {
        StageViewState {
            output_mode: OutputMode::Stdout,
            search: SearchState::default(),
            scroll: 0,
        }
    }
}

/// The current interaction mode of the application.
#[derive(Debug)]
pub enum AppMode {
    Normal,
    Editing { editor: EditorState, pending_new_stage: bool },
    Saving(EditorState),
    ConfirmingDelete,
    Searching,
    /// Vim-style `:command` mode.
    Command(EditorState),
}

impl View for AppMode {
    type V = ModeView;

    open spec fn view(&self) -> ModeView {
        match *self {
            AppMode::Normal => ModeView::Normal,
            AppMode::Editing { editor, pending_new_stage } => ModeView::Editing {
                editor: editor@,
                pending: pending_new_stage,
            },
            AppMode::Saving(editor) => ModeView::Saving(editor@),
            AppMode::ConfirmingDelete => ModeView::ConfirmingDelete,
            AppMode::Searching => ModeView::Searching,
            AppMode::Command(editor) => ModeView::Command(editor@),
        }
    }
}

impl AppMode {
    /// The editor, if there is one, is consistent.
    pub open spec fn wf(&self) -> bool {
        match *self {
            AppMode::Editing { editor, .. } => editor.wf(),
            AppMode::Saving(editor) => editor.wf(),
            AppMode::Command(editor) => editor.wf(),
            _ => true,
        }
    }
}

/// A run that is to be started. Any earlier run is to be cancelled.
#[derive(Debug)]
pub struct ExecRequest {
    pub commands: Vec<String>,
    pub up_to: usize,
    pub force: bool,
    pub output_modes: Vec<OutputMode>,
    pub interactive_flags: Vec<bool>,
    /// What is to be put into the cache first.
    pub pre_fill: Vec<PreFillEntry>,
}

impl View for ExecRequest {
    type V = RequestView;

    open spec fn view(&self) -> RequestView {
        RequestView {
            commands: strings(self.commands@),
            up_to: self.up_to as int,
            force: self.force,
            modes: self.output_modes@,
            interactive: self.interactive_flags@,
            pre_fill: fills_view(self.pre_fill@),
        }
    }
}

/// A file that is to be written.
#[derive(Debug)]
pub struct SaveRequest {
    pub path: String,
    pub content: String,
}

impl View for SaveRequest {
    type V = SaveView;

    open spec fn view(&self) -> SaveView {
        SaveView { path: self.path@, content: self.content@ }
    }
}

/// A pipeline as it was before a change.
#[derive(Debug)]
pub struct Snapshot {
    pub pipeline: Pipeline,
    pub output_modes: Vec<OutputMode>,
}

impl View for Snapshot {
    type V = SnapshotView;

    open spec fn view(&self) -> SnapshotView {
        SnapshotView { pipeline: self.pipeline@, modes: self.output_modes@ }
    }
}

/// Full application state.
#[derive(Debug)]
pub struct App {
    pub pipeline: Pipeline,
    pub mode: AppMode,
    /// Per-stage view state (output mode, search, scroll).
    pub stage_views: Vec<StageViewState>,
    /// Outputs per stage (only up to the stage that was run last).
    /// During streaming, entries are incrementally filled in.
    pub stage_outputs: Vec<StageOutput>,
    /// Error message to display (e.g. command failed).
    pub error_message: Option<String>,
    /// Is a command currently running in the background?
    pub running: bool,
    /// Show help overlay?
    pub show_help: bool,
    /// Number of visible lines in the output pane (updated each frame by the renderer).
    pub visible_output_lines: usize,
    /// Number of visible columns in the output pane (updated each frame by the renderer).
    pub visible_output_width: usize,
    /// Search history shared across all pipeline stages.
    pub search_history: SearchHistory,
    /// Pipelines that can be brought back by undoing, the latest last.
    pub undo_stack: Vec<Snapshot>,
    /// Pipelines that can be brought back by redoing, the latest last.
    pub redo_stack: Vec<Snapshot>,
    /// Options of stages that set none for themselves.
    pub global_defaults: GlobalDefaults,
    /// The run that is to be started.
    pub exec_request: Option<ExecRequest>,
    /// The file that is to be written.
    pub save_request: Option<SaveRequest>,
    /// Time on the caller's clock, in milliseconds (updated before each message).
    pub clock_millis: u64,
    /// The view of a stage that has none.
    pub fallback_view: StageViewState,
}

/// What a list of views stands for.
pub open spec fn views_view(views: Seq<StageViewState>) -> Seq<ViewView> {
    Seq::new(views.len(), |i: int| views[i]@)
}

/// What a list of snapshots stands for.
pub open spec fn snapshots_view(s: Seq<Snapshot>) -> Seq<SnapshotView> {
    Seq::new(s.len(), |i: int| s[i]@)
}

/// Whether the outputs of all entries are consistent.
pub open spec fn fill_wf(entries: Seq<PreFillEntry>) -> bool {
    forall|i: int| 0 <= i < entries.len() ==> (#[trigger] entries[i]).output.wf()
}

/// What an optional request stands for.
pub open spec fn opt_request(r: Option<ExecRequest>) -> Option<RequestView> {
    match r {
        Some(q) => Some(q@),
        None => None,
    }
}

/// What an optional request stands for.
pub open spec fn opt_save(r: Option<SaveRequest>) -> Option<SaveView> {
    match r {
        Some(q) => Some(q@),
        None => None,
    }
}

impl App {
    /// What the state stands for.
    pub open spec fn model(&self) -> AppModel {
        AppModel {
            pipeline: self.pipeline@,
            mode: self.mode@,
            views: views_view(self.stage_views@),
            outputs: outputs_view(self.stage_outputs@),
            error: opt_string(self.error_message),
            running: self.running,
            show_help: self.show_help,
            visible_lines: self.visible_output_lines as int,
            visible_width: self.visible_output_width as int,
            history: self.search_history@,
            undo: snapshots_view(self.undo_stack@),
            redo: snapshots_view(self.redo_stack@),
            defaults: self.global_defaults@,
            request: opt_request(self.exec_request),
            save: opt_save(self.save_request),
            clock: self.clock_millis,
        }
    }

    /// All parts of the state are consistent.
    pub open spec fn wf(&self) -> bool {
        &&& self.pipeline@.wf()
        &&& self.mode.wf()
        &&& forall|i: int|
            0 <= i < self.stage_views@.len() ==> (#[trigger] self.stage_views@[i]).search.wf()
        &&& forall|i: int|
            0 <= i < self.stage_outputs@.len() ==> (#[trigger] self.stage_outputs@[i]).wf()
        &&& self.search_history.wf()
        &&& forall|i: int|
            0 <= i < self.undo_stack@.len() ==> (#[trigger] self.undo_stack@[i])@.pipeline.wf()
        &&& forall|i: int|
            0 <= i < self.redo_stack@.len() ==> (#[trigger] self.redo_stack@[i])@.pipeline.wf()
        &&& self.exec_request matches Some(q) ==> fill_wf(q.pre_fill@)
        &&& self.fallback_view@ == default_view()
        &&& self.fallback_view.search.wf()
    }

    /// The application with the given pipeline, at its start.
    pub fn new(pipeline: Pipeline) -> (r: App)
        requires
            pipeline@.wf(),
        ensures
            r.wf(),
            r.model() == started(pipeline@, no_history()),
    {
        let mut stage_views: Vec<StageViewState> = Vec::new();
        let n: usize = pipeline.len();
        while stage_views.len() < n
            invariant
                stage_views@.len() <= n,
                forall|i: int|
                    0 <= i < stage_views@.len() ==> (#[trigger] stage_views@[i]).search.wf()
                        && stage_views@[i]@ == default_view(),
            decreases n - stage_views@.len(),
        {
            let v = StageViewState::default();
            stage_views.push(v);
        }
        let r = App {
            pipeline,
            mode: AppMode::Normal,
            stage_views,
            stage_outputs: Vec::new(),
            error_message: None,
            running: false,
            show_help: false,
            visible_output_lines: 1,
            visible_output_width: 80,
            search_history: SearchHistory::default(),
            undo_stack: Vec::new(),
            redo_stack: Vec::new(),
            global_defaults: GlobalDefaults::default(),
            exec_request: None,
            save_request: None,
            clock_millis: 0,
            fallback_view: StageViewState::default(),
        };
        proof {
            let m = started(pipeline@, no_history());
            assert(r.model().views =~= m.views);
            assert(r.model().outputs =~= m.outputs);
            assert(r.model().undo =~= m.undo);
            assert(r.model().redo =~= m.redo);
            assert(r.model() =~= m);
        }
        r
    }

    // -----------------------------------------------------------------------
    // The stage that is looked at
    // -----------------------------------------------------------------------

    /// Get the current stage's view state (read-only).
    pub fn view(&self) -> (r: &StageViewState)
        requires
            self.wf(),
        ensures
            r@ == current_view(self.model()),
            r.search.wf(),
    {
        if self.pipeline.selected < self.stage_views.len() {
            &self.stage_views[self.pipeline.selected]
        } else {
            &self.fallback_view
        }
    }

    fn grow_views(&mut self, idx: usize)
        requires
            old(self).wf(),
            idx < usize::MAX,
        ensures
            final(self).wf(),
            final(self).model() == (AppModel {
                views: grown(old(self).model().views, idx as int),
                ..old(self).model()
            }),
            final(self).stage_views@.len() > idx,
    {
        let ghost before = self.model();
        proof {
            assert(before.views =~= views_view(self.stage_views@));
        }
        while self.stage_views.len() <= idx
            invariant
                idx < usize::MAX,
                self.wf(),
                self.stage_views@.len() >= before.views.len(),
                self.stage_views@.len() > idx ==> self.stage_views@.len() == idx + 1
                    || self.stage_views@.len() == before.views.len(),
                forall|i: int|
                    0 <= i < before.views.len() ==> (#[trigger] self.stage_views@[i])@
                        == before.views[i],
                forall|i: int|
                    before.views.len() <= i < self.stage_views@.len() ==> (
                    #[trigger] self.stage_views@[i])@ == default_view(),
                self.model() == (AppModel { views: self.model().views, ..before }),
            decreases idx + 1 - self.stage_views@.len(),
        {
            let v = StageViewState::default();
            self.stage_views.push(v);
        }
        proof {
            assert(self.model().views =~= grown(before.views, idx as int));
        }
    }

    /// Get the current stage's view state (mutable).
    pub fn view_mut(&mut self) -> (r: &mut StageViewState)
        requires
            old(self).wf(),
        ensures
            r@ == current_view(old(self).model()),
            r.search.wf(),
            final(self).model() == with_view(old(self).model(), final(r)@),
            final(r).search.wf() ==> final(self).wf(),
    {
        let idx = self.pipeline.selected;
        proof {
            assert(self.pipeline.stages.len() == self.pipeline@.stages.len());
        }
        self.grow_views(idx);
        proof {
            assert(self.model().views[idx as int] == self.stage_views@[idx as int]@);
        }
        &mut self.stage_views[idx]
    }

    /// Position of the output that is shown.
    fn current_index(&self) -> (r: usize)
        requires
            has_output(self.model()),
        ensures
            r < self.stage_outputs@.len(),
            self.stage_outputs@[r as int]@ == current_output(self.model()),
    {
        let n: usize = self.stage_outputs.len();
        if self.pipeline.selected < n {
            self.pipeline.selected
        } else {
            n - 1
        }
    }

    /// Whether there is an output to show.
    fn shows_output(&self) -> (r: bool)
        ensures
            r == has_output(self.model()),
    {
        !self.pipeline.is_empty() && self.stage_outputs.len() > 0
    }

    /// Return the text to display in the output pager.
    ///
    /// Returns a `Cow<str>` to avoid allocating when possible (the texts of
    /// stdout and stderr are borrowed).
    pub fn current_output_text(&self) -> (r: Cow<'_, str>)
        requires
            self.wf(),
        ensures
            r@ == current_text(self.model()),
    {
        if !self.shows_output() {
            let nothing: &str = "";
            proof {
                reveal_strlit("");
                assert(""@ =~= Seq::<char>::empty());
            }
            return Cow::Borrowed(nothing);
        }
        let out = &self.stage_outputs[self.current_index()];
        match self.view().output_mode {
            OutputMode::Stdout => Cow::Borrowed(out.stdout_text()),
            OutputMode::Stderr => Cow::Borrowed(out.stderr_text()),
            OutputMode::Combined => Cow::Owned(join_combined(&out.combined)),
        }
    }
}

/// The text of a borrowed or owned string.
pub(crate) fn cow_str<'a>(text: &'a Cow<'_, str>) -> (r: &'a str)
    ensures
        r@ == text@,
{
    match text {
        Cow::Borrowed(s) => s,
        Cow::Owned(s) => s.as_str(),
    }
}

impl App {
    /// Get the pre-built ANSI line index for the current output.
    /// Returns `None` for Combined mode or when no output exists.
    pub fn current_line_index(&self) -> (r: Option<&AnsiLineIndex>)
        requires
            self.wf(),
        ensures
            r is Some <==> has_output(self.model()) && current_view(self.model()).output_mode
                != OutputMode::Combined,
            r matches Some(i) ==> i@ == index_of(current_text(self.model())),
    {
        if !self.shows_output() {
            return None;
        }
        let mode = self.view().output_mode;
        self.stage_outputs[self.current_index()].line_index(mode)
    }

    /// Returns a vector of booleans (one per line of `current_output_text()`)
    /// indicating whether each line originated from stderr. Only meaningful in
    /// Combined mode; returns an empty one otherwise.
    pub fn combined_stderr_map(&self) -> (r: Vec<bool>)
        requires
            self.wf(),
        ensures
            r@ == stderr_map(self.model()),
    {
        if !self.shows_output() {
            return Vec::new();
        }
        match self.view().output_mode {
            OutputMode::Combined => flag_lines(&self.stage_outputs[self.current_index()].combined),
            _ => Vec::new(),
        }
    }

    /// Number of display lines in current output.
    pub fn output_line_count(&self) -> (r: usize)
        requires
            self.wf(),
        ensures
            r == line_count(self.model()),
    {
        if !self.shows_output() {
            return 0;
        }
        let mode = self.view().output_mode;
        self.stage_outputs[self.current_index()].display_line_count(mode)
    }

    // -----------------------------------------------------------------------
    // Running
    // -----------------------------------------------------------------------

    /// Request the execution of stages up to and including `selected`.
    ///
    /// Pre-fills `stage_outputs` with empty placeholders so that incremental
    /// updates can append data in-place.
    pub fn trigger_exec(&mut self, force: bool)
        requires
            old(self).wf(),
        ensures
            final(self).wf(),
            final(self).model() == exec_triggered(old(self).model(), force),
    {
        let none: Vec<PreFillEntry> = Vec::new();
        proof {
            assert(fills_view(none@) =~= Seq::<FillView>::empty());
        }
        self.request_exec(force, none);
    }

    /// The same, with what is to be put into the cache first.
    fn request_exec(&mut self, force: bool, pre_fill: Vec<PreFillEntry>)
        requires
            old(self).wf(),
            fill_wf(pre_fill@),
        ensures
            final(self).wf(),
            final(self).model() == if old(self).model().pipeline.stages.len() == 0 {
                old(self).model()
            } else {
                AppModel {
                    request: Some(
                        RequestView {
                            pre_fill: fills_view(pre_fill@),
                            ..request_of(old(self).model(), force)
                        },
                    ),
                    ..exec_triggered(old(self).model(), force)
                }
            },
    {
        if self.pipeline.is_empty() {
            return;
        }
        let ghost before = self.model();
        let selected = self.pipeline.selected;
        let len: usize = self.pipeline.len();
        let count = if selected < len {
            selected + 1
        } else {
            len
        };
        let mut outputs: Vec<StageOutput> = Vec::new();
        while outputs.len() < count
            invariant
                outputs@.len() <= count,
                forall|i: int|
                    0 <= i < outputs@.len() ==> (#[trigger] outputs@[i]).wf() && outputs@[i]@
                        == empty_output(),
            decreases count - outputs@.len(),
        {
            let out = StageOutput::empty();
            outputs.push(out);
        }
        let request = ExecRequest {
            commands: self.pipeline.commands(),
            up_to: selected,
            force,
            output_modes: self.output_modes(),
            interactive_flags: self.interactive_flags(),
            pre_fill,
        };
        self.stage_outputs = outputs;
        self.running = true;
        self.error_message = None;
        self.exec_request = Some(request);
        proof {
            let want = AppModel {
                request: Some(
                    RequestView { pre_fill: fills_view(pre_fill@), ..request_of(before, force) },
                ),
                ..exec_triggered(before, force)
            };
            assert(self.model().outputs =~= want.outputs);
            assert(self.model() =~= want);
        }
    }

    /// Request the execution of stages up to and including `selected`, where the
    /// stages in front of it, if they are running, are not started again.
    fn continue_exec(&mut self)
        requires
            old(self).wf(),
            old(self).pipeline@.stages.len() > 0,
        ensures
            final(self).wf(),
            final(self).model() == exec_continued(old(self).model()),
    {
        if self.running {
            let fill = self.accumulated_outputs();
            self.request_exec(false, fill);
        } else {
            self.trigger_exec(false);
        }
    }

    /// What the stages in front of the selected one have put out so far.
    fn accumulated_outputs(&self) -> (r: Vec<PreFillEntry>)
        requires
            self.wf(),
        ensures
            fills_view(r@) == accumulated(self.model()),
            fill_wf(r@),
    {
        let n: usize = if self.pipeline.selected < self.stage_outputs.len() {
            self.pipeline.selected
        } else {
            self.stage_outputs.len()
        };
        let n: usize = if n < self.pipeline.stages.len() {
            n
        } else {
            self.pipeline.stages.len()
        };
        let ghost m = self.model();
        let modes = self.output_modes();
        let mut fill: Vec<PreFillEntry> = Vec::new();
        let mut stdin: Vec<u8> = Vec::new();
        let mut i: usize = 0;
        proof {
            assert(stdin@ =~= stage_stdin(m.outputs, view_modes(m), 0));
            assert(modes@ =~= view_modes(m));
        }
        while i < n
            invariant
                self.wf(),
                m == self.model(),
                modes@ == view_modes(m),
                i <= n <= self.stage_outputs@.len(),
                n <= self.pipeline.stages@.len(),
                fill@.len() == i,
                fill_wf(fill@),
                stdin@ == stage_stdin(m.outputs, view_modes(m), i as int),
                forall|k: int|
                    0 <= k < i ==> (#[trigger] fill@[k])@ == (FillView {
                        command: m.pipeline.stages[k].command,
                        stdin: stage_stdin(m.outputs, view_modes(m), k),
                        output: m.outputs[k],
                    }),
            decreases n - i,
        {
            let out = &self.stage_outputs[i];
            proof {
                assert(m.outputs[i as int] == out@);
                assert(m.pipeline.stages[i as int] == self.pipeline.stages@[i as int]@);
            }
            let next = extract_relay_bytes(out, mode_of(modes.as_slice(), i));
            let output = out.clone();
            fill.push(
                PreFillEntry { command: self.pipeline.stages[i].command.clone(), stdin, output },
            );
            stdin = next;
            i = i + 1;
        }
        proof {
            assert(n == filled_stages(m));
            assert(fills_view(fill@) =~= accumulated(m));
        }
        fill
    }

    /// The output mode of each view.
    fn output_modes(&self) -> (r: Vec<OutputMode>)
        ensures
            r@ == Seq::new(
                self.model().views.len(),
                |i: int| self.model().views[i].output_mode,
            ),
    {
        let mut modes: Vec<OutputMode> = Vec::new();
        let mut i: usize = 0;
        while i < self.stage_views.len()
            invariant
                i <= self.stage_views@.len(),
                modes@.len() == i,
                forall|k: int|
                    0 <= k < i ==> #[trigger] modes@[k] == self.stage_views@[k].output_mode,
            decreases self.stage_views@.len() - i,
        {
            modes.push(self.stage_views[i].output_mode);
            i = i + 1;
        }
        proof {
            assert(modes@ =~= Seq::new(
                self.model().views.len(),
                |i: int| self.model().views[i].output_mode,
            ));
        }
        modes
    }

    /// Whether each stage runs in an interactive shell.
    fn interactive_flags(&self) -> (r: Vec<bool>)
        ensures
            r@ == request_of(self.model(), true).interactive,
    {
        let mut flags: Vec<bool> = Vec::new();
        let mut i: usize = 0;
        while i < self.pipeline.stages.len()
            invariant
                i <= self.pipeline.stages@.len(),
                flags@.len() == i,
                forall|k: int|
                    0 <= k < i ==> #[trigger] flags@[k] == request_of(
                        self.model(),
                        true,
                    ).interactive[k],
            decreases self.pipeline.stages@.len() - i,
        {
            let options = self.pipeline.stages[i].overrides.resolve(&self.global_defaults);
            flags.push(options.interactive);
            i = i + 1;
        }
        proof {
            assert(flags@ =~= request_of(self.model(), true).interactive);
        }
        flags
    }

    /// Change the output mode of a given stage.
    ///
    /// When the mode changes for stage `stage_idx`, any downstream stage outputs
    /// are invalidated (truncated) because their stdin will differ.  The executor-
    /// level cache still keeps previous results keyed by command and input digest,
    /// so switching back to a previously-used mode will be a cache hit.
    pub fn set_output_mode(&mut self, stage_idx: usize, mode: OutputMode)
        requires
            old(self).wf(),
            stage_idx < usize::MAX,
        ensures
            final(self).wf(),
            final(self).model() == mode_changed(old(self).model(), stage_idx as int, mode),
    {
        let ghost before = self.model();
        self.grow_views(stage_idx);
        let ghost views = self.model().views;
        proof {
            assert(views[stage_idx as int] == self.stage_views@[stage_idx as int]@);
        }
        self.stage_views[stage_idx].output_mode = mode;
        self.stage_views[stage_idx].scroll = 0;
        proof {
            assert(self.model().views =~= views.update(
                stage_idx as int,
                ViewView { output_mode: mode, scroll: 0, ..views[stage_idx as int] },
            ));
        }
        let keep = stage_idx + 1;
        if self.stage_outputs.len() > keep {
            self.stage_outputs.truncate(keep);
            proof {
                assert(self.model().outputs =~= before.outputs.take(stage_idx + 1));
            }
        }
        self.compute_search_matches();
    }

    /// (Re-)compute search matches for the current output. Resets match index to 0.
    pub fn compute_search_matches(&mut self)
        requires
            old(self).wf(),
        ensures
            final(self).wf(),
            final(self).model() == searched(old(self).model()),
    {
        let text = self.current_output_text();
        let content = strip_ansi_sgr(cow_str(&text));
        let view = self.view_mut();
        view.search.compute(content.as_str());
    }

    /// Handle a streaming message from the background executor.
    /// Returns `true` if the UI should redraw.
    pub fn handle_stream_msg(&mut self, msg: StreamMsg) -> (r: bool)
        requires
            old(self).wf(),
            msg matches StreamMsg::StageUpdate { stage_idx, .. } ==> stage_idx < usize::MAX,
        ensures
            final(self).wf(),
            final(self).model() == msg_received(old(self).model(), msg@),
            r,
    {
        let ghost before = self.model();
        match msg {
            StreamMsg::StageUpdate { stage_idx, new_stdout, new_stderr, new_combined } => {
                if self.pipeline.is_empty() {
                    return true;
                }
                self.grow_outputs(stage_idx);
                let ghost outs = self.model().outputs;
                proof {
                    assert(outs[stage_idx as int] == self.stage_outputs@[stage_idx as int]@);
                }
                self.stage_outputs[stage_idx].append_data(
                    new_stdout.as_slice(),
                    new_stderr.as_slice(),
                    new_combined,
                );
                proof {
                    assert(self.model().outputs =~= msg_received(before, msg@).outputs);
                }
                if stage_idx < self.pipeline.stages.len() {
                    self.pipeline.stages[stage_idx].last_update = Some(self.clock_millis);
                    proof {
                        assert(self.model().pipeline.stages =~= touched(
                            before.pipeline,
                            stage_idx as int,
                            before.clock,
                        ).stages);
                    }
                }
                proof {
                    assert(self.model() =~= msg_received(before, msg@));
                }
                true
            },
            StreamMsg::StageDone { stage_idx, exit_code } => {
                if stage_idx < self.stage_outputs.len() {
                    self.stage_outputs[stage_idx].set_exit_code(exit_code);
                    proof {
                        assert(self.model().outputs =~= msg_received(before, msg@).outputs);
                    }
                }
                true
            },
            StreamMsg::AllDone { error } => {
                self.running = false;
                match error {
                    Some(err) => {
                        if !str_eq(err.as_str(), "cancelled") {
                            self.error_message = Some(err);
                        }
                    },
                    None => {},
                }
                self.compute_search_matches();
                true
            },
        }
    }

    fn grow_outputs(&mut self, idx: usize)
        requires
            old(self).wf(),
            idx < usize::MAX,
        ensures
            final(self).wf(),
            final(self).model() == (AppModel {
                outputs: outputs_grown(old(self).model().outputs, idx as int),
                ..old(self).model()
            }),
            final(self).stage_outputs@.len() > idx,
    {
        let ghost before = self.model();
        proof {
            assert(before.outputs =~= outputs_view(self.stage_outputs@));
        }
        while self.stage_outputs.len() <= idx
            invariant
                idx < usize::MAX,
                self.wf(),
                self.stage_outputs@.len() >= before.outputs.len(),
                self.stage_outputs@.len() > idx ==> self.stage_outputs@.len() == idx + 1
                    || self.stage_outputs@.len() == before.outputs.len(),
                forall|i: int|
                    0 <= i < before.outputs.len() ==> (#[trigger] self.stage_outputs@[i])@
                        == before.outputs[i],
                forall|i: int|
                    before.outputs.len() <= i < self.stage_outputs@.len() ==> (
                    #[trigger] self.stage_outputs@[i])@ == empty_output(),
                self.model() == (AppModel { outputs: self.model().outputs, ..before }),
            decreases idx + 1 - self.stage_outputs@.len(),
        {
            let out = StageOutput::empty();
            self.stage_outputs.push(out);
        }
        proof {
            assert(self.model().outputs =~= outputs_grown(before.outputs, idx as int));
        }
    }
}

/// Number of rows that a line of `len` characters takes up.
fn line_rows(len: usize, width: usize) -> (r: usize)
    ensures
        r == rows_of(len as int, width as int),
        r >= 1,
{
    let w = if width > 0 {
        width
    } else {
        1
    };
    if len == 0 {
        return 1;
    }
    let q = len / w;
    let rest = len % w;
    proof {
        let n = len as int;
        let d = w as int;
        assert(n == d * (n / d) + n % d && 0 <= n % d < d) by (nonlinear_arith)
            requires
                d > 0,
        ;
        if rest == 0 {
            assert((n + d - 1) / d == n / d && n / d >= 1) by (nonlinear_arith)
                requires
                    d > 0,
                    n > 0,
                    n == d * (n / d),
            ;
        } else {
            assert((n + d - 1) / d == n / d + 1 && n / d + 1 <= n) by (nonlinear_arith)
                requires
                    d > 0,
                    n > 0,
                    n == d * (n / d) + n % d,
                    0 < n % d < d,
            ;
        }
    }
    if rest == 0 {
        q
    } else {
        q + 1
    }
}

impl App {
    // -----------------------------------------------------------------------
    // Scrolling
    // -----------------------------------------------------------------------

    /// The first line in view when the end of the output is in view, where long
    /// lines take up several rows.
    pub fn compute_max_scroll(&self) -> (r: usize)
        requires
            self.wf(),
        ensures
            r == max_scroll(self.model()),
            line_count(self.model()) > 0 ==> r < line_count(self.model()),
    {
        proof {
            law_max_scroll_shows_end(self.model());
        }
        let text = self.current_output_text();
        let text = cow_str(&text);
        let plain = strip_ansi_sgr(text);
        let lines = split_by(plain.as_str(), '\n');
        let ghost all = shown_lines(self.model());
        let width = self.visible_output_width;
        let visible = self.visible_output_lines;
        // the last piece is no line if only control sequences are in it
        let n = shown_line_count(text);
        let mut taken: usize = 0;
        let mut rows: usize = 0;
        proof {
            assert(lines.len() <= usize::MAX);
            lemma_split_count(plain@, '\n');
            law_shown_lines_are_text_lines(text@, usize::MAX as int, Map::empty());
            assert(texts(lines@).take(n as int) =~= all);
        }
        while taken < n
            invariant
                n <= lines@.len(),
                taken <= n,
                texts(lines@).take(n as int) == all,
                all == shown_lines(self.model()),
                width == self.visible_output_width,
                visible == self.visible_output_lines,
                taken > 1 ==> rows <= visible,
                fitting(all, width as int, visible as int, taken as int, rows as int) == fitting(
                    all,
                    width as int,
                    visible as int,
                    0,
                    0,
                ),
                taken == 0 ==> rows == 0,
            decreases n - taken,
        {
            let line = lines[n - 1 - taken];
            let len: usize = chars_of(line).len();
            let r = line_rows(len, width);
            proof {
                assert(all[n - 1 - taken] == texts(lines@)[n - 1 - taken]);
            }
            if taken > 0 && (rows > visible || r > visible - rows) {
                return n - taken;
            }
            rows = rows + r;
            taken = taken + 1;
        }
        0
    }

    /// Scroll down by `n` lines.
    pub fn scroll_down(&mut self, n: usize)
        requires
            old(self).wf(),
        ensures
            final(self).wf(),
            final(self).model() == scrolled_down(old(self).model(), n as int),
    {
        let bottom = self.compute_max_scroll();
        let to = self.view().scroll.saturating_add(n);
        let to = if to < bottom {
            to
        } else {
            bottom
        };
        self.scroll_to(to);
    }

    /// Scroll up by `n` lines.
    pub fn scroll_up(&mut self, n: usize)
        requires
            old(self).wf(),
        ensures
            final(self).wf(),
            final(self).model() == scrolled_up(old(self).model(), n as int),
    {
        let to = self.view().scroll.saturating_sub(n);
        self.scroll_to(to);
    }

    fn scroll_to(&mut self, line: usize)
        requires
            old(self).wf(),
        ensures
            final(self).wf(),
            final(self).model() == scrolled_to(old(self).model(), line as int),
    {
        let view = self.view_mut();
        view.scroll = line;
    }

    // -----------------------------------------------------------------------
    // Searching
    // -----------------------------------------------------------------------

    /// Enter search mode, clearing any previous query.
    pub fn start_search(&mut self)
        requires
            old(self).wf(),
        ensures
            final(self).wf(),
            final(self).model() == search_cleared(old(self).model(), ModeView::Searching),
    {
        self.clear_search();
        self.mode = AppMode::Searching;
    }

    /// Cancel search and clear all highlights.
    pub fn cancel_search(&mut self)
        requires
            old(self).wf(),
        ensures
            final(self).wf(),
            final(self).model() == search_cleared(old(self).model(), ModeView::Normal),
    {
        self.clear_search();
        self.mode = AppMode::Normal;
    }

    fn clear_search(&mut self)
        requires
            old(self).wf(),
        ensures
            final(self).wf(),
            final(self).model() == search_cleared(old(self).model(), old(self).model().mode),
    {
        let view = self.view_mut();
        view.search.clear();
        self.search_history.reset_navigation();
    }

    /// Confirm the search query and compute matches. The first match at or after
    /// the current scroll position is shown, so the search starts from where the
    /// user is looking rather than from the top of the buffer.
    pub fn confirm_search(&mut self)
        requires
            old(self).wf(),
        ensures
            final(self).wf(),
            final(self).model() == search_confirmed(old(self).model()),
    {
        let query = self.view().search.query.clone();
        self.search_history.push(query.as_str());
        self.compute_search_matches();
        self.mode = AppMode::Normal;
        let view = self.view_mut();
        let n: usize = view.search.matches.len();
        if n > 0 {
            let first = count_before(&view.search.matches, view.scroll, false);
            let idx = if first >= n {
                0
            } else {
                first
            };
            view.search.match_idx = idx;
            view.scroll = view.search.matches[idx].0;
        }
    }

    /// Advance to the next search match relative to the current scroll position.
    ///
    /// If the current match is still on the scroll line (user hasn't scrolled
    /// away), simply step to `match_idx + 1` so that multiple matches on the
    /// same line are visited one by one.  If the user has scrolled away, jump
    /// to the first match *after* the current scroll position.
    pub fn search_next(&mut self)
        requires
            old(self).wf(),
        ensures
            final(self).wf(),
            final(self).model() == with_view(
                old(self).model(),
                next_match_view(current_view(old(self).model())),
            ),
    {
        let view = self.view_mut();
        let n: usize = view.search.matches.len();
        if n > 0 {
            let at = view.search.match_idx;
            let idx = if view.search.matches[at].0 == view.scroll {
                if at + 1 < n {
                    at + 1
                } else {
                    0
                }
            } else {
                let after = count_before(&view.search.matches, view.scroll, true);
                if after < n {
                    after
                } else {
                    0
                }
            };
            view.search.match_idx = idx;
            view.scroll = view.search.matches[idx].0;
        }
    }

    /// Go back to the previous search match relative to the current scroll position.
    ///
    /// Same logic as `search_next` but in reverse: sequential step when on
    /// the current match's line, binary search when the user has scrolled away.
    pub fn search_prev(&mut self)
        requires
            old(self).wf(),
        ensures
            final(self).wf(),
            final(self).model() == with_view(
                old(self).model(),
                prev_match_view(current_view(old(self).model())),
            ),
    {
        let view = self.view_mut();
        let n: usize = view.search.matches.len();
        if n > 0 {
            let at = view.search.match_idx;
            let idx = if view.search.matches[at].0 == view.scroll {
                if at > 0 {
                    at - 1
                } else {
                    n - 1
                }
            } else {
                let before = count_before(&view.search.matches, view.scroll, false);
                if before > 0 {
                    before - 1
                } else {
                    n - 1
                }
            };
            view.search.match_idx = idx;
            view.scroll = view.search.matches[idx].0;
        }
    }
}

impl App {
    // -----------------------------------------------------------------------
    // Changing the pipeline
    // -----------------------------------------------------------------------

    /// The pipeline as it is.
    fn take_snapshot(&self) -> (r: Snapshot)
        ensures
            r@ == snapshot(self.model()),
    {
        let mut modes: Vec<OutputMode> = Vec::new();
        let n: usize = self.pipeline.len();
        while modes.len() < n
            invariant
                n == self.model().pipeline.stages.len(),
                modes@.len() <= n,
                forall|i: int|
                    0 <= i < modes@.len() ==> #[trigger] modes@[i] == snapshot(
                        self.model(),
                    ).modes[i],
            decreases n - modes@.len(),
        {
            let i: usize = modes.len();
            let mode = if i < self.stage_views.len() {
                self.stage_views[i].output_mode
            } else {
                OutputMode::Stdout
            };
            modes.push(mode);
        }
        proof {
            assert(modes@ =~= snapshot(self.model()).modes);
        }
        Snapshot { pipeline: self.pipeline.clone(), output_modes: modes }
    }

    /// Keep the pipeline as it is, so that the change that follows can be undone.
    fn save_undo(&mut self)
        requires
            old(self).wf(),
        ensures
            final(self).wf(),
            final(self).model() == noted(old(self).model()),
    {
        let ghost before = self.model();
        let s = self.take_snapshot();
        self.undo_stack.push(s);
        self.redo_stack = Vec::new();
        proof {
            assert(self.model().undo =~= before.undo.push(s@));
            assert(self.model().redo =~= Seq::<SnapshotView>::empty());
            assert(self.model() =~= noted(before));
        }
    }

    /// Run the pipeline after it has changed.
    fn after_change(&mut self)
        requires
            old(self).wf(),
        ensures
            final(self).wf(),
            final(self).model() == rerun(old(self).model()),
    {
        if self.pipeline.is_empty() {
            self.stage_outputs = Vec::new();
            self.running = false;
            proof {
                assert(self.model().outputs =~= Seq::<OutputView>::empty());
            }
        } else {
            self.trigger_exec(false);
        }
    }

    /// Bring a pipeline back.
    fn restore(&mut self, s: Snapshot)
        requires
            old(self).wf(),
            s@.pipeline.wf(),
        ensures
            final(self).wf(),
            final(self).model() == brought_back(old(self).model(), s@),
    {
        let mut views: Vec<StageViewState> = Vec::new();
        while views.len() < s.output_modes.len()
            invariant
                views@.len() <= s.output_modes@.len(),
                forall|i: int|
                    0 <= i < views@.len() ==> (#[trigger] views@[i]).search.wf() && views@[i]@ == (
                    ViewView { output_mode: s.output_modes@[i], ..default_view() }),
            decreases s.output_modes@.len() - views@.len(),
        {
            let mut v = StageViewState::default();
            v.output_mode = s.output_modes[views.len()];
            views.push(v);
        }
        self.pipeline = s.pipeline;
        self.stage_views = views;
        proof {
            assert(self.model().views =~= Seq::new(
                s@.modes.len(),
                |i: int| ViewView { output_mode: s@.modes[i], ..default_view() },
            ));
        }
        self.after_change();
    }

    /// Undo the last pipeline change.
    pub fn undo(&mut self)
        requires
            old(self).wf(),
        ensures
            final(self).wf(),
            final(self).model() == undone(old(self).model()),
    {
        let ghost before = self.model();
        if self.undo_stack.len() == 0 {
            return;
        }
        let now = self.take_snapshot();
        match self.undo_stack.pop() {
            Some(s) => {
                self.redo_stack.push(now);
                proof {
                    assert(before.undo.last() == s@);
                    assert(self.model().undo =~= before.undo.drop_last());
                    assert(self.model().redo =~= before.redo.push(now@));
                }
                self.restore(s);
            },
            None => {},
        }
    }

    /// Redo the pipeline change that was undone last.
    pub fn redo(&mut self)
        requires
            old(self).wf(),
        ensures
            final(self).wf(),
            final(self).model() == redone(old(self).model()),
    {
        let ghost before = self.model();
        if self.redo_stack.len() == 0 {
            return;
        }
        let now = self.take_snapshot();
        match self.redo_stack.pop() {
            Some(s) => {
                self.undo_stack.push(now);
                proof {
                    assert(before.redo.last() == s@);
                    assert(self.model().redo =~= before.redo.drop_last());
                    assert(self.model().undo =~= before.undo.push(now@));
                }
                self.restore(s);
            },
            None => {},
        }
    }

    /// Remove a stage view at the given index.
    fn remove_stage_view(&mut self, idx: usize)
        requires
            old(self).wf(),
        ensures
            final(self).wf(),
            final(self).model() == (AppModel {
                views: view_removed(old(self).model().views, idx as int),
                ..old(self).model()
            }),
    {
        let ghost before = self.model();
        if idx < self.stage_views.len() {
            self.stage_views.remove(idx);
            proof {
                assert(self.model().views =~= before.views.remove(idx as int));
            }
        }
    }

    /// Remove the selected stage and its view.
    fn remove_stage(&mut self)
        requires
            old(self).wf(),
        ensures
            final(self).wf(),
            final(self).model() == stage_removed(old(self).model()),
    {
        let removed_idx = self.pipeline.selected;
        self.pipeline.remove_selected();
        self.remove_stage_view(removed_idx);
    }

    /// Delete the selected stage.
    fn delete_stage(&mut self)
        requires
            old(self).wf(),
        ensures
            final(self).wf(),
            final(self).model() == stage_deleted(old(self).model()),
    {
        self.save_undo();
        self.remove_stage();
        self.after_change();
    }

    /// Ensure stage_views has an entry for every pipeline stage, where the
    /// selected one was just inserted.
    fn sync_stage_views(&mut self)
        requires
            old(self).wf(),
            old(self).pipeline@.stages.len() > 0,
        ensures
            final(self).wf(),
            final(self).model() == (AppModel {
                views: view_inserted(
                    old(self).model().views,
                    old(self).model().pipeline.stages.len() - 1,
                    old(self).model().pipeline.selected,
                ),
                ..old(self).model()
            }),
    {
        let ghost before = self.model();
        let count: usize = self.pipeline.len() - 1;
        if count > 0 {
            self.grow_views(count - 1);
        }
        let ghost full = self.stage_views@;
        self.stage_views.truncate(count);
        let at = self.pipeline.selected;
        self.stage_views.insert(at, StageViewState::default());
        proof {
            let cut = grown(before.views, count - 1).take(count as int);
            assert(views_view(full) =~= grown(before.views, count - 1));
            assert(views_view(full.take(count as int)) =~= cut);
            assert(self.model().views =~= cut.insert(at as int, default_view()));
            assert forall|i: int| 0 <= i < self.stage_views@.len() implies (
            #[trigger] self.stage_views@[i]).search.wf() by {
                if i < at {
                    assert(self.stage_views@[i] == full[i]);
                } else if i > at {
                    assert(self.stage_views@[i] == full[i - 1]);
                }
            }
        }
    }

    /// Insert a new stage behind or before the selected one, and edit it.
    fn insert_stage(&mut self, before_selected: bool)
        requires
            old(self).wf(),
        ensures
            final(self).wf(),
            final(self).model() == stage_inserted(old(self).model(), before_selected),
    {
        self.save_undo();
        if before_selected {
            self.pipeline.insert_before_selected();
        } else {
            self.pipeline.insert_after_selected();
        }
        self.sync_stage_views();
        self.edit_selected(true);
    }

    /// Start editing the current stage's command.
    pub fn start_editing(&mut self)
        requires
            old(self).wf(),
        ensures
            final(self).wf(),
            final(self).model() == editing_started(old(self).model(), false),
    {
        self.edit_selected(false);
    }

    fn edit_selected(&mut self, pending_new_stage: bool)
        requires
            old(self).wf(),
        ensures
            final(self).wf(),
            final(self).model() == editing_started(old(self).model(), pending_new_stage),
    {
        let cmd = match self.pipeline.selected_stage() {
            Some(stage) => stage.command.clone(),
            None => String::new(),
        };
        proof {
            assert(cmd@ =~= selected_command(self.model()));
        }
        self.mode = AppMode::Editing { editor: EditorState::new(cmd), pending_new_stage };
    }

    /// Give the selected stage the command `text`.
    fn change_command(&mut self, text: String, pending_new_stage: bool) -> (changed: bool)
        requires
            old(self).wf(),
        ensures
            final(self).wf(),
            final(self).model() == command_changed(
                old(self).model(),
                text@,
                pending_new_stage,
            ),
            changed == (old(self).model().pipeline.selected
                < old(self).model().pipeline.stages.len() && selected_command(old(self).model())
                != text@),
    {
        let modified = match self.pipeline.selected_stage() {
            Some(stage) => !str_eq(stage.command.as_str(), text.as_str()),
            None => false,
        };
        if modified {
            if !pending_new_stage {
                self.save_undo();
            }
            let ghost before = self.model();
            let i = self.pipeline.selected;
            self.pipeline.stages[i].command = text;
            proof {
                assert(self.model().pipeline.stages =~= command_set(
                    before.pipeline,
                    text@,
                ).stages);
            }
        }
        modified
    }

    /// Use the current text of the editor and execute it in the stage, without
    /// closing the editor.
    pub fn update_edit(&mut self)
        requires
            old(self).wf(),
        ensures
            final(self).wf(),
            final(self).model() == edit_updated(old(self).model()),
    {
        let edit = match &self.mode {
            AppMode::Editing { editor, pending_new_stage } => {
                proof {
                    lemma_caret_splits(editor.content@, editor.cursor as int);
                }
                Some((editor.content.clone(), *pending_new_stage))
            },
            _ => None,
        };
        match edit {
            Some((text, pending)) => {
                self.change_command(text, pending);
            },
            None => {},
        }
        self.trigger_exec(false);
    }

    /// Confirm an edit and update the pipeline stage.
    pub fn confirm_edit(&mut self)
        requires
            old(self).wf(),
        ensures
            final(self).wf(),
            final(self).model() == edit_confirmed(old(self).model()),
    {
        let mut mode = AppMode::Normal;
        std::mem::swap(&mut self.mode, &mut mode);
        match mode {
            AppMode::Editing { editor, pending_new_stage } => {
                proof {
                    lemma_caret_splits(editor.content@, editor.cursor as int);
                }
                if self.change_command(editor.content, pending_new_stage) {
                    if pending_new_stage {
                        self.continue_exec();
                    } else {
                        self.trigger_exec(false);
                    }
                }
            },
            _ => {},
        }
    }

    /// Cancel editing.
    pub fn cancel_edit(&mut self)
        requires
            old(self).wf(),
        ensures
            final(self).wf(),
            final(self).model() == edit_cancelled(old(self).model()),
    {
        let pending = match &self.mode {
            AppMode::Editing { editor, pending_new_stage } => *pending_new_stage,
            _ => false,
        };
        if pending {
            self.remove_stage();
        }
        self.mode = AppMode::Normal;
    }

    /// Start the save-to-file dialog.
    pub fn start_saving(&mut self)
        requires
            old(self).wf(),
        ensures
            final(self).wf(),
            final(self).model() == (AppModel {
                mode: ModeView::Saving(editor_with(Seq::empty())),
                ..old(self).model()
            }),
    {
        self.mode = AppMode::Saving(EditorState::empty());
    }

    /// Confirm saving output to a file.
    pub fn confirm_save(&mut self)
        requires
            old(self).wf(),
        ensures
            final(self).wf(),
            final(self).model() == save_confirmed(old(self).model()),
    {
        let text = self.current_output_text();
        let content = cow_str(&text).to_owned();
        let mut mode = AppMode::Normal;
        std::mem::swap(&mut self.mode, &mut mode);
        match mode {
            AppMode::Saving(editor) => {
                proof {
                    lemma_caret_splits(editor.content@, editor.cursor as int);
                }
                if !editor.content.as_str().is_empty() {
                    self.save_request = Some(SaveRequest { path: editor.content, content });
                }
            },
            _ => {},
        }
    }

    /// The output could not be written to the file.
    pub fn save_failed(&mut self, error: &str)
        requires
            old(self).wf(),
        ensures
            final(self).wf(),
            final(self).model() == save_not_done(old(self).model(), error@),
    {
        let mut text = "Save failed: ".to_owned();
        text.append(error);
        self.error_message = Some(text);
    }

    /// Return a mutable reference to the active `EditorState`, if any.
    pub fn editor_mut(&mut self) -> (r: Option<&mut EditorState>)
        requires
            old(self).wf(),
        ensures
            match r {
                Some(e) => {
                    &&& active_editor(old(self).model().mode) == Some(e@)
                    &&& e.wf()
                    &&& final(self).model() == (AppModel {
                        mode: editor_replaced(old(self).model().mode, final(e)@),
                        ..old(self).model()
                    })
                    &&& final(e).wf() ==> final(self).wf()
                },
                None => {
                    &&& active_editor(old(self).model().mode) is None
                    &&& *final(self) == *old(self)
                },
            },
    {
        match &mut self.mode {
            AppMode::Editing { editor, .. } => Some(editor),
            AppMode::Saving(editor) => Some(editor),
            AppMode::Command(editor) => Some(editor),
            _ => None,
        }
    }

    /// Adjust the horizontal scroll of the editor so the cursor remains visible.
    ///
    /// `inner_width` is the number of visible columns in the editor text area
    /// (dialog width minus left/right borders).
    pub fn update_editor_scroll(&mut self, inner_width: usize)
        requires
            old(self).wf(),
        ensures
            final(self).wf(),
            final(self).model() == editor_scrolled(old(self).model(), inner_width as int),
    {
        match self.editor_mut() {
            Some(editor) => {
                editor.update_scroll(inner_width);
            },
            None => {},
        }
    }
}

impl App {
    // -----------------------------------------------------------------------
    // Keys
    // -----------------------------------------------------------------------

    /// Select the next stage and show its output.
    fn go_right(&mut self)
        requires
            old(self).wf(),
        ensures
            final(self).wf(),
            final(self).model() == normal_named_key(old(self).model(), KeyCode::Right),
    {
        self.pipeline.select_next();
        self.show_selected();
    }

    /// Select the previous stage and show its output.
    fn go_left(&mut self)
        requires
            old(self).wf(),
        ensures
            final(self).wf(),
            final(self).model() == normal_named_key(old(self).model(), KeyCode::Left),
    {
        self.pipeline.select_prev();
        self.show_selected();
    }

    /// Show the output of the selected stage; only run the pipeline if it isn't
    /// there yet.
    fn show_selected(&mut self)
        requires
            old(self).wf(),
        ensures
            final(self).wf(),
            final(self).model() == searched(exec_if_missing(old(self).model())),
    {
        if self.pipeline.selected >= self.stage_outputs.len() {
            self.trigger_exec(false);
        }
        self.compute_search_matches();
    }

    /// Delete the selected stage, or ask first if later stages depend on it.
    fn press_delete(&mut self)
        requires
            old(self).wf(),
        ensures
            final(self).wf(),
            final(self).model() == delete_pressed(old(self).model()),
    {
        if !self.pipeline.is_empty() {
            if self.pipeline.selected == self.pipeline.len() - 1 {
                self.delete_stage();
            } else {
                self.mode = AppMode::ConfirmingDelete;
            }
        }
    }

    /// Change the output mode of the selected stage.
    fn set_selected_mode(&mut self, mode: OutputMode)
        requires
            old(self).wf(),
        ensures
            final(self).wf(),
            final(self).model() == mode_changed(
                old(self).model(),
                old(self).model().pipeline.selected,
                mode,
            ),
    {
        let idx = self.pipeline.selected;
        proof {
            assert(self.pipeline.stages.len() == self.pipeline@.stages.len());
        }
        self.set_output_mode(idx, mode);
    }

    /// Handle a key other than a character in Normal mode.
    fn handle_named_key(&mut self, code: KeyCode)
        requires
            old(self).wf(),
        ensures
            final(self).wf(),
            final(self).model() == normal_named_key(old(self).model(), code),
    {
        match code {
            KeyCode::Right => self.go_right(),
            KeyCode::Left => self.go_left(),
            KeyCode::Delete => self.press_delete(),
            KeyCode::Down => self.scroll_down(1),
            KeyCode::Up => self.scroll_up(1),
            KeyCode::PageDown => {
                let n = self.page_lines();
                self.scroll_down(n);
            },
            KeyCode::PageUp => {
                let n = self.page_lines();
                self.scroll_up(n);
            },
            KeyCode::Home => self.scroll_to(0),
            KeyCode::End => {
                let bottom = self.compute_max_scroll();
                self.scroll_to(bottom);
            },
            KeyCode::Esc => self.cancel_search(),
            _ => {},
        }
    }

    /// Number of lines in a page of output.
    fn page_lines(&self) -> (r: usize)
        ensures
            r == full_page(self.model()),
    {
        if self.visible_output_lines > 1 {
            self.visible_output_lines
        } else {
            1
        }
    }

    /// Number of lines in half a page of output.
    fn half_page_lines(&self) -> (r: usize)
        ensures
            r == half_page(self.model()),
    {
        if self.visible_output_lines > 1 {
            self.visible_output_lines / 2
        } else {
            1
        }
    }

    /// Handle a character with the control key held down in Normal mode.
    /// Returns whether it means something of its own.
    fn handle_control_char(&mut self, ch: char, shift: bool) -> (r: bool)
        requires
            old(self).wf(),
        ensures
            final(self).wf(),
            match normal_control_char(old(self).model(), ch, shift) {
                Some(m) => r && final(self).model() == m,
                None => !r && final(self).model() == old(self).model(),
            },
    {
        if ch == 'z' && !shift {
            self.undo();
        } else if ch == 'Z' || ch == 'z' || ch == 'r' {
            self.redo();
        } else if ch == 'd' {
            let n = self.half_page_lines();
            self.scroll_down(n);
        } else if ch == 'u' {
            let n = self.half_page_lines();
            self.scroll_up(n);
        } else if ch == 'f' {
            let n = self.page_lines();
            self.scroll_down(n);
        } else if ch == 'b' {
            let n = self.page_lines();
            self.scroll_up(n);
        } else {
            return false;
        }
        true
    }

    /// Handle a character in Normal mode.
    fn handle_char(&mut self, ch: char)
        requires
            old(self).wf(),
        ensures
            final(self).wf(),
            final(self).model() == normal_char(old(self).model(), ch),
    {
        if ch == 'l' {
            self.go_right();
        } else if ch == 'h' {
            self.go_left();
        } else if ch == 'e' {
            if !self.pipeline.is_empty() {
                self.start_editing();
            }
        } else if ch == 'o' || ch == '|' {
            self.insert_stage(false);
        } else if ch == 'O' {
            self.insert_stage(true);
        } else if ch == 'n' {
            self.search_next();
        } else if ch == 'N' || ch == 'p' {
            self.search_prev();
        } else if ch == 'd' {
            self.press_delete();
        } else if ch == 'u' {
            self.undo();
        } else if ch == 'r' {
            self.trigger_exec(true);
        } else if ch == 's' {
            self.start_saving();
        } else if ch == 'm' {
            let mode = match self.view().output_mode {
                OutputMode::Stdout => OutputMode::Stderr,
                OutputMode::Stderr => OutputMode::Combined,
                OutputMode::Combined => OutputMode::Stdout,
            };
            self.set_selected_mode(mode);
        } else if ch == '1' {
            self.set_selected_mode(OutputMode::Stdout);
        } else if ch == '2' {
            self.set_selected_mode(OutputMode::Stderr);
        } else if ch == '3' {
            self.set_selected_mode(OutputMode::Combined);
        } else if ch == 'j' {
            self.scroll_down(1);
        } else if ch == 'k' {
            self.scroll_up(1);
        } else if ch == 'g' {
            self.scroll_to(0);
        } else if ch == 'G' {
            let bottom = self.compute_max_scroll();
            self.scroll_to(bottom);
        } else if ch == '/' {
            self.start_search();
        } else if ch == '?' {
            self.show_help = !self.show_help;
        } else if ch == ':' {
            self.mode = AppMode::Command(EditorState::empty());
        }
    }

    /// Handle a single keyboard key event in Normal mode.
    /// Returns `true` if the app should quit.
    pub fn handle_normal_key(&mut self, key: KeyEvent) -> (r: bool)
        requires
            old(self).wf(),
        ensures
            final(self).wf(),
            r == is_quit(key),
            final(self).model() == if is_quit(key) {
                old(self).model()
            } else {
                normal_key(old(self).model(), key)
            },
    {
        match key.code {
            KeyCode::Char(ch) => {
                if ch == 'q' || (ch == 'c' && key.modifiers.control) {
                    return true;
                }
                if !(key.modifiers.control && self.handle_control_char(ch, key.modifiers.shift)) {
                    self.handle_char(ch);
                }
            },
            code => {
                self.handle_named_key(code);
            },
        }
        false
    }

    /// Hand a key to the active editor.
    fn pass_to_editor(&mut self, key: KeyEvent)
        requires
            old(self).wf(),
        ensures
            final(self).wf(),
            final(self).model() == editor_key(old(self).model(), key),
    {
        match self.editor_mut() {
            Some(editor) => {
                editor.handle_key(key);
            },
            None => {},
        }
    }

    /// Handle a key event in the inline editor.
    pub fn handle_editor_key(&mut self, key: KeyEvent)
        requires
            old(self).wf(),
        ensures
            final(self).wf(),
            final(self).model() == dialog_key(old(self).model(), key),
    {
        match key.code {
            KeyCode::Esc => self.cancel_edit(),
            KeyCode::Tab => self.update_edit(),
            KeyCode::Enter => {
                let (editing, saving) = match &self.mode {
                    AppMode::Editing { .. } => (true, false),
                    AppMode::Saving(_) => (false, true),
                    _ => (false, false),
                };
                if editing {
                    self.confirm_edit();
                } else if saving {
                    self.confirm_save();
                }
            },
            _ => self.pass_to_editor(key),
        }
    }

    /// Handle a key event in the delete confirmation prompt.
    pub fn handle_confirm_delete_key(&mut self, key: KeyEvent)
        requires
            old(self).wf(),
        ensures
            final(self).wf(),
            final(self).model() == confirm_delete_key(old(self).model(), key),
    {
        self.mode = AppMode::Normal;
        match key.code {
            KeyCode::Char(ch) => {
                if ch == 'y' || ch == 'Y' {
                    self.delete_stage();
                }
            },
            _ => {},
        }
    }

    /// Replace the search query, with the cursor at its end.
    fn replace_query(&mut self, text: String)
        requires
            old(self).wf(),
        ensures
            final(self).wf(),
            final(self).model() == query_set(old(self).model(), text@, byte_len(text@) as int),
    {
        proof {
            lemma_caret_ends(text@);
        }
        let view = self.view_mut();
        view.search.cursor = byte_count(text.as_str());
        view.search.query = text;
    }

    /// Handle a key event while entering a search query.
    pub fn handle_search_key(&mut self, key: KeyEvent)
        requires
            old(self).wf(),
        ensures
            final(self).wf(),
            final(self).model() == search_key(old(self).model(), key),
    {
        match key.code {
            KeyCode::Esc => self.cancel_search(),
            KeyCode::Enter => self.confirm_search(),
            KeyCode::Up => {
                let current = self.view().search.query.clone();
                match self.search_history.navigate_up(current.as_str()) {
                    Some(text) => self.replace_query(text),
                    None => {},
                }
            },
            KeyCode::Down => {
                let current = self.view().search.query.clone();
                match self.search_history.navigate_down(current.as_str()) {
                    Some(text) => self.replace_query(text),
                    None => {},
                }
            },
            KeyCode::Char(ch) => {
                if ch == 'r' && key.modifiers.alt {
                    match self.search_history.revert_current() {
                        Some(text) => self.replace_query(text),
                        None => {},
                    }
                } else if !key.modifiers.control && !key.modifiers.alt {
                    self.edit_query(key);
                }
            },
            KeyCode::Backspace => self.edit_query(key),
            KeyCode::Delete => self.edit_query(key),
            KeyCode::Left => self.edit_query(key),
            KeyCode::Right => self.edit_query(key),
            KeyCode::Home => self.edit_query(key),
            KeyCode::End => self.edit_query(key),
            _ => {},
        }
    }

    /// Handle a key that changes the search query or moves the cursor in it.
    fn edit_query(&mut self, key: KeyEvent)
        requires
            old(self).wf(),
            match key.code {
                KeyCode::Char(_) => !key.modifiers.control && !key.modifiers.alt,
                KeyCode::Backspace => true,
                KeyCode::Delete => true,
                KeyCode::Left => true,
                KeyCode::Right => true,
                KeyCode::Home => true,
                KeyCode::End => true,
                _ => false,
            },
        ensures
            final(self).wf(),
            final(self).model() == search_key(old(self).model(), key),
    {
        let view = self.view_mut();
        let ghost q = view.search.query@;
        let ghost at = view.search.cursor as int;
        proof {
            lemma_caret_splits(q, at);
            lemma_caret_ends(q);
        }
        match key.code {
            KeyCode::Backspace => {
                backspace_at(&mut view.search.query, &mut view.search.cursor);
            },
            KeyCode::Delete => {
                delete_at(&mut view.search.query, view.search.cursor);
            },
            KeyCode::Left => {
                view.search.cursor = left_of(view.search.query.as_str(), view.search.cursor);
            },
            KeyCode::Right => {
                view.search.cursor = right_of(view.search.query.as_str(), view.search.cursor);
            },
            KeyCode::Home => {
                view.search.cursor = 0;
            },
            KeyCode::End => {
                view.search.cursor = byte_count(view.search.query.as_str());
            },
            KeyCode::Char(ch) => {
                insert_char_at(&mut view.search.query, &mut view.search.cursor, ch);
            },
            _ => {},
        }
        proof {
            lemma_caret_splits(view.search.query@, view.search.cursor as int);
        }
    }

    /// Handle a key event while in command mode (`:` prompt).
    /// Returns `true` if the app should quit.
    pub fn handle_command_key(&mut self, key: KeyEvent) -> (r: bool)
        requires
            old(self).wf(),
        ensures
            final(self).wf(),
            (final(self).model(), r) == command_key(old(self).model(), key),
    {
        match key.code {
            KeyCode::Esc => {
                self.mode = AppMode::Normal;
            },
            KeyCode::Enter => {
                let cmd = match &self.mode {
                    AppMode::Command(editor) => {
                        proof {
                            lemma_caret_splits(editor.content@, editor.cursor as int);
                        }
                        trim(editor.content.as_str()).to_owned()
                    },
                    _ => String::new(),
                };
                self.mode = AppMode::Normal;
                let cmd = cmd.as_str();
                if str_eq(cmd, "h") || str_eq(cmd, "help") {
                    self.show_help = true;
                } else if str_eq(cmd, "q") || str_eq(cmd, "quit") {
                    return true;
                }
            },
            KeyCode::Tab => {
                self.complete_command();
            },
            _ => self.pass_to_editor(key),
        }
        false
    }

    /// Complete the command that is being entered.
    fn complete_command(&mut self)
        requires
            old(self).wf(),
        ensures
            final(self).wf(),
            final(self).model() == command_key(
                old(self).model(),
                KeyEvent {
                    code: KeyCode::Tab,
                    modifiers: crate::keys::KeyModifiers {
                        shift: false,
                        control: false,
                        alt: false,
                    },
                },
            ).0,
    {
        match &mut self.mode {
            AppMode::Command(editor) => {
                proof {
                    lemma_caret_splits(editor.content@, editor.cursor as int);
                }
                let completed = if starts_with("help", editor.content.as_str()) {
                    Some("help")
                } else if starts_with("quit", editor.content.as_str()) {
                    Some("quit")
                } else {
                    None
                };
                match completed {
                    Some(cmd) => {
                        proof {
                            lemma_caret_ends(cmd@);
                        }
                        editor.content = cmd.to_owned();
                        editor.cursor = byte_count(cmd);
                    },
                    None => {},
                }
            },
            _ => {},
        }
    }

    /// Handle a terminal event. Returns `true` if the app should quit.
    pub fn handle_event(&mut self, event: Event) -> (r: bool)
        requires
            old(self).wf(),
        ensures
            final(self).wf(),
            (final(self).model(), r) == event_handled(old(self).model(), event),
    {
        // Close help on any key
        if self.show_help {
            self.show_help = false;
            return false;
        }
        match event {
            Event::Key(key) => {
                let kind: u8 = match &self.mode {
                    AppMode::Normal => 0,
                    AppMode::Editing { .. } => 1,
                    AppMode::Saving(_) => 1,
                    AppMode::ConfirmingDelete => 2,
                    AppMode::Command(_) => 3,
                    AppMode::Searching => 4,
                };
                if kind == 0 {
                    return self.handle_normal_key(key);
                } else if kind == 1 {
                    self.handle_editor_key(key);
                } else if kind == 2 {
                    self.handle_confirm_delete_key(key);
                } else if kind == 3 {
                    return self.handle_command_key(key);
                } else {
                    self.handle_search_key(key);
                }
                false
            },
            Event::Other => false,
        }
    }
}

} // verus!

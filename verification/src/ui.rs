//! What is on the screen around the output: the bar of stages, the status bar
//! and the dialogs. Drawing it is left to the renderer.
use vstd::prelude::*;

use crate::app::{App, AppMode, StageViewState};
use crate::app_model::{current_view, AppModel, ModeView, ViewView};
use crate::caret::{caret_at, on_boundary, split_caret};
use crate::editor::{dialog_width_of, EditorState};
use crate::executor::output::{capped, line_total, OutputMode, OutputView, StageOutput};
use crate::history::{EntryView, HistoryEntry};
use crate::number::{decimal, push_decimal};
use crate::options::{no_overrides, resolved, GlobalDefaults, OptionsView, OverridesView};
use crate::pipeline::{Pipeline, PipelineView};
use crate::style::{
    lemma_lines_view_push, lemma_spans_view_push, lines_view, spans_view, Color, Line, Span,
    SpanView, Style,
};
use crate::text::{byte_count, byte_len, char_width, next_char, opt_text};
use crate::text_tools::{
    join, join_texts, padded_left, padded_right, push_padded, push_padded_right,
};

verus! {

/// Maximum width (columns) of the command editor overlay dialog.
pub const EDITOR_DIALOG_MAX_WIDTH: u16 = 120;

/// Maximum width (columns) of the save-to-file dialog.
pub const SAVE_DIALOG_MAX_WIDTH: u16 = 60;

/// How long a stage/pipe highlight remains visible after the last data chunk was
/// received, in milliseconds. Slightly longer than the interval between the
/// executor's updates to prevent blinking between consecutive updates.
pub const DATA_ACTIVE_MILLIS: u64 = 101;

// ---------------------------------------------------------------------------
// Spans
// ---------------------------------------------------------------------------

/// Text in a style.
pub open spec fn styled(content: Seq<char>, style: Style) -> SpanView {
    SpanView { content, style }
}

/// Text in the plain style.
pub open spec fn raw(content: Seq<char>) -> SpanView {
    SpanView { content, style: Style::spec_plain() }
}

/// The plain style in a colour.
pub open spec fn coloured(c: Color) -> Style {
    Style::spec_plain().spec_fg(c)
}

pub(crate) fn push_styled(spans: &mut Vec<Span>, content: String, style: Style)
    ensures
        spans_view(final(spans)@) == spans_view(old(spans)@).push(styled(content@, style)),
{
    let span = Span::styled(content, style);
    proof {
        lemma_spans_view_push(spans@, span);
    }
    spans.push(span);
}

pub(crate) fn push_raw(spans: &mut Vec<Span>, content: String)
    ensures
        spans_view(final(spans)@) == spans_view(old(spans)@).push(raw(content@)),
{
    push_styled(spans, content, Style::plain());
}

fn push_line(lines: &mut Vec<Line>, spans: Vec<Span>)
    ensures
        lines_view(final(lines)@) == lines_view(old(lines)@).push(spans_view(spans@)),
{
    let line = Line { spans };
    proof {
        lemma_lines_view_push(lines@, line);
    }
    lines.push(line);
}

/// Append a line of plain text.
fn push_text_line(lines: &mut Vec<Line>, text: String)
    ensures
        lines_view(final(lines)@) == lines_view(old(lines)@).push(seq![raw(text@)]),
{
    let mut spans: Vec<Span> = Vec::new();
    proof {
        assert(spans_view(spans@) =~= Seq::<SpanView>::empty());
    }
    push_raw(&mut spans, text);
    proof {
        assert(spans_view(spans@) =~= seq![raw(text@)]);
    }
    push_line(lines, spans);
}

fn no_spans() -> (r: Vec<Span>)
    ensures
        spans_view(r@) == Seq::<SpanView>::empty(),
{
    let r: Vec<Span> = Vec::new();
    proof {
        assert(spans_view(r@) =~= Seq::<SpanView>::empty());
    }
    r
}

// ---------------------------------------------------------------------------
// Connectors
// ---------------------------------------------------------------------------

/// The shell syntax that pipes the stream of a mode.
pub open spec fn connector(mode: OutputMode) -> Seq<char> {
    match mode {
        OutputMode::Stdout => " | "@,
        OutputMode::Combined => " 2>&1 | "@,
        OutputMode::Stderr => " 2>&1 >/dev/null | "@,
    }
}

/// Build the pipe connector string based on a stage's output mode.
/// This is the shell syntax that redirects the right stream into the pipe.
pub fn pipe_connector(mode: OutputMode) -> (r: &'static str)
    ensures
        r@ == connector(mode),
{
    match mode {
        OutputMode::Stdout => " | ",
        OutputMode::Combined => " 2>&1 | ",
        OutputMode::Stderr => " 2>&1 >/dev/null | ",
    }
}

/// The output mode of stage `i`.
pub open spec fn stage_mode(m: AppModel, i: int) -> OutputMode {
    if 0 <= i < m.views.len() {
        m.views[i].output_mode
    } else {
        OutputMode::Stdout
    }
}

/// Get the output mode for a given stage (used to determine the pipe connector).
pub fn mode_for_stage(app: &App, stage_idx: usize) -> (r: OutputMode)
    ensures
        r == stage_mode(app.model(), stage_idx as int),
{
    if stage_idx < app.stage_views.len() {
        app.stage_views[stage_idx].output_mode
    } else {
        OutputMode::Stdout
    }
}

/// What follows the command of stage `i`.
pub open spec fn stage_connector(m: AppModel, i: int) -> Seq<char> {
    if i + 1 < m.pipeline.stages.len() {
        connector(stage_mode(m, i))
    } else {
        Seq::empty()
    }
}

fn connector_after(app: &App, i: usize) -> (r: &'static str)
    requires
        i < app.pipeline@.stages.len(),
    ensures
        r@ == stage_connector(app.model(), i as int),
{
    if i < app.pipeline.len() - 1 {
        pipe_connector(mode_for_stage(app, i))
    } else {
        proof {
            reveal_strlit("");
            assert(""@ =~= Seq::<char>::empty());
        }
        ""
    }
}

/// The first `n` commands, each with what follows it.
pub open spec fn command_text(m: AppModel, n: int) -> Seq<char>
    decreases n,
{
    if n <= 0 {
        Seq::empty()
    } else {
        command_text(m, n - 1) + m.pipeline.stages[n - 1].command + stage_connector(m, n - 1)
    }
}

/// The pipeline as a command that can be pasted into a terminal, with each
/// stage's stream redirected into the pipe that follows it.
pub fn pipeline_command(app: &App) -> (r: String)
    ensures
        r@ == command_text(app.model(), app.model().pipeline.stages.len() as int),
{
    let mut cmd = String::new();
    let n: usize = app.pipeline.len();
    let mut i: usize = 0;
    while i < n
        invariant
            i <= n,
            n == app.pipeline@.stages.len(),
            cmd@ == command_text(app.model(), i as int),
        decreases n - i,
    {
        cmd.append(app.pipeline.stages[i].command.as_str());
        cmd.append(connector_after(app, i));
        i = i + 1;
    }
    cmd
}

// ---------------------------------------------------------------------------
// The bar of stages
// ---------------------------------------------------------------------------

/// Whether an output tells of a failure.
pub open spec fn failed(o: OutputView) -> bool {
    match o.exit_code {
        Some(code) => code != 0,
        None => false,
    }
}

fn has_failed(o: &StageOutput) -> (r: bool)
    ensures
        r == failed(o@),
{
    match o.exit_code {
        Some(code) => code != 0,
        None => false,
    }
}

/// Whether stage `i` has failed.
pub open spec fn stage_failed(m: AppModel, i: int) -> bool {
    0 <= i < m.outputs.len() && failed(m.outputs[i])
}

fn stage_has_failed(app: &App, i: usize) -> (r: bool)
    ensures
        r == stage_failed(app.model(), i as int),
{
    i < app.stage_outputs.len() && has_failed(&app.stage_outputs[i])
}

/// Whether any stage has failed.
pub open spec fn any_failed(m: AppModel) -> bool {
    exists|i: int| 0 <= i < m.outputs.len() && failed(#[trigger] m.outputs[i])
}

/// Number of lines that stage `i` has put out on one of its streams.
pub open spec fn stream_lines(m: AppModel, i: int, stderr: bool) -> int {
    if 0 <= i < m.outputs.len() {
        if stderr {
            line_total(m.outputs[i].stderr) as int
        } else {
            line_total(m.outputs[i].stdout) as int
        }
    } else {
        0
    }
}

fn count_lines(app: &App, i: usize, stderr: bool) -> (r: usize)
    requires
        app.wf(),
    ensures
        r == stream_lines(app.model(), i as int, stderr),
{
    if i < app.stage_outputs.len() {
        let out = &app.stage_outputs[i];
        if stderr {
            out.stderr_line_count()
        } else {
            out.stdout_line_count()
        }
    } else {
        0
    }
}

/// Number of lines that stage `i` shows.
pub open spec fn mode_line_count(m: AppModel, i: int) -> int {
    match stage_mode(m, i) {
        OutputMode::Stdout => stream_lines(m, i, false),
        OutputMode::Stderr => stream_lines(m, i, true),
        OutputMode::Combined => capped(stream_lines(m, i, false) + stream_lines(m, i, true)),
    }
}

/// The line counts of the selected stage, those not passed on in brackets.
pub open spec fn detail_label(m: AppModel) -> Seq<char> {
    let i = m.pipeline.selected;
    let out = decimal(stream_lines(m, i, false) as nat);
    let err = decimal(stream_lines(m, i, true) as nat);
    match stage_mode(m, i) {
        OutputMode::Stdout => out + "/["@ + err + "]"@,
        OutputMode::Stderr => "["@ + out + "]/"@ + err,
        OutputMode::Combined => out + "+"@ + err + "="@ + decimal(
            capped(stream_lines(m, i, false) + stream_lines(m, i, true)) as nat,
        ),
    }
}

fn make_detail_label(app: &App) -> (r: String)
    requires
        app.wf(),
    ensures
        r@ == detail_label(app.model()),
{
    let i = app.pipeline.selected;
    let out = count_lines(app, i, false);
    let err = count_lines(app, i, true);
    let mut label = String::new();
    match mode_for_stage(app, i) {
        OutputMode::Stdout => {
            push_decimal(&mut label, out as u64);
            label.append("/[");
            push_decimal(&mut label, err as u64);
            label.append("]");
        },
        OutputMode::Stderr => {
            label.append("[");
            push_decimal(&mut label, out as u64);
            label.append("]/");
            push_decimal(&mut label, err as u64);
        },
        OutputMode::Combined => {
            push_decimal(&mut label, out as u64);
            label.append("+");
            push_decimal(&mut label, err as u64);
            label.append("=");
            push_decimal(&mut label, out.saturating_add(err) as u64);
        },
    }
    proof {
        assert(label@ =~= detail_label(app.model()));
    }
    label
}

/// Whether stage `i` got data a moment ago.
pub open spec fn data_active(m: AppModel, i: int) -> bool {
    &&& 0 <= i < m.pipeline.stages.len()
    &&& match m.pipeline.stages[i].last_update {
        Some(t) => m.clock < t || m.clock - t < DATA_ACTIVE_MILLIS,
        None => false,
    }
}

fn is_data_active(app: &App, i: usize) -> (r: bool)
    ensures
        r == data_active(app.model(), i as int),
{
    if i < app.pipeline.stages.len() {
        match app.pipeline.stages[i].last_update {
            Some(t) => app.clock_millis.saturating_sub(t) < DATA_ACTIVE_MILLIS,
            None => false,
        }
    } else {
        false
    }
}

/// The command of stage `i` as it is shown.
pub open spec fn shown_command(m: AppModel, i: int) -> Seq<char> {
    if m.pipeline.stages[i].command.len() == 0 {
        "<empty>"@
    } else {
        m.pipeline.stages[i].command
    }
}

/// The label above stage `i`: a mark for an interactive shell, the number of
/// lines, and a mark for a failure.
pub open spec fn count_label(m: AppModel, i: int) -> Seq<char> {
    (if resolved(m.pipeline.stages[i].overrides, m.defaults).interactive {
        "ⁱ"@
    } else {
        Seq::empty()
    }) + decimal(mode_line_count(m, i) as nat) + (if stage_failed(m, i) {
        "✗"@
    } else {
        Seq::empty()
    })
}

/// The style of the label above stage `i`.
pub open spec fn count_style(m: AppModel, i: int) -> Style {
    if stage_failed(m, i) {
        coloured(Color::Red)
    } else if i == m.pipeline.selected {
        coloured(Color::Cyan).spec_bold()
    } else if data_active(m, i) {
        coloured(Color::Yellow).spec_bold()
    } else {
        coloured(Color::DarkGray)
    }
}

/// The style of the command of stage `i`.
pub open spec fn command_style(m: AppModel, i: int) -> Style {
    let selected = i == m.pipeline.selected;
    if selected && stage_failed(m, i) {
        coloured(Color::White).spec_bg(Color::Red).spec_bold()
    } else if selected {
        coloured(Color::White).spec_bg(Color::Cyan).spec_bold()
    } else if stage_failed(m, i) {
        coloured(Color::Red)
    } else {
        coloured(Color::White)
    }
}

/// The style of the connector behind stage `i`, which stands out while data
/// flows into it or out of it.
pub open spec fn connector_style(m: AppModel, i: int) -> Style {
    if data_active(m, i) || data_active(m, i + 1) {
        coloured(Color::White).spec_bold()
    } else {
        coloured(Color::DarkGray)
    }
}

/// The labels of the first `n` stages, each as wide as its command and
/// connector.
pub open spec fn count_spans(m: AppModel, n: int) -> Seq<SpanView>
    decreases n,
{
    if n <= 0 {
        Seq::empty()
    } else {
        let i = n - 1;
        let width = byte_len(shown_command(m, i) + stage_connector(m, i));
        count_spans(m, i).push(
            styled(padded_right(count_label(m, i), width as int), count_style(m, i)),
        )
    }
}

/// The commands and connectors of the first `n` stages.
pub open spec fn command_spans(m: AppModel, n: int) -> Seq<SpanView>
    decreases n,
{
    if n <= 0 {
        Seq::empty()
    } else {
        let i = n - 1;
        let with_command = command_spans(m, i).push(
            styled(shown_command(m, i), command_style(m, i)),
        );
        if stage_connector(m, i).len() == 0 {
            with_command
        } else {
            with_command.push(styled(stage_connector(m, i), connector_style(m, i)))
        }
    }
}

/// The bar of stages.
#[derive(Debug)]
pub enum StagesBar {
    /// There are no stages.
    Empty,
    /// The stages as a single copyable command, with line counts above them.
    Stages {
        title: String,
        /// The line counts of the selected stage.
        detail: String,
        style: Style,
        counts: Line,
        commands: Line,
    },
}

/// What a [`StagesBar`] stands for.
#[verifier::ext_equal]
pub enum StagesBarView {
    Empty,
    Stages {
        title: Seq<char>,
        detail: Seq<char>,
        style: Style,
        counts: Seq<SpanView>,
        commands: Seq<SpanView>,
    },
}

impl View for StagesBar {
    type V = StagesBarView;

    open spec fn view(&self) -> StagesBarView {
        match *self {
            StagesBar::Empty => StagesBarView::Empty,
            StagesBar::Stages { title, detail, style, counts, commands } => StagesBarView::Stages {
                title: title@,
                detail: detail@,
                style,
                counts: counts@,
                commands: commands@,
            },
        }
    }
}

/// What the bar of stages shows.
pub open spec fn stages_bar_of(m: AppModel) -> StagesBarView {
    let n = m.pipeline.stages.len() as int;
    if n == 0 {
        StagesBarView::Empty
    } else {
        StagesBarView::Stages {
            title: if any_failed(m) {
                "— Pipeline ✗ "@
            } else {
                "— Pipeline "@
            },
            detail: "— "@ + detail_label(m) + " -"@,
            style: if stage_failed(m, m.pipeline.selected) {
                coloured(Color::Red)
            } else {
                Style::spec_plain()
            },
            counts: count_spans(m, n),
            commands: command_spans(m, n),
        }
    }
}

fn has_any_failed(app: &App) -> (r: bool)
    ensures
        r == any_failed(app.model()),
{
    let mut i: usize = 0;
    while i < app.stage_outputs.len()
        invariant
            i <= app.stage_outputs@.len(),
            forall|k: int| 0 <= k < i ==> !failed(#[trigger] app.model().outputs[k]),
        decreases app.stage_outputs@.len() - i,
    {
        proof {
            assert(app.model().outputs[i as int] == app.stage_outputs@[i as int]@);
        }
        if has_failed(&app.stage_outputs[i]) {
            return true;
        }
        i = i + 1;
    }
    false
}

fn make_count_label(app: &App, i: usize) -> (r: String)
    requires
        app.wf(),
        i < app.pipeline@.stages.len(),
    ensures
        r@ == count_label(app.model(), i as int),
{
    let mut label = String::new();
    let options = app.pipeline.stages[i].overrides.resolve(&app.global_defaults);
    if options.interactive {
        label.append("ⁱ");
    }
    let count = match mode_for_stage(app, i) {
        OutputMode::Stdout => count_lines(app, i, false),
        OutputMode::Stderr => count_lines(app, i, true),
        OutputMode::Combined => count_lines(app, i, false).saturating_add(
            count_lines(app, i, true),
        ),
    };
    push_decimal(&mut label, count as u64);
    if stage_has_failed(app, i) {
        label.append("✗");
    }
    proof {
        assert(app.model().pipeline.stages[i as int] == app.pipeline.stages@[i as int]@);
        assert(label@ =~= count_label(app.model(), i as int));
    }
    label
}

fn make_count_style(app: &App, i: usize) -> (r: Style)
    ensures
        r == count_style(app.model(), i as int),
{
    if stage_has_failed(app, i) {
        Style::plain().fg(Color::Red)
    } else if i == app.pipeline.selected {
        Style::plain().fg(Color::Cyan).bold()
    } else if is_data_active(app, i) {
        Style::plain().fg(Color::Yellow).bold()
    } else {
        Style::plain().fg(Color::DarkGray)
    }
}

fn make_command_style(app: &App, i: usize) -> (r: Style)
    ensures
        r == command_style(app.model(), i as int),
{
    let selected = i == app.pipeline.selected;
    let error = stage_has_failed(app, i);
    if selected && error {
        Style::plain().fg(Color::White).bg(Color::Red).bold()
    } else if selected {
        Style::plain().fg(Color::White).bg(Color::Cyan).bold()
    } else if error {
        Style::plain().fg(Color::Red)
    } else {
        Style::plain().fg(Color::White)
    }
}

fn make_connector_style(app: &App, i: usize) -> (r: Style)
    requires
        i < usize::MAX,
    ensures
        r == connector_style(app.model(), i as int),
{
    if is_data_active(app, i) || is_data_active(app, i + 1) {
        Style::plain().fg(Color::White).bold()
    } else {
        Style::plain().fg(Color::DarkGray)
    }
}

/// What the bar of stages shows: the pipeline as a single copyable command, and
/// above each command how many lines it has put out.
pub fn stages_bar(app: &App) -> (r: StagesBar)
    requires
        app.wf(),
    ensures
        r@ == stages_bar_of(app.model()),
{
    let n: usize = app.pipeline.len();
    if n == 0 {
        return StagesBar::Empty;
    }
    let mut detail = "— ".to_owned();
    let label = make_detail_label(app);
    detail.append(label.as_str());
    detail.append(" -");
    let mut counts = no_spans();
    let mut commands = no_spans();
    let ghost m = app.model();
    let mut i: usize = 0;
    while i < n
        invariant
            app.wf(),
            i <= n,
            n == app.pipeline@.stages.len(),
            m == app.model(),
            spans_view(counts@) == count_spans(m, i as int),
            spans_view(commands@) == command_spans(m, i as int),
        decreases n - i,
    {
        let stage = &app.pipeline.stages[i];
        proof {
            assert(m.pipeline.stages[i as int] == app.pipeline.stages@[i as int]@);
        }
        let text = if stage.command.as_str().is_empty() {
            "<empty>".to_owned()
        } else {
            stage.command.clone()
        };
        let joint = connector_after(app, i);
        let mut segment = text.clone();
        segment.append(joint);
        let width = byte_count(segment.as_str());
        let label = make_count_label(app, i);
        let mut padded = String::new();
        push_padded_right(&mut padded, label.as_str(), width);
        proof {
            assert(padded@ =~= padded_right(count_label(m, i as int), width as int));
        }
        push_styled(&mut counts, padded, make_count_style(app, i));
        push_styled(&mut commands, text, make_command_style(app, i));
        if !joint.is_empty() {
            push_styled(&mut commands, joint.to_owned(), make_connector_style(app, i));
        }
        i = i + 1;
    }
    let title = if has_any_failed(app) {
        "— Pipeline ✗ ".to_owned()
    } else {
        "— Pipeline ".to_owned()
    };
    let style = if stage_has_failed(app, app.pipeline.selected) {
        Style::plain().fg(Color::Red)
    } else {
        Style::plain()
    };
    StagesBar::Stages {
        title,
        detail,
        style,
        counts: Line { spans: counts },
        commands: Line { spans: commands },
    }
}

// ---------------------------------------------------------------------------
// Text with a cursor
// ---------------------------------------------------------------------------

/// The style of the character under the cursor.
pub open spec fn cursor_style() -> Style {
    coloured(Color::Black).spec_bg(Color::White)
}

/// A text with its cursor: the character behind the position stands out, or a
/// space at the end of the text.
pub open spec fn cursor_text(content: Seq<char>, cursor: int) -> Seq<SpanView> {
    let c = caret_at(content, cursor);
    if c.after.len() > 0 {
        seq![
            raw(c.before),
            styled(seq![c.after[0]], cursor_style()),
            raw(c.after.drop_first()),
        ]
    } else {
        seq![raw(content), styled(" "@, cursor_style())]
    }
}

/// A text with its cursor at the byte position `cursor`.
pub fn cursor_spans(content: &str, cursor: usize) -> (r: Vec<Span>)
    requires
        on_boundary(content@, cursor as int),
    ensures
        spans_view(r@) == cursor_text(content@, cursor as int),
{
    let mut spans = no_spans();
    let style = Style::plain().fg(Color::Black).bg(Color::White);
    let (before, after) = split_caret(content, cursor);
    match next_char(after) {
        Some((c, rest)) => {
            let mut one = String::new();
            one.push(c);
            proof {
                assert(one@ =~= seq![c]);
            }
            push_raw(&mut spans, before.to_owned());
            push_styled(&mut spans, one, style);
            push_raw(&mut spans, rest.to_owned());
        },
        None => {
            push_raw(&mut spans, content.to_owned());
            push_styled(&mut spans, " ".to_owned(), style);
        },
    }
    proof {
        assert(spans_view(spans@) =~= cursor_text(content@, cursor as int));
    }
    spans
}

/// A prompt: its sign, the text with its cursor, and a hint.
pub open spec fn prompt(
    sign: Seq<char>,
    content: Seq<char>,
    cursor: int,
    hint: Seq<char>,
    hint_colour: Color,
) -> Seq<SpanView> {
    seq![styled(sign, coloured(Color::Yellow).spec_bold())] + cursor_text(content, cursor)
        + seq![styled(hint, coloured(hint_colour))]
}

fn make_prompt(
    sign: &str,
    content: &str,
    cursor: usize,
    hint: String,
    hint_colour: Color,
) -> (r: Line)
    requires
        on_boundary(content@, cursor as int),
    ensures
        r@ == prompt(sign@, content@, cursor as int, hint@, hint_colour),
{
    let mut spans = no_spans();
    push_styled(&mut spans, sign.to_owned(), Style::plain().fg(Color::Yellow).bold());
    let mut text = cursor_spans(content, cursor);
    let ghost middle = spans_view(text@);
    let ghost first = spans@;
    spans.append(&mut text);
    proof {
        assert(spans_view(spans@) =~= spans_view(first) + middle);
    }
    push_styled(&mut spans, hint, Style::plain().fg(hint_colour));
    let r = Line { spans };
    proof {
        assert(r@ =~= prompt(sign@, content@, cursor as int, hint@, hint_colour));
    }
    r
}

// ---------------------------------------------------------------------------
// The status bar
// ---------------------------------------------------------------------------

/// The search prompt.
pub open spec fn search_prompt(v: ViewView) -> Seq<SpanView> {
    prompt(
        "/"@,
        v.search.query,
        v.search.cursor,
        "  [Enter]search  [Esc]cancel"@,
        Color::DarkGray,
    )
}

/// The vim-style search bar (shown in place of the status bar when searching).
pub fn search_bar(view: &StageViewState) -> (r: Line)
    requires
        view.search.wf(),
    ensures
        r@ == search_prompt(view@),
{
    make_prompt(
        "/",
        view.search.query.as_str(),
        view.search.cursor,
        "  [Enter]search  [Esc]cancel".to_owned(),
        Color::DarkGray,
    )
}

/// The command prompt, followed by completions or else by a hint.
pub open spec fn command_prompt(
    content: Seq<char>,
    cursor: int,
    completions: Option<Seq<char>>,
) -> Seq<SpanView> {
    match completions {
        Some(c) => prompt(":"@, content, cursor, "  "@ + c, Color::Cyan),
        None => prompt(
            ":"@,
            content,
            cursor,
            "  [Tab]complete  [Enter]run  [Esc]cancel"@,
            Color::DarkGray,
        ),
    }
}

/// The vim-style command bar (shown in place of the status bar when in Command
/// mode).
pub fn command_bar(editor: &EditorState, completions: Option<&str>) -> (r: Line)
    requires
        editor.wf(),
    ensures
        r@ == command_prompt(editor.content@, editor.cursor as int, opt_text(completions)),
{
    match completions {
        Some(c) => {
            let mut hint = "  ".to_owned();
            hint.append(c);
            make_prompt(":", editor.content.as_str(), editor.cursor, hint, Color::Cyan)
        },
        None => make_prompt(
            ":",
            editor.content.as_str(),
            editor.cursor,
            "  [Tab]complete  [Enter]run  [Esc]cancel".to_owned(),
            Color::DarkGray,
        ),
    }
}

/// The name of a mode, and the keys that it knows.
pub open spec fn mode_hints(m: AppModel) -> (Seq<char>, Seq<char>) {
    match m.mode {
        ModeView::Normal => (
            if m.running {
                "NORMAL ⟳ Running…"@
            } else {
                "NORMAL"@
            },
            "[q]uit  [e]edit  [O]prepend  [o|]append  [d,Del] [hl←→]switch  [m]cycle output  [s]ave  [r]erun  [/]search  [?,:h]help"@
                + (if current_view(m).search.matches.len() > 0 {
                "  [n]ext-match  [N]prev-match  [Esc]clear-search"@
            } else {
                Seq::empty()
            }),
        ),
        ModeView::Editing { .. } => ("EDIT"@, "[Enter]confirm  [Esc]cancel"@),
        ModeView::Saving(_) => ("SAVE"@, "[Enter]confirm  [Esc]cancel"@),
        ModeView::ConfirmingDelete => ("DELETE?"@, "[y]confirm delete  [any]cancel"@),
        _ => (Seq::empty(), Seq::empty()),
    }
}

/// A status bar with the name of a mode and the keys that it knows.
pub open spec fn hint_bar(name: Seq<char>, hints: Seq<char>) -> Seq<SpanView> {
    seq![
        styled(" "@ + name + " "@, coloured(Color::Black).spec_bg(Color::Cyan).spec_bold()),
        raw("  "@),
        styled(" "@ + hints + " "@, coloured(Color::DarkGray)),
    ]
}

/// What stands in the last row of the screen.
pub open spec fn status_bar_of(m: AppModel) -> Seq<SpanView> {
    match m.mode {
        ModeView::Searching => search_prompt(current_view(m)),
        ModeView::Command(e) => command_prompt(
            e.text(),
            byte_len(e.caret.before) as int,
            None,
        ),
        _ => hint_bar(mode_hints(m).0, mode_hints(m).1),
    }
}

/// The status bar at the bottom.
pub fn status_bar(app: &App) -> (r: Line)
    requires
        app.wf(),
    ensures
        r@ == status_bar_of(app.model()),
{
    let mut hints = String::new();
    let name = match &app.mode {
        AppMode::Searching => {
            return search_bar(app.view());
        },
        AppMode::Command(editor) => {
            proof {
                crate::caret::lemma_caret_splits(editor.content@, editor.cursor as int);
            }
            return command_bar(editor, None);
        },
        AppMode::Normal => {
            hints.append(
                "[q]uit  [e]edit  [O]prepend  [o|]append  [d,Del] [hl←→]switch  [m]cycle output  [s]ave  [r]erun  [/]search  [?,:h]help",
            );
            if app.view().search.matches.len() > 0 {
                hints.append("  [n]ext-match  [N]prev-match  [Esc]clear-search");
            }
            if app.running {
                "NORMAL ⟳ Running…"
            } else {
                "NORMAL"
            }
        },
        AppMode::Editing { .. } => {
            hints.append("[Enter]confirm  [Esc]cancel");
            "EDIT"
        },
        AppMode::Saving(_) => {
            hints.append("[Enter]confirm  [Esc]cancel");
            "SAVE"
        },
        AppMode::ConfirmingDelete => {
            hints.append("[y]confirm delete  [any]cancel");
            "DELETE?"
        },
    };
    proof {
        let (n, h) = mode_hints(app.model());
        assert(n =~= name@);
        assert(h =~= hints@);
    }
    make_hint_bar(name, hints.as_str())
}

fn make_hint_bar(name: &str, hints: &str) -> (r: Line)
    ensures
        r@ == hint_bar(name@, hints@),
{
    let mut left = " ".to_owned();
    left.append(name);
    left.append(" ");
    let mut right = " ".to_owned();
    right.append(hints);
    right.append(" ");
    let mut spans = no_spans();
    push_styled(&mut spans, left, Style::plain().fg(Color::Black).bg(Color::Cyan).bold());
    push_raw(&mut spans, "  ".to_owned());
    push_styled(&mut spans, right, Style::plain().fg(Color::DarkGray));
    let r = Line { spans };
    proof {
        assert(r@ =~= hint_bar(name@, hints@));
    }
    r
}

/// The status bar while the history is shown.
pub fn history_bar() -> (r: Line)
    ensures
        r@ == hint_bar(
            "HISTORY"@,
            "[↑↓]navigate  [Enter]load  [Del/x]delete  [q/Esc]close"@,
        ),
{
    make_hint_bar("HISTORY", "[↑↓]navigate  [Enter]load  [Del/x]delete  [q/Esc]close")
}

// ---------------------------------------------------------------------------
// Dialogs
// ---------------------------------------------------------------------------

/// A rectangle on the screen.
#[derive(Clone, Copy, Debug, PartialEq, Eq, Structural)]
pub struct Area {
    pub x: u16,
    pub y: u16,
    pub width: u16,
    pub height: u16,
}

impl Area {
    /// The rectangle does not reach beyond the largest coordinates.
    pub open spec fn wf(self) -> bool {
        self.x + self.width <= u16::MAX && self.y + self.height <= u16::MAX
    }
}

/// The rectangle of the given size in the middle of `area`, or at its top or
/// left edge if it is larger.
pub open spec fn centred(area: Area, width: int, height: int) -> Area {
    Area {
        x: (area.x + (if width < area.width {
            area.width - width
        } else {
            0
        }) / 2) as u16,
        y: (area.y + (if height < area.height {
            area.height - height
        } else {
            0
        }) / 2) as u16,
        width: width as u16,
        height: height as u16,
    }
}

/// The rectangle of the given size in the middle of `area`.
pub fn centre(area: Area, width: u16, height: u16) -> (r: Area)
    requires
        area.wf(),
    ensures
        r == centred(area, width as int, height as int),
{
    Area {
        x: area.x + area.width.saturating_sub(width) / 2,
        y: area.y + area.height.saturating_sub(height) / 2,
        width,
        height,
    }
}

/// The rectangle of a dialog of at most `max_width` columns.
pub fn dialog_area(area: Area, max_width: u16, height: u16) -> (r: Area)
    requires
        area.wf(),
    ensures
        r == centred(
            area,
            dialog_width_of(area.width as int, max_width as int),
            height as int,
        ),
{
    let width = area.width.saturating_sub(4);
    let width = if width < max_width {
        width
    } else {
        max_width
    };
    centre(area, width, height)
}

/// A dialog with a text field.
#[derive(Debug)]
pub struct EditorDialog {
    pub area: Area,
    pub title: String,
    pub text: Line,
    /// First column of the text that is shown.
    pub scroll_x: u16,
}

/// What an [`EditorDialog`] stands for.
#[verifier::ext_equal]
pub struct EditorDialogView {
    pub area: Area,
    pub title: Seq<char>,
    pub text: Seq<SpanView>,
    pub scroll_x: int,
}

impl View for EditorDialog {
    type V = EditorDialogView;

    open spec fn view(&self) -> EditorDialogView {
        EditorDialogView {
            area: self.area,
            title: self.title@,
            text: self.text@,
            scroll_x: self.scroll_x as int,
        }
    }
}

/// The dialog for an editor.
pub open spec fn editor_dialog_of(
    content: Seq<char>,
    cursor: int,
    scroll_x: int,
    title: Seq<char>,
    max_width: int,
    area: Area,
) -> EditorDialogView {
    EditorDialogView {
        area: centred(area, dialog_width_of(area.width as int, max_width), 3),
        title: " "@ + title + " "@,
        text: cursor_text(content, cursor),
        scroll_x: if scroll_x <= u16::MAX {
            scroll_x
        } else {
            u16::MAX as int
        },
    }
}

/// A generic editor dialog popup: a box with a title and the editor content
/// displayed with a visible cursor.
pub fn editor_dialog(editor: &EditorState, title: &str, max_width: u16, area: Area) -> (r:
    EditorDialog)
    requires
        editor.wf(),
        area.wf(),
    ensures
        r@ == editor_dialog_of(
            editor.content@,
            editor.cursor as int,
            editor.scroll_x as int,
            title@,
            max_width as int,
            area,
        ),
{
    let mut framed = " ".to_owned();
    framed.append(title);
    framed.append(" ");
    let scroll_x = if editor.scroll_x <= u16::MAX as usize {
        editor.scroll_x as u16
    } else {
        u16::MAX
    };
    EditorDialog {
        area: dialog_area(area, max_width, 3),
        title: framed,
        text: Line { spans: cursor_spans(editor.content.as_str(), editor.cursor) },
        scroll_x,
    }
}

/// The largest width of the dialog of a mode, if it has a text field.
pub open spec fn max_width_in(mode: ModeView) -> Option<u16> {
    match mode {
        ModeView::Editing { .. } => Some(EDITOR_DIALOG_MAX_WIDTH),
        ModeView::Saving(_) => Some(SAVE_DIALOG_MAX_WIDTH),
        _ => None,
    }
}

/// The dialog for the command of a stage, if one is being edited.
pub open spec fn command_dialog_of(m: AppModel, area: Area) -> Option<EditorDialogView> {
    match m.mode {
        ModeView::Editing { editor, .. } => Some(
            editor_dialog_of(
                editor.text(),
                byte_len(editor.caret.before) as int,
                editor.scroll_x,
                edit_title(m.pipeline.selected),
                EDITOR_DIALOG_MAX_WIDTH as int,
                area,
            ),
        ),
        _ => None,
    }
}

/// The dialog for a file name, if one is being entered.
pub open spec fn save_dialog_of(m: AppModel, area: Area) -> Option<EditorDialogView> {
    match m.mode {
        ModeView::Saving(editor) => Some(
            editor_dialog_of(
                editor.text(),
                byte_len(editor.caret.before) as int,
                editor.scroll_x,
                "Save Output To File"@,
                SAVE_DIALOG_MAX_WIDTH as int,
                area,
            ),
        ),
        _ => None,
    }
}

/// What an optional dialog stands for.
pub open spec fn opt_dialog(d: Option<EditorDialog>) -> Option<EditorDialogView> {
    match d {
        Some(v) => Some(v@),
        None => None,
    }
}

/// The largest width of the dialog that is shown, if it has a text field.
pub fn dialog_max_width(mode: &AppMode) -> (r: Option<u16>)
    ensures
        r == max_width_in(mode@),
{
    match mode {
        AppMode::Editing { .. } => Some(EDITOR_DIALOG_MAX_WIDTH),
        AppMode::Saving(_) => Some(SAVE_DIALOG_MAX_WIDTH),
        _ => None,
    }
}

/// The title of the command editor.
pub open spec fn edit_title(selected: int) -> Seq<char> {
    "Edit Stage "@ + decimal((selected + 1) as nat) + " Command"@
}

/// The inline command editor overlay, if a command is being edited.
pub fn command_dialog(app: &App, area: Area) -> (r: Option<EditorDialog>)
    requires
        app.wf(),
        area.wf(),
    ensures
        match (app.mode, r) {
            (AppMode::Editing { editor, .. }, Some(d)) => d@ == editor_dialog_of(
                editor.content@,
                editor.cursor as int,
                editor.scroll_x as int,
                edit_title(app.model().pipeline.selected),
                EDITOR_DIALOG_MAX_WIDTH as int,
                area,
            ),
            (AppMode::Editing { .. }, None) => false,
            (_, d) => d is None,
        },
        opt_dialog(r) == command_dialog_of(app.model(), area),
{
    match &app.mode {
        AppMode::Editing { editor, .. } => {
            let mut title = "Edit Stage ".to_owned();
            proof {
                crate::caret::lemma_caret_splits(editor.content@, editor.cursor as int);
                assert(app.pipeline.stages.len() == app.pipeline@.stages.len());
            }
            push_decimal(&mut title, app.pipeline.selected as u64 + 1);
            title.append(" Command");
            Some(editor_dialog(editor, title.as_str(), EDITOR_DIALOG_MAX_WIDTH, area))
        },
        _ => None,
    }
}

/// The save-to-file dialog overlay, if a file name is being entered.
pub fn save_dialog(app: &App, area: Area) -> (r: Option<EditorDialog>)
    requires
        app.wf(),
        area.wf(),
    ensures
        match (app.mode, r) {
            (AppMode::Saving(editor), Some(d)) => d@ == editor_dialog_of(
                editor.content@,
                editor.cursor as int,
                editor.scroll_x as int,
                "Save Output To File"@,
                SAVE_DIALOG_MAX_WIDTH as int,
                area,
            ),
            (AppMode::Saving(_), None) => false,
            (_, d) => d is None,
        },
        opt_dialog(r) == save_dialog_of(app.model(), area),
{
    match &app.mode {
        AppMode::Saving(editor) => {
            proof {
                crate::caret::lemma_caret_splits(editor.content@, editor.cursor as int);
            }
            Some(editor_dialog(editor, "Save Output To File", SAVE_DIALOG_MAX_WIDTH, area))
        },
        _ => None,
    }
}

/// The question before a stage is deleted.
pub open spec fn delete_question(m: AppModel) -> Seq<Seq<SpanView>> {
    seq![
        seq![
            raw(
                "Deleting stage "@ + decimal((m.pipeline.selected + 1) as nat) + " of "@ + decimal(
                    m.pipeline.stages.len(),
                ) + " may break downstream stages."@,
            ),
        ],
        seq![raw(""@)],
        seq![
            styled("y"@, coloured(Color::Green).spec_bold()),
            raw(" to confirm, any other key to cancel"@),
        ],
    ]
}

/// The text of the delete confirmation overlay.
pub fn confirm_delete_lines(app: &App) -> (r: Vec<Line>)
    requires
        app.wf(),
    ensures
        lines_view(r@) == delete_question(app.model()),
{
    let mut lines: Vec<Line> = Vec::new();
    proof {
        assert(lines_view(lines@) =~= Seq::<Seq<SpanView>>::empty());
        assert(app.pipeline.stages.len() == app.pipeline@.stages.len());
    }
    let mut text = "Deleting stage ".to_owned();
    push_decimal(&mut text, app.pipeline.selected as u64 + 1);
    text.append(" of ");
    push_decimal(&mut text, app.pipeline.len() as u64);
    text.append(" may break downstream stages.");
    push_text_line(&mut lines, text);
    push_text_line(&mut lines, "".to_owned());
    let mut spans = no_spans();
    push_styled(&mut spans, "y".to_owned(), Style::plain().fg(Color::Green).bold());
    push_raw(&mut spans, " to confirm, any other key to cancel".to_owned());
    proof {
        assert(spans_view(spans@) =~= delete_question(app.model())[2]);
    }
    push_line(&mut lines, spans);
    proof {
        assert(lines_view(lines@) =~= delete_question(app.model()));
    }
    lines
}

// ---------------------------------------------------------------------------
// The history popup
// ---------------------------------------------------------------------------

/// The pipelines of the history, one of which is selected.
#[derive(Debug)]
pub struct HistoryBrowser {
    pub entries: Vec<HistoryEntry>,
    pub selected: usize,
    /// Whether the deletion of the selected entry is to be confirmed.
    pub confirming_delete: bool,
}

/// The longest front part of `s` of at most `n` bytes.
pub open spec fn front_bytes(s: Seq<char>, n: int) -> Seq<char>
    decreases s.len(),
{
    if s.len() == 0 || char_width(s[0]) > n {
        Seq::empty()
    } else {
        seq![s[0]] + front_bytes(s.drop_first(), n - char_width(s[0]))
    }
}

fn push_front_bytes(out: &mut String, s: &str, n: usize)
    ensures
        final(out)@ == old(out)@ + front_bytes(s@, n as int),
{
    let mut rest: &str = s;
    let mut left: usize = n;
    let ghost goal = front_bytes(s@, n as int);
    proof {
        assert(out@ + goal =~= old(out)@ + goal);
    }
    loop
        invariant
            out@ + front_bytes(rest@, left as int) == old(out)@ + goal,
        ensures
            out@ == old(out)@ + goal,
        decreases rest@.len(),
    {
        match next_char(rest) {
            None => {
                proof {
                    assert(out@ + front_bytes(rest@, left as int) =~= out@);
                }
                break;
            },
            Some((c, tail)) => {
                let w = c.len_utf8();
                if w > left {
                    proof {
                        assert(out@ + front_bytes(rest@, left as int) =~= out@);
                    }
                    break;
                }
                proof {
                    assert(out@.push(c) + front_bytes(tail@, left - w) =~= out@ + front_bytes(
                        rest@,
                        left as int,
                    ));
                }
                out.push(c);
                left = left - w;
                rest = tail;
            },
        }
    }
}

/// The label of entry `i`, which is cut off if it is longer than `width` bytes.
pub open spec fn entry_label(e: EntryView, i: int, width: int) -> Seq<char> {
    let label = padded_left(decimal((i + 1) as nat), 3) + "  "@ + join_texts(e.commands, " | "@);
    if byte_len(label) > width {
        front_bytes(
            label,
            if width > 0 {
                width - 1
            } else {
                0
            },
        ) + "…"@
    } else {
        label
    }
}

/// The popup with the history.
#[derive(Debug)]
pub struct HistoryPopup {
    pub area: Area,
    pub title: &'static str,
    pub style: Style,
    /// The entries that are shown.
    pub items: Vec<Span>,
}

/// Number of entries that fit on the screen.
pub open spec fn entry_rows(area: Area) -> int {
    if area.height > 5 {
        area.height - 5
    } else {
        0
    }
}

/// The first entry that is shown, so that the selected one is.
pub open spec fn first_entry(selected: int, rows: int) -> int {
    if selected < rows {
        0
    } else {
        selected - rows + 1
    }
}

/// The entries from `first` to `last`.
pub open spec fn entry_items(
    entries: Seq<HistoryEntry>,
    selected: int,
    first: int,
    last: int,
    width: int,
) -> Seq<SpanView>
    decreases last - first,
{
    if last <= first {
        Seq::empty()
    } else {
        entry_items(entries, selected, first, last - 1, width).push(
            styled(
                entry_label(entries[last - 1]@, last - 1, width),
                if last - 1 == selected {
                    coloured(Color::Black).spec_bg(Color::Cyan).spec_bold()
                } else {
                    Style::spec_plain()
                },
            ),
        )
    }
}

/// What a [`HistoryPopup`] stands for.
#[verifier::ext_equal]
pub struct PopupView {
    pub area: Area,
    pub title: Seq<char>,
    pub style: Style,
    pub items: Seq<SpanView>,
}

impl View for HistoryPopup {
    type V = PopupView;

    open spec fn view(&self) -> PopupView {
        PopupView {
            area: self.area,
            title: self.title@,
            style: self.style,
            items: spans_view(self.items@),
        }
    }
}

/// The popup with the history.
pub open spec fn popup_of(
    entries: Seq<HistoryEntry>,
    selected: int,
    confirming_delete: bool,
    area: Area,
) -> PopupView {
    let rows = entry_rows(area);
    let n = entries.len() as int;
    let shown = if n < rows {
        n
    } else {
        rows
    };
    let width = dialog_width_of(area.width as int, 90);
    let first = first_entry(selected, rows);
    let last = if first + rows < n {
        first + rows
    } else {
        n
    };
    PopupView {
        area: centred(area, width, shown + 4),
        title: if confirming_delete {
            " ⚠️ Delete this entry? [y]es / [any]cancel "@
        } else {
            " History — ↑↓ navigate, Enter load, Del/x delete, q/Esc close "@
        },
        style: if confirming_delete {
            Style::spec_plain().spec_bg(Color::DarkGray).spec_fg(Color::Yellow)
        } else {
            Style::spec_plain().spec_bg(Color::DarkGray)
        },
        items: entry_items(
            entries,
            selected,
            first,
            last,
            if width > 2 {
                width - 2
            } else {
                0
            },
        ),
    }
}

/// The popup with the history, as much of it as fits on the screen.
pub fn history_popup(browser: &HistoryBrowser, area: Area) -> (r: HistoryPopup)
    requires
        area.wf(),
        browser.selected < usize::MAX,
    ensures
        r@ == popup_of(
            browser.entries@,
            browser.selected as int,
            browser.confirming_delete,
            area,
        ),
{
    let rows: usize = area.height.saturating_sub(5) as usize;
    let n: usize = browser.entries.len();
    let shown: usize = if n < rows {
        n
    } else {
        rows
    };
    let popup = dialog_area(area, 90, shown as u16 + 4);
    let inner: usize = popup.width.saturating_sub(2) as usize;
    let first: usize = if browser.selected < rows {
        0
    } else {
        browser.selected - rows + 1
    };
    let last: usize = if first < n && rows < n - first {
        first + rows
    } else {
        n
    };
    let mut items = no_spans();
    let mut i: usize = first;
    while i < last
        invariant
            last <= n,
            n == browser.entries@.len(),
            first <= i,
            i <= last || i == first,
            spans_view(items@) == entry_items(
                browser.entries@,
                browser.selected as int,
                first as int,
                i as int,
                inner as int,
            ),
        decreases last - i,
    {
        let entry = &browser.entries[i];
        let mut number = String::new();
        push_decimal(&mut number, i as u64 + 1);
        let pipeline = join(entry.commands.as_slice(), " | ");
        let mut label = String::new();
        push_padded(&mut label, number.as_str(), 3);
        label.append("  ");
        label.append(pipeline.as_str());
        proof {
            assert(number@ =~= decimal((i + 1) as nat));
            assert(label@ =~= padded_left(decimal((i + 1) as nat), 3) + "  "@ + join_texts(
                entry@.commands,
                " | "@,
            ));
        }
        let text = if byte_count(label.as_str()) > inner {
            let mut cut = String::new();
            push_front_bytes(&mut cut, label.as_str(), inner.saturating_sub(1));
            cut.append("…");
            proof {
                assert(cut@ =~= entry_label(entry@, i as int, inner as int));
            }
            cut
        } else {
            label
        };
        let style = if i == browser.selected {
            Style::plain().fg(Color::Black).bg(Color::Cyan).bold()
        } else {
            Style::plain()
        };
        push_styled(&mut items, text, style);
        i = i + 1;
    }
    HistoryPopup {
        area: popup,
        title: if browser.confirming_delete {
            " ⚠️ Delete this entry? [y]es / [any]cancel "
        } else {
            " History — ↑↓ navigate, Enter load, Del/x delete, q/Esc close "
        },
        style: if browser.confirming_delete {
            Style::plain().bg(Color::DarkGray).fg(Color::Yellow)
        } else {
            Style::plain().bg(Color::DarkGray)
        },
        items,
    }
}

// ---------------------------------------------------------------------------
// Help
// ---------------------------------------------------------------------------

/// The keys and what they do.
pub fn help_lines() -> (r: Vec<&'static str>)
    ensures
        r@ == seq![
            "→ / l            Next stage",
            "← / h            Previous stage",
            "e                Edit current stage command",
            "O                Insert new stage before current",
            "o / |            Insert new stage after current",
            "d / Delete       Delete current stage",
            "u                Undo last pipeline change",
            "Ctrl+R           Redo last undone change",
            "r                Re-run (bypass cache)",
            "s                Save output to file",
            "m/1/2/3          Switch between stdout/stderr/combined views",
            "/                Start search (regex, \\c=ignore case, \\C=match case)",
            "n / N            Next / previous search match",
            "Esc              Clear search highlights",
            "j / ↓            Scroll down",
            "k / ↑            Scroll up",
            "Ctrl+d / Ctrl+u  Half-page down/up",
            "Ctrl+f / Ctrl+b  Full page down/up",
            "PgDn / Ctrl+f    Page down",
            "PgUp / Ctrl+b    Page up",
            "g / Home         Go to top",
            "G / End          Go to bottom",
            "q / Ctrl+c       Quit",
        ],
{
    vec![
        "→ / l            Next stage",
        "← / h            Previous stage",
        "e                Edit current stage command",
        "O                Insert new stage before current",
        "o / |            Insert new stage after current",
        "d / Delete       Delete current stage",
        "u                Undo last pipeline change",
        "Ctrl+R           Redo last undone change",
        "r                Re-run (bypass cache)",
        "s                Save output to file",
        "m/1/2/3          Switch between stdout/stderr/combined views",
        "/                Start search (regex, \\c=ignore case, \\C=match case)",
        "n / N            Next / previous search match",
        "Esc              Clear search highlights",
        "j / ↓            Scroll down",
        "k / ↑            Scroll up",
        "Ctrl+d / Ctrl+u  Half-page down/up",
        "Ctrl+f / Ctrl+b  Full page down/up",
        "PgDn / Ctrl+f    Page down",
        "PgUp / Ctrl+b    Page up",
        "g / Home         Go to top",
        "G / End          Go to bottom",
        "q / Ctrl+c       Quit",
    ]
}

/// The rectangle of the help overlay.
pub open spec fn help_area_of(area: Area, items: int) -> Area {
    centred(
        area,
        if area.width < 60 {
            area.width as int
        } else {
            60
        },
        items + 2,
    )
}

/// The rectangle of the help overlay, which lists `items` lines.
pub fn help_area(area: Area, items: u16) -> (r: Area)
    requires
        area.wf(),
        items <= u16::MAX - 2,
    ensures
        r == help_area_of(area, items as int),
{
    let width = if area.width < 60 {
        area.width
    } else {
        60
    };
    centre(area, width, items + 2)
}

// ---------------------------------------------------------------------------
// The options popup
// ---------------------------------------------------------------------------

/// Whose options are shown.
#[derive(Clone, Copy, Debug, PartialEq, Eq, Structural)]
pub enum OptionsTab {
    Stage,
    Global,
}

/// The style of a tab's name.
pub open spec fn tab_style(active: bool) -> Style {
    if active {
        coloured(Color::White).spec_bold().spec_underlined()
    } else {
        coloured(Color::DarkGray)
    }
}

fn make_tab_style(active: bool) -> (r: Style)
    ensures
        r == tab_style(active),
{
    if active {
        Style::plain().fg(Color::White).bold().underlined()
    } else {
        Style::plain().fg(Color::DarkGray)
    }
}

/// The names of the tabs.
pub open spec fn tab_line(selected: int, tab: OptionsTab) -> Seq<SpanView> {
    seq![
        styled(
            " Stage "@ + decimal((selected + 1) as nat) + " "@,
            tab_style(tab == OptionsTab::Stage),
        ),
        raw("│"@),
        styled(" Global "@, tab_style(tab == OptionsTab::Global)),
    ]
}

/// Whether a stage runs in an interactive shell, and why.
pub open spec fn stage_interactive_label(o: OverridesView, d: OptionsView) -> Seq<char> {
    match o.interactive {
        Some(true) => "[i] Interactive shell:  ON  (stage override)"@,
        Some(false) => "[i] Interactive shell:  OFF (stage override)"@,
        None => if d.interactive {
            "[i] Interactive shell:  ON  (inherited)"@
        } else {
            "[i] Interactive shell:  OFF (inherited)"@
        },
    }
}

/// The shell that runs a stage, and why.
pub open spec fn stage_shell_label(o: OverridesView, d: OptionsView) -> Seq<char> {
    match o.shell {
        Some(s) => "[s] Shell: "@ + s + "  (stage override)"@,
        None => match d.shell {
            Some(s) => "[s] Shell: "@ + s + "  (inherited)"@,
            None => "[s] Shell: auto-detect  (inherited)"@,
        },
    }
}

/// The default shell.
pub open spec fn global_shell_label(d: OptionsView) -> Seq<char> {
    match d.shell {
        Some(s) => "[s] Shell: "@ + s,
        None => "[s] Shell: auto-detect"@,
    }
}

/// The lines of the options popup.
pub open spec fn options_of(p: PipelineView, d: OptionsView, tab: OptionsTab) -> Seq<
    Seq<SpanView>,
> {
    match tab {
        OptionsTab::Stage => {
            let o = p.stages[p.selected].overrides;
            seq![
                tab_line(p.selected, tab),
                seq![raw(stage_interactive_label(o, d))],
                seq![raw(stage_shell_label(o, d))],
            ] + (if o != no_overrides() {
                seq![seq![raw("[r] Reset overrides to inherited"@)]]
            } else {
                Seq::empty()
            })
        },
        OptionsTab::Global => seq![
            tab_line(p.selected, tab),
            seq![
                raw(
                    if d.interactive {
                        "[i] Interactive shell:  ON"@
                    } else {
                        "[i] Interactive shell:  OFF"@
                    },
                ),
            ],
            seq![raw(global_shell_label(d))],
        ],
    }
}

fn shell_text(shell: &String, suffix: &str) -> (r: String)
    ensures
        r@ == "[s] Shell: "@ + shell@ + suffix@,
{
    let mut text = "[s] Shell: ".to_owned();
    text.append(shell.as_str());
    text.append(suffix);
    text
}

/// The lines of the options overlay: the names of the tabs, and the options of
/// the selected stage or the defaults.
pub fn options_lines(pipeline: &Pipeline, defaults: &GlobalDefaults, tab: OptionsTab) -> (r: Vec<
    Line,
>)
    requires
        tab == OptionsTab::Stage ==> pipeline@.selected < pipeline@.stages.len(),
        pipeline@.selected < usize::MAX,
    ensures
        lines_view(r@) == options_of(pipeline@, defaults@, tab),
{
    let mut lines: Vec<Line> = Vec::new();
    proof {
        assert(lines_view(lines@) =~= Seq::<Seq<SpanView>>::empty());
        assert(pipeline.stages.len() == pipeline@.stages.len());
    }
    let stage_tab = match tab {
        OptionsTab::Stage => true,
        OptionsTab::Global => false,
    };
    let mut name = " Stage ".to_owned();
    push_decimal(&mut name, pipeline.selected as u64 + 1);
    name.append(" ");
    let mut tabs = no_spans();
    push_styled(&mut tabs, name, make_tab_style(stage_tab));
    push_raw(&mut tabs, "│".to_owned());
    push_styled(&mut tabs, " Global ".to_owned(), make_tab_style(!stage_tab));
    proof {
        assert(spans_view(tabs@) =~= tab_line(pipeline@.selected, tab));
    }
    push_line(&mut lines, tabs);
    if stage_tab {
        let stage = &pipeline.stages[pipeline.selected];
        proof {
            assert(pipeline@.stages[pipeline@.selected] == stage@);
        }
        let interactive = match stage.overrides.interactive {
            Some(true) => "[i] Interactive shell:  ON  (stage override)",
            Some(false) => "[i] Interactive shell:  OFF (stage override)",
            None => if defaults.interactive {
                "[i] Interactive shell:  ON  (inherited)"
            } else {
                "[i] Interactive shell:  OFF (inherited)"
            },
        };
        let shell = match &stage.overrides.shell {
            Some(s) => shell_text(s, "  (stage override)"),
            None => match &defaults.shell {
                Some(s) => shell_text(s, "  (inherited)"),
                None => "[s] Shell: auto-detect  (inherited)".to_owned(),
            },
        };
        push_text_line(&mut lines, interactive.to_owned());
        push_text_line(&mut lines, shell);
        if stage.overrides.has_overrides() {
            push_text_line(&mut lines, "[r] Reset overrides to inherited".to_owned());
        }
    } else {
        let interactive = if defaults.interactive {
            "[i] Interactive shell:  ON"
        } else {
            "[i] Interactive shell:  OFF"
        };
        let shell = match &defaults.shell {
            Some(s) => {
                let text = shell_text(s, "");
                proof {
                    reveal_strlit("");
                    assert(text@ =~= "[s] Shell: "@ + s@);
                }
                text
            },
            None => "[s] Shell: auto-detect".to_owned(),
        };
        push_text_line(&mut lines, interactive.to_owned());
        push_text_line(&mut lines, shell);
    }
    proof {
        assert(lines_view(lines@) =~= options_of(pipeline@, defaults@, tab));
    }
    lines
}

/// The rectangle of the options overlay.
pub open spec fn options_area_of(area: Area, items: int) -> Area {
    centred(
        area,
        if area.width < 50 {
            area.width as int
        } else {
            50
        },
        items + 2,
    )
}

/// The rectangle of the options overlay, which has `items` lines.
pub fn options_area(area: Area, items: u16) -> (r: Area)
    requires
        area.wf(),
        items <= u16::MAX - 2,
    ensures
        r == options_area_of(area, items as int),
{
    let width = if area.width < 50 {
        area.width
    } else {
        50
    };
    centre(area, width, items + 2)
}

/// The title of the editor for a shell.
pub open spec fn shell_title(selected: int, tab: OptionsTab) -> Seq<char> {
    match tab {
        OptionsTab::Stage => "Stage "@ + decimal((selected + 1) as nat) + " Shell"@,
        OptionsTab::Global => "Global Shell"@,
    }
}

/// The editor for the shell of the selected stage or for the default shell.
pub fn shell_dialog(
    editor: &EditorState,
    selected: usize,
    tab: OptionsTab,
    area: Area,
) -> (r: EditorDialog)
    requires
        editor.wf(),
        area.wf(),
        selected < usize::MAX,
    ensures
        r@ == editor_dialog_of(
            editor.content@,
            editor.cursor as int,
            editor.scroll_x as int,
            shell_title(selected as int, tab),
            EDITOR_DIALOG_MAX_WIDTH as int,
            area,
        ),
{
    let title = match tab {
        OptionsTab::Stage => {
            let mut title = "Stage ".to_owned();
            push_decimal(&mut title, selected as u64 + 1);
            title.append(" Shell");
            title
        },
        OptionsTab::Global => "Global Shell".to_owned(),
    };
    editor_dialog(editor, title.as_str(), EDITOR_DIALOG_MAX_WIDTH, area)
}

} // verus!

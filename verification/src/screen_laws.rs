//! What is on the screen, part by part.
use vstd::prelude::*;

use crate::ansi_lines::visible_lines;
use crate::app_model::{current_text, line_count, max_scroll, stderr_map, AppModel, ModeView};
use crate::caret::lemma_caret_between;
use crate::editor::{dialog_width_of, inner_width_of, EditorView};
use crate::executor::output::{line_total, OutputMode};
use crate::history::{EntryView, HistoryEntry};
use crate::key_laws::{lesser, scrolls_to, seen};
use crate::number::{decimal, signed_decimal};
use crate::options::OptionsView;
use crate::pipeline::PipelineView;
use crate::search::{sorted_by_line, SearchView};
use crate::style::{spans_text, Color, SpanView, Style};
use crate::text::byte_len;
use crate::text_tools::{join_texts, padded_left, padded_right};
use crate::ui::{
    command_dialog_of, command_prompt, command_spans, command_style, command_text, connector_style,
    count_label, count_spans, count_style, cursor_text, data_active, delete_question, detail_label,
    edit_title, editor_dialog_of, entry_items, entry_label, entry_rows, first_entry, front_bytes,
    help_area_of, hint_bar, max_width_in, mode_hints, options_area_of, options_of, popup_of, prompt,
    save_dialog_of, shell_title, shown_command, stage_connector, stages_bar_of, status_bar_of, Area,
    OptionsTab, StagesBarView,
};
use crate::ui_output::{
    body_of, exit_text, inner_rows, laid_out, lines_in_view, marks_in_window, match_count,
    output_title_of, scroll_hint_area, scroll_hint_text, with_margin, with_margins, BodyView,
};

verus! {

/// A style in which nothing is set.
pub open spec fn unset() -> Style {
    Style { fg: None, bg: None, bold: false, underlined: false }
}

/// A style with a colour of its own and nothing else.
pub open spec fn in_colour(c: Color) -> Style {
    Style { fg: Some(c), ..unset() }
}

/// Text in a style.
pub open spec fn span(content: Seq<char>, style: Style) -> SpanView {
    SpanView { content, style }
}

/// The stream that is chosen for stage `i`.
pub open spec fn chosen(m: AppModel, i: int) -> OutputMode {
    if i < m.views.len() {
        m.views[i].output_mode
    } else {
        OutputMode::Stdout
    }
}

// ---------------------------------------------------------------------------
// The stages
// ---------------------------------------------------------------------------

/// What stands between two stages pipes the stream that is chosen for the first
/// of them; nothing stands behind the last one.
pub proof fn law_pipes_carry_the_chosen_stream(m: AppModel, i: int)
    requires
        0 <= i < m.pipeline.stages.len(),
    ensures
        ({
            let between = stage_connector(m, i);
            let is_last = i == m.pipeline.stages.len() - 1;
            &&& is_last ==> between.len() == 0
            &&& !is_last && chosen(m, i) == OutputMode::Stdout ==> between == " | "@
            &&& !is_last && chosen(m, i) == OutputMode::Stderr ==> between
                == " 2>&1 >/dev/null | "@
            &&& !is_last && chosen(m, i) == OutputMode::Combined ==> between == " 2>&1 | "@
        }),
{
}

/// The command of a pipeline is made of those of its stages, in their order,
/// with what stands between them.
pub proof fn law_command_of_a_pipeline(m: AppModel, i: int)
    requires
        0 <= i < m.pipeline.stages.len(),
    ensures
        command_text(m, i + 1) == command_text(m, i) + m.pipeline.stages[i].command
            + stage_connector(m, i),
        command_text(m, 0).len() == 0,
{
}

/// Whether stage `i` has exited with anything but zero.
pub open spec fn exited_badly(m: AppModel, i: int) -> bool {
    i < m.outputs.len() && m.outputs[i].exit_code is Some && m.outputs[i].exit_code != Some(0i32)
}

/// Data has come in no longer ago than a tenth of a second.
pub proof fn law_recent_data(m: AppModel, i: int)
    requires
        0 <= i < m.pipeline.stages.len(),
    ensures
        m.pipeline.stages[i].last_update is None ==> !data_active(m, i),
        m.pipeline.stages[i].last_update matches Some(t) ==> (data_active(m, i) <==> m.clock <= t
            + 100),
        !data_active(m, m.pipeline.stages.len() as int),
{
}

/// A stage that has failed is red, with its command on red if it is selected; a
/// selected one is on cyan; others are white. The connector is bright while data
/// flows on either side of it.
pub proof fn law_colours_of_stages(m: AppModel, i: int)
    requires
        0 <= i < m.pipeline.stages.len(),
    ensures
        ({
            let selected = i == m.pipeline.selected;
            let bad = exited_badly(m, i);
            let bright = Style { bold: true, ..in_colour(Color::White) };
            let c = command_style(m, i);
            let n = count_style(m, i);
            &&& selected && bad ==> c == (Style { bg: Some(Color::Red), ..bright })
            &&& selected && !bad ==> c == (Style { bg: Some(Color::Cyan), ..bright })
            &&& !selected && bad ==> c == in_colour(Color::Red)
            &&& !selected && !bad ==> c == in_colour(Color::White)
            &&& bad ==> n == in_colour(Color::Red)
            &&& !bad && selected ==> n == (Style { bold: true, ..in_colour(Color::Cyan) })
            &&& !bad && !selected && data_active(m, i) ==> n == (Style {
                bold: true,
                ..in_colour(Color::Yellow)
            })
            &&& !bad && !selected && !data_active(m, i) ==> n == in_colour(Color::DarkGray)
            &&& data_active(m, i) || data_active(m, i + 1) ==> connector_style(m, i) == bright
            &&& !data_active(m, i) && !data_active(m, i + 1) ==> connector_style(m, i)
                == in_colour(Color::DarkGray)
        }),
{
}

/// Number of lines that a stage has put out on stdout.
pub open spec fn lines_out(m: AppModel, i: int) -> int {
    if i < m.outputs.len() {
        line_total(m.outputs[i].stdout) as int
    } else {
        0
    }
}

/// Number of lines that a stage has put out on stderr.
pub open spec fn lines_err(m: AppModel, i: int) -> int {
    if i < m.outputs.len() {
        line_total(m.outputs[i].stderr) as int
    } else {
        0
    }
}

/// Above a stage stands how many lines it has put out on the stream that is
/// chosen, with a mark in front for an interactive shell and a cross behind for
/// a failure.
pub proof fn law_labels_of_stages(m: AppModel, i: int)
    requires
        0 <= i < m.pipeline.stages.len(),
        lines_out(m, i) + lines_err(m, i) <= usize::MAX,
    ensures
        ({
            let n = match chosen(m, i) {
                OutputMode::Stdout => lines_out(m, i),
                OutputMode::Stderr => lines_err(m, i),
                OutputMode::Combined => lines_out(m, i) + lines_err(m, i),
            };
            let interactive = match m.pipeline.stages[i].overrides.interactive {
                Some(b) => b,
                None => m.defaults.interactive,
            };
            let mark = if interactive {
                "ⁱ"@
            } else {
                Seq::empty()
            };
            let cross = if exited_badly(m, i) {
                "✗"@
            } else {
                Seq::empty()
            };
            count_label(m, i) == mark + decimal(n as nat) + cross
        }),
{
}

/// The selected stage shows the lines of both streams: those that are not
/// passed on in brackets, or both with their sum.
pub proof fn law_counts_of_both_streams(m: AppModel)
    requires
        0 <= m.pipeline.selected,
        lines_out(m, m.pipeline.selected) + lines_err(m, m.pipeline.selected) <= usize::MAX,
    ensures
        ({
            let i = m.pipeline.selected;
            let out = decimal(lines_out(m, i) as nat);
            let err = decimal(lines_err(m, i) as nat);
            let sum = decimal((lines_out(m, i) + lines_err(m, i)) as nat);
            let label = detail_label(m);
            &&& chosen(m, i) == OutputMode::Stdout ==> label == out + "/["@ + err + "]"@
            &&& chosen(m, i) == OutputMode::Stderr ==> label == "["@ + out + "]/"@ + err
            &&& chosen(m, i) == OutputMode::Combined ==> label == out + "+"@ + err + "="@ + sum
        }),
{
}

proof fn lemma_command_spans_front(m: AppModel, n: int)
    requires
        0 <= n <= m.pipeline.stages.len(),
    ensures
        spans_text(command_spans(m, n)) == shown_text_of(m, n),
        count_spans(m, n).len() == n,
    decreases n,
{
    if n > 0 {
        let i = n - 1;
        lemma_command_spans_front(m, i);
        let front = command_spans(m, i);
        let a = front.push(span(shown_command(m, i), command_style(m, i)));
        assert(a.drop_last() =~= front);
        assert(spans_text(a) == spans_text(front) + shown_command(m, i));
        if stage_connector(m, i).len() > 0 {
            let b = a.push(span(stage_connector(m, i), connector_style(m, i)));
            assert(b.drop_last() =~= a);
            assert(spans_text(b) == spans_text(a) + stage_connector(m, i));
        } else {
            assert(spans_text(a) + stage_connector(m, i) =~= spans_text(a));
        }
    }
}

/// The first `n` commands as they are shown, with what stands behind each.
pub open spec fn shown_text_of(m: AppModel, n: int) -> Seq<char>
    decreases n,
{
    if n <= 0 {
        Seq::empty()
    } else {
        let command = m.pipeline.stages[n - 1].command;
        shown_text_of(m, n - 1) + (if command.len() > 0 {
            command
        } else {
            "<empty>"@
        }) + stage_connector(m, n - 1)
    }
}

/// The bar of stages: a title with a cross if any stage has failed, the counts of
/// the selected stage, a label for each stage, and their commands, with a word
/// for one that is empty. Without stages it is empty.
pub proof fn law_bar_of_stages(m: AppModel, i: int)
    requires
        0 <= m.pipeline.selected,
    ensures
        m.pipeline.stages.len() == 0 ==> stages_bar_of(m) is Empty,
        m.pipeline.stages.len() > 0 ==> {
            &&& stages_bar_of(m) matches StagesBarView::Stages {
                title,
                detail,
                style,
                counts,
                commands,
            }
            &&& 0 <= i && exited_badly(m, i) ==> title == "— Pipeline ✗ "@
            &&& (forall|k: int| 0 <= k ==> !(#[trigger] exited_badly(m, k))) ==> title
                == "— Pipeline "@
            &&& detail == "— "@ + detail_label(m) + " -"@
            &&& exited_badly(m, m.pipeline.selected) ==> style == in_colour(Color::Red)
            &&& !exited_badly(m, m.pipeline.selected) ==> style == unset()
            &&& counts.len() == m.pipeline.stages.len()
            &&& spans_text(commands) == shown_text_of(m, m.pipeline.stages.len() as int)
        },
{
    if m.pipeline.stages.len() > 0 {
        lemma_command_spans_front(m, m.pipeline.stages.len() as int);
        if forall|k: int| 0 <= k ==> !(#[trigger] exited_badly(m, k)) {
            assert forall|k: int| 0 <= k < m.outputs.len() implies !crate::ui::failed(
                #[trigger] m.outputs[k],
            ) by {
                assert(!exited_badly(m, k));
            }
        }
        if 0 <= i && exited_badly(m, i) {
            assert(crate::ui::failed(m.outputs[i]));
        }
    }
}

/// Each command is shown in the style of its stage, followed by what stands
/// between it and the next one, in a style of its own.
pub proof fn law_each_stage_has_its_style(m: AppModel, i: int)
    requires
        0 <= i < m.pipeline.stages.len(),
    ensures
        ({
            let command = m.pipeline.stages[i].command;
            let name = span(
                if command.len() > 0 {
                    command
                } else {
                    "<empty>"@
                },
                command_style(m, i),
            );
            let front = command_spans(m, i);
            &&& i == m.pipeline.stages.len() - 1 ==> command_spans(m, i + 1) == front.push(name)
            &&& i < m.pipeline.stages.len() - 1 ==> command_spans(m, i + 1) == front.push(
                name,
            ).push(span(stage_connector(m, i), connector_style(m, i)))
        }),
{
    reveal_strlit(" | ");
    reveal_strlit(" 2>&1 | ");
    reveal_strlit(" 2>&1 >/dev/null | ");
}

/// Each label is that of its stage, in its style, and as wide as the stage.
pub proof fn law_each_stage_has_its_label(m: AppModel, n: int, i: int)
    requires
        0 <= i < n <= m.pipeline.stages.len(),
    ensures
        count_spans(m, n).len() == n,
        count_spans(m, n)[i] == span(
            padded_right(
                count_label(m, i),
                byte_len(shown_command(m, i) + stage_connector(m, i)) as int,
            ),
            count_style(m, i),
        ),
    decreases n,
{
    lemma_command_spans_front(m, n);
    lemma_command_spans_front(m, n - 1);
    if i < n - 1 {
        law_each_stage_has_its_label(m, n - 1, i);
    }
}

// ---------------------------------------------------------------------------
// Text with a cursor
// ---------------------------------------------------------------------------

/// The character behind the cursor is black on white, and at the end of the text
/// a space is; the rest of the text is plain.
pub proof fn law_cursor_stands_out(a: Seq<char>, c: char, b: Seq<char>)
    ensures
        ({
            let block = Style { bg: Some(Color::White), ..in_colour(Color::Black) };
            &&& cursor_text(a + (seq![c] + b), byte_len(a) as int) == seq![
                span(a, unset()),
                span(seq![c], block),
                span(b, unset()),
            ]
            &&& cursor_text(a, byte_len(a) as int) == seq![
                span(a, unset()),
                span(seq![' '], block),
            ]
        }),
{
    lemma_caret_between(a, seq![c] + b);
    assert((seq![c] + b).drop_first() =~= b);
    assert(a + Seq::<char>::empty() =~= a);
    lemma_caret_between(a, Seq::empty());
    reveal_strlit(" ");
    assert(" "@ =~= seq![' ']);
    assert(cursor_text(a, byte_len(a) as int) =~= seq![
        span(a, unset()),
        span(seq![' '], Style { bg: Some(Color::White), ..in_colour(Color::Black) }),
    ]);
}

/// A prompt is its sign, the text with its cursor, and a hint.
pub open spec fn is_prompt(
    spans: Seq<SpanView>,
    sign: Seq<char>,
    text: Seq<SpanView>,
    hint: Seq<char>,
    colour: Color,
) -> bool {
    spans == seq![span(sign, Style { bold: true, ..in_colour(Color::Yellow) })] + text + seq![
        span(hint, in_colour(colour)),
    ]
}

/// A bar with a name and hints.
pub open spec fn is_hint_bar(spans: Seq<SpanView>, name: Seq<char>, hints: Seq<char>) -> bool {
    spans == seq![
        span(
            " "@ + name + " "@,
            Style { bg: Some(Color::Cyan), bold: true, ..in_colour(Color::Black) },
        ),
        span("  "@, unset()),
        span(" "@ + hints + " "@, in_colour(Color::DarkGray)),
    ]
}

/// The last row is the query or the command that is being entered, with its
/// cursor; else it names the mode, and tells that a run is on, and has the keys
/// of the mode, among them those for matches only where there are any.
pub proof fn law_last_row(m: AppModel, e: EditorView, completions: Seq<char>)
    requires
        0 <= m.pipeline.selected,
    ensures
        ({
            let s = status_bar_of(m);
            let q = seen(m).search;
            let text = e.caret.before + e.caret.after;
            let at = byte_len(e.caret.before) as int;
            let keys = "[q]uit  [e]edit  [O]prepend  [o|]append  [d,Del] [hl←→]switch  [m]cycle output  [s]ave  [r]erun  [/]search  [?,:h]help"@;
            let more = if q.matches.len() > 0 {
                keys + "  [n]ext-match  [N]prev-match  [Esc]clear-search"@
            } else {
                keys
            };
            let confirm = "[Enter]confirm  [Esc]cancel"@;
            &&& m.mode is Searching ==> is_prompt(
                s,
                "/"@,
                cursor_text(q.query, q.cursor),
                "  [Enter]search  [Esc]cancel"@,
                Color::DarkGray,
            )
            &&& m.mode == ModeView::Command(e) ==> is_prompt(
                s,
                ":"@,
                cursor_text(text, at),
                "  [Tab]complete  [Enter]run  [Esc]cancel"@,
                Color::DarkGray,
            )
            &&& is_prompt(
                command_prompt(text, at, Some(completions)),
                ":"@,
                cursor_text(text, at),
                "  "@ + completions,
                Color::Cyan,
            )
            &&& m.mode is Normal && !m.running ==> is_hint_bar(s, "NORMAL"@, more)
            &&& m.mode is Normal && m.running ==> is_hint_bar(s, "NORMAL ⟳ Running…"@, more)
            &&& m.mode is Editing ==> is_hint_bar(s, "EDIT"@, confirm)
            &&& m.mode is Saving ==> is_hint_bar(s, "SAVE"@, confirm)
            &&& m.mode is ConfirmingDelete ==> is_hint_bar(
                s,
                "DELETE?"@,
                "[y]confirm delete  [any]cancel"@,
            )
        }),
{
    let keys = "[q]uit  [e]edit  [O]prepend  [o|]append  [d,Del] [hl←→]switch  [m]cycle output  [s]ave  [r]erun  [/]search  [?,:h]help"@;
    assert(keys + Seq::<char>::empty() =~= keys);
    lemma_hint_bar(mode_hints(m).0, mode_hints(m).1);
    let q = seen(m).search;
    let text = e.caret.before + e.caret.after;
    let at = byte_len(e.caret.before) as int;
    lemma_prompt("/"@, q.query, q.cursor, "  [Enter]search  [Esc]cancel"@, Color::DarkGray);
    lemma_prompt(":"@, text, at, "  [Tab]complete  [Enter]run  [Esc]cancel"@, Color::DarkGray);
    lemma_prompt(":"@, text, at, "  "@ + completions, Color::Cyan);
}

proof fn lemma_hint_bar(name: Seq<char>, hints: Seq<char>)
    ensures
        is_hint_bar(hint_bar(name, hints), name, hints),
{
    assert(hint_bar(name, hints) =~= seq![
        span(
            " "@ + name + " "@,
            Style { bg: Some(Color::Cyan), bold: true, ..in_colour(Color::Black) },
        ),
        span("  "@, unset()),
        span(" "@ + hints + " "@, in_colour(Color::DarkGray)),
    ]);
}

proof fn lemma_prompt(
    sign: Seq<char>,
    content: Seq<char>,
    cursor: int,
    hint: Seq<char>,
    colour: Color,
)
    ensures
        is_prompt(
            prompt(sign, content, cursor, hint, colour),
            sign,
            cursor_text(content, cursor),
            hint,
            colour,
        ),
{
    assert(prompt(sign, content, cursor, hint, colour) =~= seq![
        span(sign, Style { bold: true, ..in_colour(Color::Yellow) }),
    ] + cursor_text(content, cursor) + seq![span(hint, in_colour(colour))]);
}

// ---------------------------------------------------------------------------
// Dialogs
// ---------------------------------------------------------------------------

/// A dialog leaves two columns on each side of the screen, unless it is as wide
/// as it gets; it is three rows high and lies in the middle. It shows its title
/// between spaces, and its text with the cursor.
pub proof fn law_dialog_for_a_text(
    content: Seq<char>,
    cursor: int,
    scroll_x: int,
    title: Seq<char>,
    max_width: int,
    area: Area,
)
    requires
        area.wf(),
        0 <= max_width <= u16::MAX,
        0 <= scroll_x,
    ensures
        ({
            let d = editor_dialog_of(content, cursor, scroll_x, title, max_width, area);
            let w = if area.width < 4 {
                0
            } else {
                lesser(area.width - 4, max_width)
            };
            let left = d.area.x - area.x;
            let right = area.x + area.width - (d.area.x + d.area.width);
            let above = d.area.y - area.y;
            let below = area.y + area.height - (d.area.y + 3);
            &&& d.area.width == w
            &&& d.area.height == 3
            &&& dialog_width_of(area.width as int, max_width) == w
            &&& inner_width_of(area.width as int, max_width) == (if w <= 2 {
                0
            } else {
                w - 2
            })
            &&& 0 <= left <= right <= left + 1
            &&& area.height >= 3 ==> 0 <= above <= below <= above + 1
            &&& d.title == " "@ + title + " "@
            &&& d.text == cursor_text(content, cursor)
            &&& d.scroll_x == lesser(scroll_x, u16::MAX as int)
        }),
{
}

/// Where something of the given size lies in the middle of the screen.
pub open spec fn is_centred(a: Area, area: Area, width: int, height: int) -> bool {
    let left = a.x - area.x;
    let right = area.x + area.width - (a.x + a.width);
    let above = a.y - area.y;
    let below = area.y + area.height - (a.y + a.height);
    &&& a.width == width
    &&& a.height == height
    &&& 0 <= left <= right <= left + 1
    &&& height <= area.height ==> 0 <= above <= below <= above + 1
    &&& height > area.height ==> above == 0
}

/// A command is edited in a dialog of at most a hundred and twenty columns, and a
/// file name in one of at most sixty, each with its title and its cursor; in
/// other modes there is no such dialog.
pub proof fn law_dialogs_of_modes(m: AppModel, e: EditorView, area: Area)
    ensures
        ({
            let c = command_dialog_of(m, area);
            let s = save_dialog_of(m, area);
            let text = e.caret.before + e.caret.after;
            let at = byte_len(e.caret.before) as int;
            &&& m.mode is Editing && m.mode->editor == e ==> c == Some(
                editor_dialog_of(
                    text,
                    at,
                    e.scroll_x,
                    "Edit Stage "@ + decimal((m.pipeline.selected + 1) as nat) + " Command"@,
                    120,
                    area,
                ),
            )
            &&& m.mode == ModeView::Saving(e) ==> s == Some(
                editor_dialog_of(text, at, e.scroll_x, "Save Output To File"@, 60, area),
            )
            &&& !(m.mode is Editing) ==> c is None
            &&& !(m.mode is Saving) ==> s is None
            &&& m.mode is Editing ==> max_width_in(m.mode) == Some(120u16)
            &&& m.mode is Saving ==> max_width_in(m.mode) == Some(60u16)
            &&& !(m.mode is Editing) && !(m.mode is Saving) ==> max_width_in(m.mode) is None
        }),
{
}

/// The help is at most sixty columns wide and the options fifty, each as high as
/// its lines and two borders, in the middle of the screen.
pub proof fn law_overlays(area: Area, items: int)
    requires
        area.wf(),
        0 <= items <= u16::MAX - 2,
    ensures
        is_centred(help_area_of(area, items), area, lesser(area.width as int, 60), items + 2),
        is_centred(options_area_of(area, items), area, lesser(area.width as int, 50), items + 2),
{
}

/// The history is shown in a popup of at most ninety columns, as high as its
/// entries and four rows more, or as the screen with one row left; the question
/// whether to delete is in yellow. The entries are those from the first one on,
/// or up to the selected one if that is further down.
pub proof fn law_popup_with_the_history(
    entries: Seq<HistoryEntry>,
    selected: int,
    confirming: bool,
    area: Area,
)
    requires
        area.wf(),
        area.height > 5,
        area.width >= 4,
        0 <= selected < entries.len(),
    ensures
        ({
            let p = popup_of(entries, selected, confirming, area);
            let n = entries.len() as int;
            let rows = area.height - 5;
            let width = lesser(area.width - 4, 90);
            let first = if selected < rows {
                0
            } else {
                selected - rows + 1
            };
            let grey = Style { bg: Some(Color::DarkGray), ..unset() };
            &&& is_centred(p.area, area, width, lesser(n, rows) + 4)
            &&& p.items == entry_items(
                entries,
                selected,
                first,
                lesser(first + rows, n),
                if width >= 2 {
                    width - 2
                } else {
                    0
                },
            )
            &&& confirming ==> p.title == " ⚠️ Delete this entry? [y]es / [any]cancel "@
            &&& confirming ==> p.style == (Style { fg: Some(Color::Yellow), ..grey })
            &&& !confirming ==> p.title
                == " History — ↑↓ navigate, Enter load, Del/x delete, q/Esc close "@
            &&& !confirming ==> p.style == grey
        }),
{
}

/// Titles number the stages from one on.
pub proof fn law_titles(selected: int)
    requires
        selected >= 0,
    ensures
        edit_title(selected) == "Edit Stage "@ + decimal((selected + 1) as nat) + " Command"@,
        shell_title(selected, OptionsTab::Stage) == "Stage "@ + decimal((selected + 1) as nat)
            + " Shell"@,
        shell_title(selected, OptionsTab::Global) == "Global Shell"@,
{
}

/// The question before a stage is deleted says which one, of how many.
pub proof fn law_question_before_deleting(m: AppModel)
    requires
        0 <= m.pipeline.selected,
    ensures
        delete_question(m) == seq![
            seq![
                span(
                    "Deleting stage "@ + decimal((m.pipeline.selected + 1) as nat) + " of "@
                        + decimal(m.pipeline.stages.len()) + " may break downstream stages."@,
                    unset(),
                ),
            ],
            seq![span(""@, unset())],
            seq![
                span("y"@, Style { bold: true, ..in_colour(Color::Green) }),
                span(" to confirm, any other key to cancel"@, unset()),
            ],
        ],
{
    let q = delete_question(m);
    assert(q[2] =~= seq![
        span("y"@, Style { bold: true, ..in_colour(Color::Green) }),
        span(" to confirm, any other key to cancel"@, unset()),
    ]);
    assert(q[1] =~= seq![span(""@, unset())]);
    assert(q[0] =~= seq![q[0][0]]);
}

/// An entry of the history has its number, three wide, and its commands; where
/// that is longer than there is room for, as much of its front as leaves room
/// for an ellipsis.
pub proof fn law_entries_are_cut_to_fit(e: EntryView, i: int, width: int)
    requires
        i >= 0,
    ensures
        ({
            let label = padded_left(decimal((i + 1) as nat), 3) + "  "@ + join_texts(
                e.commands,
                " | "@,
            );
            let r = entry_label(e, i, width);
            &&& byte_len(label) <= width ==> r == label
            &&& byte_len(label) > width && width > 0 ==> r == front_bytes(label, width - 1) + "…"@
            &&& byte_len(label) > width && width <= 0 ==> r == front_bytes(label, 0) + "…"@
        }),
{
}

/// What is kept of a text that is cut is as much as fits: the next character
/// would not.
pub proof fn law_cutting_keeps_as_much_as_fits(s: Seq<char>, n: int)
    requires
        n >= 0,
    ensures
        ({
            let k = front_bytes(s, n).len() as int;
            &&& k <= s.len()
            &&& front_bytes(s, n) == s.take(k)
            &&& byte_len(s.take(k)) <= n
            &&& k < s.len() ==> byte_len(s.take(k + 1)) > n
        }),
    decreases s.len(),
{
    crate::ui_laws::law_cut_label_fits(s, n);
    let none = Seq::<char>::empty();
    if s.len() > 0 {
        let w = crate::text::char_width(s[0]) as int;
        let t = s.drop_first();
        if w > n {
            crate::text::lemma_byte_len_cons(s[0], none);
            assert(s.take(1) =~= seq![s[0]] + none);
        } else {
            law_cutting_keeps_as_much_as_fits(t, n - w);
            let g = front_bytes(t, n - w);
            let k = g.len() as int;
            if k < t.len() {
                crate::text::lemma_byte_len_cons(s[0], t.take(k + 1));
                assert(s.take(k + 2) =~= seq![s[0]] + t.take(k + 1));
            }
        }
    }
}

/// As many entries are shown as there is room for, from the first one on, or up
/// to the selected one if that is further down; the selected one is black on
/// cyan.
pub proof fn law_entries_in_view(
    entries: Seq<HistoryEntry>,
    selected: int,
    first: int,
    last: int,
    width: int,
    i: int,
)
    requires
        first <= i < last,
    ensures
        ({
            let items = entry_items(entries, selected, first, last, width);
            &&& items.len() == last - first
            &&& items[i - first] == span(
                entry_label(entries[i]@, i, width),
                if i == selected {
                    Style { bg: Some(Color::Cyan), bold: true, ..in_colour(Color::Black) }
                } else {
                    unset()
                },
            )
        }),
        forall|rows: int|
            rows > 0 ==> (#[trigger] first_entry(selected, rows)) == (if selected + 1 <= rows {
                0
            } else {
                selected + 1 - rows
            }),
        forall|a: Area|
            #[trigger] entry_rows(a) == (if a.height >= 5 {
                a.height - 5
            } else {
                0
            }),
    decreases last - first,
{
    if i < last - 1 {
        law_entries_in_view(entries, selected, first, last - 1, width, i);
    } else if first < last - 1 {
        law_entries_in_view(entries, selected, first, last - 1, width, first);
    } else {
        assert(entry_items(entries, selected, first, last - 1, width) =~= Seq::<SpanView>::empty());
    }
    let front = entry_items(entries, selected, first, last - 1, width);
    let items = entry_items(entries, selected, first, last, width);
    assert(front.len() == last - 1 - first);
    assert(items.drop_last() =~= front);
    if i < last - 1 {
        assert(items[i - first] == front[i - first]);
    }
}

// ---------------------------------------------------------------------------
// Options
// ---------------------------------------------------------------------------

/// The options of the selected stage tell what it runs with and whether that is
/// its own or inherited; they can be reset only where it has its own. The
/// defaults tell what they are. The tab that is shown is underlined.
pub proof fn law_options_that_are_shown(p: PipelineView, d: OptionsView, shell: Seq<char>)
    requires
        0 <= p.selected < p.stages.len(),
    ensures
        ({
            let o = p.stages[p.selected].overrides;
            let s = options_of(p, d, OptionsTab::Stage);
            let g = options_of(p, d, OptionsTab::Global);
            let on = Style { bold: true, underlined: true, ..in_colour(Color::White) };
            let off = in_colour(Color::DarkGray);
            let name = " Stage "@ + decimal((p.selected + 1) as nat) + " "@;
            let own = o.interactive is Some || o.shell is Some;
            let text = |t: Seq<char>| seq![span(t, unset())];
            &&& s[0] == seq![span(name, on), span("│"@, unset()), span(" Global "@, off)]
            &&& g[0] == seq![span(name, off), span("│"@, unset()), span(" Global "@, on)]
            &&& s.len() == (if own {
                4int
            } else {
                3
            })
            &&& own ==> s[3] == text("[r] Reset overrides to inherited"@)
            &&& o.interactive == Some(true) ==> s[1] == text(
                "[i] Interactive shell:  ON  (stage override)"@,
            )
            &&& o.interactive == Some(false) ==> s[1] == text(
                "[i] Interactive shell:  OFF (stage override)"@,
            )
            &&& o.interactive is None && d.interactive ==> s[1] == text(
                "[i] Interactive shell:  ON  (inherited)"@,
            )
            &&& o.interactive is None && !d.interactive ==> s[1] == text(
                "[i] Interactive shell:  OFF (inherited)"@,
            )
            &&& o.shell == Some(shell) ==> s[2] == text(
                "[s] Shell: "@ + shell + "  (stage override)"@,
            )
            &&& o.shell is None && d.shell == Some(shell) ==> s[2] == text(
                "[s] Shell: "@ + shell + "  (inherited)"@,
            )
            &&& o.shell is None && d.shell is None ==> s[2] == text(
                "[s] Shell: auto-detect  (inherited)"@,
            )
            &&& g.len() == 3
            &&& d.interactive ==> g[1] == text("[i] Interactive shell:  ON"@)
            &&& !d.interactive ==> g[1] == text("[i] Interactive shell:  OFF"@)
            &&& d.shell == Some(shell) ==> g[2] == text("[s] Shell: "@ + shell)
            &&& d.shell is None ==> g[2] == text("[s] Shell: auto-detect"@)
        }),
{
}

// ---------------------------------------------------------------------------
// The output
// ---------------------------------------------------------------------------

/// The title of the output names the stream, tells how the stage has exited, and
/// which match of how many is selected.
pub proof fn law_title_of_the_output(m: AppModel, code: i32)
    requires
        0 <= m.pipeline.selected,
        m.pipeline.stages.len() > 0,
    ensures
        ({
            let t = output_title_of(m);
            let name = match seen(m).output_mode {
                OutputMode::Stdout => "stdout"@,
                OutputMode::Stderr => "stderr"@,
                OutputMode::Combined => "combined"@,
            };
            let i = lesser(m.pipeline.selected, m.outputs.len() - 1);
            let exit = if m.outputs.len() == 0 {
                None
            } else {
                m.outputs[i].exit_code
            };
            let text = exit_text(m);
            &&& t.len() == 3
            &&& t[0] == span("— "@ + name + " — "@ + text, unset())
            &&& t[1] == match_count(seen(m).search)
            &&& t[2] == span(" "@, unset())
            &&& exit is None ==> text.len() == 0
            &&& exit == Some(0i32) ==> text == " ✓ "@
            &&& exit == Some(code) && code != 0 ==> text == " ✗ exit:"@ + signed_decimal(
                code as int,
            ) + " "@
        }),
{
}

/// Matches are counted from one on, and only where something is searched for.
pub proof fn law_count_of_matches(s: SearchView)
    ensures
        s.query.len() == 0 ==> match_count(s) == span(""@, unset()),
        s.query.len() > 0 && s.matches.len() == 0 ==> match_count(s) == span(
            " [no matches]"@,
            in_colour(Color::Red),
        ),
        s.query.len() > 0 && s.matches.len() > 0 ==> match_count(s) == span(
            " ["@ + decimal((s.match_idx + 1) as nat) + "/"@ + decimal(s.matches.len()) + "]"@,
            Style { bold: true, ..in_colour(Color::Yellow) },
        ),
{
}

/// A negative number has a minus sign in front of its absolute value.
pub proof fn law_signed_numbers(n: nat)
    ensures
        signed_decimal(n as int) == decimal(n),
        n > 0 ==> signed_decimal(-(n as int)) == seq!['-'] + decimal(n),
{
}

/// A line of stderr has a mark in front of it, black on yellow, and its text is
/// grey, except for what has a background of its own; a line of stdout has a
/// space in front of it and stays as it is.
pub proof fn law_margins(spans: Seq<SpanView>, i: int)
    requires
        0 <= i < spans.len(),
    ensures
        ({
            let err = with_margin(spans, true);
            let out = with_margin(spans, false);
            &&& err.len() == spans.len() + 1
            &&& err[0] == span(
                ">"@,
                Style { bg: Some(Color::Yellow), ..in_colour(Color::Black) },
            )
            &&& err[i + 1].content == spans[i].content
            &&& spans[i].style.bg is Some ==> err[i + 1] == spans[i]
            &&& spans[i].style.bg is None ==> err[i + 1].style == (Style {
                fg: Some(Color::DarkGray),
                ..spans[i].style
            })
            &&& out == seq![span(" "@, unset())] + spans
        }),
{
}

/// Each line has the margin of the stream that it is from.
pub proof fn law_lines_have_the_margin_of_their_stream(
    lines: Seq<Seq<SpanView>>,
    flags: Seq<bool>,
    first: int,
    i: int,
)
    requires
        0 <= i < lines.len(),
        0 <= first,
    ensures
        with_margins(lines, flags, first).len() == lines.len(),
        with_margins(lines, flags, first)[i] == with_margin(
            lines[i],
            first + i < flags.len() && flags[first + i],
        ),
{
}

/// The pane has two borders; at least one line and one column count as visible.
/// A view that is scrolled beyond the end of the output is scrolled back to it,
/// and otherwise stays where it is; nothing else changes.
pub proof fn law_laying_out(m: AppModel, width: int, height: int)
    requires
        0 <= m.pipeline.selected,
        width >= 0,
        height >= 0,
    ensures
        ({
            let n = AppModel {
                visible_lines: if height <= 3 {
                    1
                } else {
                    height - 2
                },
                visible_width: if width == 0 {
                    1
                } else {
                    width
                },
                ..m
            };
            let r = laid_out(m, width, height);
            let shown = m.error is None && m.pipeline.stages.len() > 0 && line_count(m) > 0;
            &&& !shown ==> r == n
            &&& shown ==> scrolls_to(n, r, lesser(seen(m).scroll, max_scroll(n)))
            &&& inner_rows(height) == (if height >= 2 {
                height - 2
            } else {
                0
            })
        }),
{
}

/// An error takes the place of the output; without stages there is nothing, and
/// without lines it is said that there is no output. Else the lines from where
/// one looks are shown, as many as there are rows, with the matches marked, and
/// with margins where both streams are looked at.
pub proof fn law_what_is_shown(m: AppModel, rows: int, error: Seq<char>)
    requires
        0 <= m.pipeline.selected,
        rows >= 0,
        0 <= seen(m).scroll,
        seen(m).scroll + rows <= usize::MAX,
    ensures
        ({
            let b = body_of(m, rows);
            let v = seen(m);
            let end = v.scroll + rows;
            let lines = visible_lines(
                current_text(m),
                v.scroll,
                end,
                marks_in_window(v.search, v.scroll, end),
                None,
            );
            let shown = m.error is None && m.pipeline.stages.len() > 0 && line_count(m) > 0;
            &&& m.error == Some(error) ==> b == BodyView::Error(error)
            &&& m.error is None && m.pipeline.stages.len() == 0 ==> b is Blank
            &&& m.error is None && m.pipeline.stages.len() > 0 && line_count(m) == 0
                ==> b is NoOutput
            &&& shown ==> b == (BodyView::Lines {
                lines: lines_in_view(m, rows),
                scroll: v.scroll,
                max_scroll: max_scroll(m),
            })
            &&& v.output_mode != OutputMode::Combined ==> lines_in_view(m, rows) == lines
            &&& v.output_mode == OutputMode::Combined ==> lines_in_view(m, rows) == with_margins(
                lines,
                stderr_map(m),
                v.scroll,
            )
        }),
{
}

/// Nothing but the matches in view is marked.
pub proof fn law_only_matches_in_view_are_marked(s: SearchView, from: int, to: int, line: int)
    requires
        sorted_by_line(s.matches),
        !(from <= line < to),
        0 <= line <= usize::MAX,
    ensures
        !marks_in_window(s, from, to).contains_key(line as usize),
{
    let lo = crate::search::matches_before(s.matches, from, false);
    let hi = crate::search::matches_before(s.matches, to, false);
    crate::search::lemma_matches_before(s.matches, from, false);
    crate::search::lemma_matches_before(s.matches, to, false);
    lemma_marks_are_between(s, lo, hi, line as usize);
}

proof fn lemma_marks_are_between(s: SearchView, lo: int, hi: int, line: usize)
    requires
        0 <= lo,
        hi <= s.matches.len(),
        forall|k: int| lo <= k < hi ==> (#[trigger] s.matches[k]).0 != line,
    ensures
        !crate::ui_output::marks_between(s, lo, hi).contains_key(line),
    decreases hi - lo,
{
    if lo < hi {
        lemma_marks_are_between(s, lo, hi - 1, line);
    }
}

/// How far one has scrolled is told in the last row of the pane, at its right
/// edge, if there is room for it; it is never more than all of it.
pub proof fn law_scroll_hint(percent: int, inner: Area, len: int)
    requires
        percent >= 0,
        inner.wf(),
        0 <= len,
    ensures
        percent <= 100 ==> scroll_hint_text(percent) == " "@ + decimal(percent as nat) + "% "@,
        percent > 100 ==> scroll_hint_text(percent) == " "@ + decimal(100) + "% "@,
        inner.width <= len + 2 ==> scroll_hint_area(inner, len) is None,
        inner.width > len + 2 ==> {
            &&& scroll_hint_area(inner, len) matches Some(a)
            &&& a.x + a.width == inner.x + inner.width
            &&& a.width == len
            &&& a.height == 1
            &&& inner.height > 0 ==> a.y == inner.y + inner.height - 1
            &&& inner.height == 0 ==> a.y == inner.y
        },
{
}

} // verus!

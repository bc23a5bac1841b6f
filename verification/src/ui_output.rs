//! What the output pane shows.
use std::collections::HashMap;

use vstd::prelude::*;

use crate::ansi::marks_of;
use crate::ansi_laws::law_index_shows_same_lines;
use crate::ansi_lines::{ansi_text_to_visible_lines, visible_lines, Highlights};
use crate::app::App;
use crate::app_model::{
    current_output, current_text, current_view, line_count, max_scroll, scrolled_to,
    smaller, stderr_map, AppModel,
};
use crate::executor::output::{capped, OutputMode};
use crate::number::{decimal, push_decimal, push_signed, signed_decimal};
use crate::search::{count_before, matches_before, SearchView};
use crate::style::{
    lemma_spans_view_push, lines_view, spans_view, Color, Line, Span, SpanView, Style,
};
use crate::text::chars_of;
use crate::ui::{coloured, push_raw, push_styled, raw, styled, Area};

verus! {

broadcast use vstd::std_specs::hash::group_hash_axioms;

// ---------------------------------------------------------------------------
// The title
// ---------------------------------------------------------------------------

/// How the stage that is shown has ended.
pub open spec fn exit_text(m: AppModel) -> Seq<char> {
    if m.outputs.len() == 0 {
        Seq::empty()
    } else {
        match current_output(m).exit_code {
            Some(code) => if code == 0 {
                " ✓ "@
            } else {
                " ✗ exit:"@ + signed_decimal(code as int) + " "@
            },
            None => Seq::empty(),
        }
    }
}

/// The name of a mode.
pub open spec fn mode_name(mode: OutputMode) -> Seq<char> {
    match mode {
        OutputMode::Stdout => "stdout"@,
        OutputMode::Stderr => "stderr"@,
        OutputMode::Combined => "combined"@,
    }
}

/// Which match of how many is highlighted, while there is a query.
pub open spec fn match_count(s: SearchView) -> SpanView {
    if s.query.len() == 0 {
        raw(""@)
    } else if s.matches.len() == 0 {
        styled(" [no matches]"@, coloured(Color::Red))
    } else {
        styled(
            " ["@ + decimal((s.match_idx + 1) as nat) + "/"@ + decimal(s.matches.len()) + "]"@,
            coloured(Color::Yellow).spec_bold(),
        )
    }
}

/// The title of the output pane.
pub open spec fn output_title_of(m: AppModel) -> Seq<SpanView> {
    seq![
        raw("— "@ + mode_name(current_view(m).output_mode) + " — "@ + exit_text(m)),
        match_count(current_view(m).search),
        raw(" "@),
    ]
}

/// The title of the output pane: the stream that is shown, how the stage has
/// ended, and the number of matches.
pub fn output_title(app: &App) -> (r: Line)
    requires
        app.wf(),
    ensures
        r@ == output_title_of(app.model()),
{
    let view = app.view();
    let mut text = "— ".to_owned();
    text.append(
        match view.output_mode {
            OutputMode::Stdout => "stdout",
            OutputMode::Stderr => "stderr",
            OutputMode::Combined => "combined",
        },
    );
    text.append(" — ");
    let n: usize = app.stage_outputs.len();
    if n > 0 {
        let i = if app.pipeline.selected < n {
            app.pipeline.selected
        } else {
            n - 1
        };
        match app.stage_outputs[i].exit_code {
            Some(code) => {
                if code == 0 {
                    text.append(" ✓ ");
                } else {
                    text.append(" ✗ exit:");
                    push_signed(&mut text, code);
                    text.append(" ");
                }
            },
            None => {},
        }
    }
    let mut spans: Vec<Span> = Vec::new();
    proof {
        assert(spans_view(spans@) =~= Seq::<SpanView>::empty());
        assert(text@ =~= "— "@ + mode_name(view@.output_mode) + " — "@ + exit_text(
            app.model(),
        ));
    }
    push_raw(&mut spans, text);
    if view.search.query.as_str().is_empty() {
        push_raw(&mut spans, "".to_owned());
    } else if view.search.matches.len() == 0 {
        push_styled(&mut spans, " [no matches]".to_owned(), Style::plain().fg(Color::Red));
    } else {
        let mut count = " [".to_owned();
        push_decimal(&mut count, view.search.match_idx as u64 + 1);
        count.append("/");
        push_decimal(&mut count, view.search.matches.len() as u64);
        count.append("]");
        push_styled(&mut spans, count, Style::plain().fg(Color::Yellow).bold());
    }
    push_raw(&mut spans, " ".to_owned());
    let r = Line { spans };
    proof {
        assert(r@ =~= output_title_of(app.model()));
    }
    r
}

// ---------------------------------------------------------------------------
// The marks
// ---------------------------------------------------------------------------

/// The marks of the matches from `lo` to `hi`, by line.
pub open spec fn marks_between(s: SearchView, lo: int, hi: int) -> Highlights
    decreases hi - lo,
{
    if hi <= lo {
        Map::empty()
    } else {
        let earlier = marks_between(s, lo, hi - 1);
        let (line, start, end) = s.matches[hi - 1];
        let there = if earlier.contains_key(line) {
            earlier[line]
        } else {
            Seq::empty()
        };
        earlier.insert(line, there.push((start, end, hi - 1 == s.match_idx)))
    }
}

/// The marks of the matches in the lines `[from, to)`.
pub open spec fn marks_in_window(s: SearchView, from: int, to: int) -> Highlights {
    marks_between(s, matches_before(s.matches, from, false), matches_before(s.matches, to, false))
}

fn window_marks(
    matches: &Vec<(usize, usize, usize)>,
    match_idx: usize,
    from: usize,
    to: usize,
    Ghost(s): Ghost<SearchView>,
) -> (r: HashMap<usize, Vec<(usize, usize, bool)>>)
    requires
        s.matches == matches@,
        s.match_idx == match_idx,
        crate::search::sorted_by_line(matches@),
    ensures
        marks_of(r@) == marks_in_window(s, from as int, to as int),
{
    let mut map: HashMap<usize, Vec<(usize, usize, bool)>> = HashMap::new();
    let lo = count_before(matches, from, false);
    let hi = count_before(matches, to, false);
    let mut i: usize = lo;
    proof {
        assert(marks_of(map@) =~= Map::empty());
    }
    while i < hi
        invariant
            lo <= i,
            hi <= matches@.len(),
            i <= hi || i == lo,
            s.matches == matches@,
            s.match_idx == match_idx,
            marks_of(map@) == marks_between(s, lo as int, i as int),
        decreases hi - i,
    {
        let (line, start, end) = matches[i];
        let ghost before = map@;
        let mut there: Vec<(usize, usize, bool)> = match map.remove(&line) {
            Some(v) => v,
            None => Vec::new(),
        };
        let ghost old_marks = there@;
        there.push((start, end, i == match_idx));
        map.insert(line, there);
        proof {
            let earlier = marks_between(s, lo as int, i as int);
            assert(earlier.contains_key(line) <==> before.contains_key(line));
            if earlier.contains_key(line) {
                assert(earlier[line] == before[line]@);
                assert(old_marks =~= earlier[line]);
            } else {
                assert(old_marks =~= Seq::<(usize, usize, bool)>::empty());
            }
            assert(map@ =~= before.insert(line, there));
            assert(marks_of(map@) =~= earlier.insert(line, there@));
        }
        i = i + 1;
    }
    proof {
        if hi < lo {
            assert(marks_between(s, lo as int, hi as int) =~= marks_between(
                s,
                lo as int,
                i as int,
            ));
        }
    }
    map
}

// ---------------------------------------------------------------------------
// The lines
// ---------------------------------------------------------------------------

/// The spans of a line from stderr, in grey where they have no background.
pub open spec fn greyed(spans: Seq<SpanView>) -> Seq<SpanView> {
    Seq::new(
        spans.len(),
        |i: int|
            if spans[i].style.bg is None {
                SpanView { style: spans[i].style.spec_fg(Color::DarkGray), ..spans[i] }
            } else {
                spans[i]
            },
    )
}

/// A line with a margin that tells from which stream it came.
pub open spec fn with_margin(spans: Seq<SpanView>, is_stderr: bool) -> Seq<SpanView> {
    if is_stderr {
        seq![styled(">"@, Style::spec_plain().spec_bg(Color::Yellow).spec_fg(Color::Black))]
            + greyed(spans)
    } else {
        seq![raw(" "@)] + spans
    }
}

/// The lines from number `first` on, each with its margin.
pub open spec fn with_margins(lines: Seq<Seq<SpanView>>, map: Seq<bool>, first: int) -> Seq<
    Seq<SpanView>,
> {
    Seq::new(
        lines.len(),
        |i: int| with_margin(lines[i], first + i < map.len() && map[first + i]),
    )
}

fn add_margin(line: Line, is_stderr: bool) -> (r: Line)
    ensures
        r@ == with_margin(line@, is_stderr),
{
    let mut spans: Vec<Span> = Vec::new();
    proof {
        assert(spans_view(spans@) =~= Seq::<SpanView>::empty());
    }
    if is_stderr {
        push_styled(&mut spans, ">".to_owned(), Style::plain().bg(Color::Yellow).fg(Color::Black));
    } else {
        push_raw(&mut spans, " ".to_owned());
    }
    let ghost margin = spans_view(spans@);
    let ghost rest = with_margin(line@, is_stderr).skip(1);
    proof {
        assert(rest =~= if is_stderr {
            greyed(line@)
        } else {
            line@
        });
        assert(margin =~= with_margin(line@, is_stderr).take(1));
        assert(margin + rest.take(0) =~= margin);
    }
    let mut i: usize = 0;
    while i < line.spans.len()
        invariant
            i <= line.spans@.len(),
            rest == (if is_stderr {
                greyed(line@)
            } else {
                line@
            }),
            spans_view(spans@) == margin + rest.take(i as int),
        decreases line.spans@.len() - i,
    {
        let mut span = line.spans[i].clone();
        if is_stderr {
            match span.style.bg {
                None => {
                    span.style = span.style.fg(Color::DarkGray);
                },
                Some(_) => {},
            }
        }
        proof {
            assert(line@[i as int] == line.spans@[i as int]@);
            assert(rest[i as int] == span@);
            lemma_spans_view_push(spans@, span);
            assert(rest.take(i + 1) =~= rest.take(i as int).push(span@));
            assert((margin + rest.take(i as int)).push(span@) =~= margin + rest.take(i + 1));
        }
        spans.push(span);
        i = i + 1;
    }
    proof {
        assert(rest.take(i as int) =~= rest);
        assert(margin + rest =~= with_margin(line@, is_stderr));
    }
    Line { spans }
}

/// What the output pane shows below its title.
#[derive(Debug)]
pub enum OutputBody {
    /// An error message.
    Error(String),
    /// Nothing, because there are no stages.
    Blank,
    /// That there is no output.
    NoOutput,
    /// Lines of the output, of which `scroll` is the first, and `max_scroll` the
    /// first when the end is in view.
    Lines { lines: Vec<Line>, scroll: usize, max_scroll: usize },
}

/// What an [`OutputBody`] stands for.
#[verifier::ext_equal]
pub enum BodyView {
    Error(Seq<char>),
    Blank,
    NoOutput,
    Lines { lines: Seq<Seq<SpanView>>, scroll: int, max_scroll: int },
}

impl View for OutputBody {
    type V = BodyView;

    open spec fn view(&self) -> BodyView {
        match *self {
            OutputBody::Error(e) => BodyView::Error(e@),
            OutputBody::Blank => BodyView::Blank,
            OutputBody::NoOutput => BodyView::NoOutput,
            OutputBody::Lines { lines, scroll, max_scroll } => BodyView::Lines {
                lines: lines_view(lines@),
                scroll: scroll as int,
                max_scroll: max_scroll as int,
            },
        }
    }
}

/// The state once it is known how much room the output has.
pub open spec fn measured(m: AppModel, width: int, height: int) -> AppModel {
    AppModel {
        visible_lines: if height > 3 {
            height - 2
        } else {
            1
        },
        visible_width: if width > 0 {
            width
        } else {
            1
        },
        ..m
    }
}

/// Whether lines of output are shown.
pub open spec fn shows_lines(m: AppModel) -> bool {
    m.error is None && m.pipeline.stages.len() > 0 && line_count(m) > 0
}

/// The state after the output was laid out in a pane of the given size: if lines
/// are shown, the first one is not beyond the last at which the end is in view.
pub open spec fn laid_out(m: AppModel, width: int, height: int) -> AppModel {
    let n = measured(m, width, height);
    if shows_lines(n) {
        scrolled_to(n, smaller(current_view(n).scroll, max_scroll(n)))
    } else {
        n
    }
}

/// The lines in view, where the pane has room for `rows` of them.
pub open spec fn lines_in_view(m: AppModel, rows: int) -> Seq<Seq<SpanView>> {
    let v = current_view(m);
    let end = capped(v.scroll + rows);
    let lines = visible_lines(
        current_text(m),
        v.scroll,
        end,
        marks_in_window(v.search, v.scroll, end),
        None,
    );
    if v.output_mode == OutputMode::Combined {
        with_margins(lines, stderr_map(m), v.scroll)
    } else {
        lines
    }
}

/// What the pane shows below its title, where it has room for `rows` lines.
pub open spec fn body_of(m: AppModel, rows: int) -> BodyView {
    match m.error {
        Some(e) => BodyView::Error(e),
        None => if m.pipeline.stages.len() == 0 {
            BodyView::Blank
        } else if line_count(m) == 0 {
            BodyView::NoOutput
        } else {
            BodyView::Lines {
                lines: lines_in_view(m, rows),
                scroll: current_view(m).scroll,
                max_scroll: max_scroll(m),
            }
        },
    }
}

/// Number of rows between the borders of a pane.
pub open spec fn inner_rows(height: int) -> int {
    if height > 2 {
        height - 2
    } else {
        0
    }
}

/// Lay out the output in a pane of `width` columns and `height` rows, two of
/// which are borders. Notes how much is visible, keeps the scroll position
/// within the output (when the window resizes, the old position may lie beyond
/// its end), and returns what the pane shows.
pub fn output_body(app: &mut App, width: u16, height: u16) -> (r: OutputBody)
    requires
        old(app).wf(),
    ensures
        final(app).wf(),
        final(app).model() == laid_out(old(app).model(), width as int, height as int),
        r@ == body_of(final(app).model(), inner_rows(height as int)),
{
    let rows: usize = height.saturating_sub(2) as usize;
    app.visible_output_lines = if rows > 1 {
        rows
    } else {
        1
    };
    app.visible_output_width = if width > 0 {
        width as usize
    } else {
        1
    };
    proof {
        assert(app.model() =~= measured(old(app).model(), width as int, height as int));
    }
    match &app.error_message {
        Some(e) => {
            return OutputBody::Error(e.clone());
        },
        None => {},
    }
    if app.pipeline.is_empty() {
        return OutputBody::Blank;
    }
    if app.output_line_count() == 0 {
        return OutputBody::NoOutput;
    }
    let bottom = app.compute_max_scroll();
    let at = app.view().scroll;
    let scroll = if at < bottom {
        at
    } else {
        bottom
    };
    let ghost n = app.model();
    let view = app.view_mut();
    view.scroll = scroll;
    proof {
        lemma_scroll_keeps_rest(n, scroll as int);
    }
    let lines = visible_output(app, rows);
    OutputBody::Lines { lines, scroll, max_scroll: bottom }
}

/// Scrolling changes neither what is shown nor where its end comes into view.
proof fn lemma_scroll_keeps_rest(m: AppModel, line: int)
    requires
        m.pipeline.selected >= 0,
    ensures
        ({
            let n = scrolled_to(m, line);
            &&& current_view(n).output_mode == current_view(m).output_mode
            &&& current_view(n).scroll == line
            &&& current_text(n) == current_text(m)
            &&& line_count(n) == line_count(m)
            &&& max_scroll(n) == max_scroll(m)
            &&& n.error == m.error
            &&& n.pipeline == m.pipeline
        }),
{
}

/// The lines in view.
fn visible_output(app: &App, rows: usize) -> (r: Vec<Line>)
    requires
        app.wf(),
    ensures
        lines_view(r@) == lines_in_view(app.model(), rows as int),
{
    let view = app.view();
    let scroll = view.scroll;
    let end = scroll.saturating_add(rows);
    let marks = window_marks(
        &view.search.matches,
        view.search.match_idx,
        scroll,
        end,
        Ghost(view.search@),
    );
    let text = app.current_output_text();
    let text = crate::app::cow_str(&text);
    let index = app.current_line_index();
    let size = crate::text::byte_count(text);
    proof {
        assert(size <= usize::MAX);
        law_index_shows_same_lines(text@, scroll as int, end as int, marks_of(marks@));
    }
    let lines = ansi_text_to_visible_lines(text, scroll, end - scroll, &marks, index);
    match view.output_mode {
        OutputMode::Combined => {
            let map = app.combined_stderr_map();
            let ghost all = lines_view(lines@);
            let mut out: Vec<Line> = Vec::new();
            let mut i: usize = 0;
            let n: usize = lines.len();
            while i < n
                invariant
                    n == lines@.len(),
                    all == lines_view(lines@),
                    i <= n,
                    map@ == stderr_map(app.model()),
                    out@.len() == i,
                    forall|k: int|
                        0 <= k < i ==> (#[trigger] out@[k])@ == with_margins(
                            all,
                            map@,
                            scroll as int,
                        )[k],
                decreases n - i,
            {
                let is_stderr = scroll < map.len() && i < map.len() - scroll && map[scroll + i];
                let line = lines[i].clone();
                out.push(add_margin(line, is_stderr));
                i = i + 1;
            }
            proof {
                assert(lines_view(out@) =~= with_margins(all, map@, scroll as int));
            }
            out
        },
        _ => lines,
    }
}

// ---------------------------------------------------------------------------
// How far the output is scrolled
// ---------------------------------------------------------------------------

/// The text that tells how far the output is scrolled.
pub open spec fn scroll_hint_text(percent: int) -> Seq<char> {
    " "@ + decimal(smaller(percent, 100) as nat) + "% "@
}

/// The rectangle at the lower right of `inner` for a text of `len` columns, if
/// there is room for it beside the output.
pub open spec fn scroll_hint_area(inner: Area, len: int) -> Option<Area> {
    if inner.width > len + 2 {
        Some(
            Area {
                x: (inner.x + inner.width - len) as u16,
                y: (inner.y + (if inner.height > 0 {
                    inner.height - 1
                } else {
                    0
                })) as u16,
                width: len as u16,
                height: 1,
            },
        )
    } else {
        None
    }
}

/// A hint at the lower right of the output that tells how far it is scrolled,
/// and where it stands, if there is room for it.
pub fn scroll_hint(percent: usize, inner: Area) -> (r: (String, Option<Area>))
    requires
        inner.wf(),
    ensures
        r.0@ == scroll_hint_text(percent as int),
        r.1 == scroll_hint_area(inner, r.0@.len() as int),
{
    let shown: usize = if percent < 100 {
        percent
    } else {
        100
    };
    let mut text = " ".to_owned();
    push_decimal(&mut text, shown as u64);
    text.append("% ");
    let len: usize = chars_of(text.as_str()).len();
    let area = if (inner.width as usize) > 2 && len < (inner.width as usize) - 2 {
        Some(
            Area {
                x: inner.x + (inner.width - len as u16),
                y: inner.y + inner.height.saturating_sub(1),
                width: len as u16,
                height: 1,
            },
        )
    } else {
        None
    };
    (text, area)
}

} // verus!

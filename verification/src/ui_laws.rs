//! What holds of the screen as a whole.
use vstd::prelude::*;

use crate::app_model::AppModel;
use crate::caret::{caret_at, lemma_caret_splits, on_boundary};
use crate::executor::output::OutputMode;
use crate::pipeline::commands_of;
use crate::search::{lemma_matches_before, matches_before, sorted_by_line, SearchView};
use crate::style::{spans_text, SpanView};
use crate::text::{byte_len, char_width, lemma_byte_len_at_least, lemma_byte_len_cons};
use crate::text_tools::{join_texts, padded_right};
use crate::ui::{
    centred, command_text, count_label, cursor_style, cursor_text, first_entry, front_bytes, raw,
    shown_command, stage_connector, stage_mode, styled, Area,
};
use crate::ui_output::{greyed, laid_out, marks_between, marks_in_window, with_margin};

verus! {

/// Commands whose stdout is piped make up the command with ` | ` between them.
pub proof fn law_plain_command_is_joined(m: AppModel)
    requires
        forall|i: int| #[trigger] stage_mode(m, i) == OutputMode::Stdout,
    ensures
        command_text(m, m.pipeline.stages.len() as int) == join_texts(
            commands_of(m.pipeline),
            " | "@,
        ),
{
    let n = m.pipeline.stages.len() as int;
    if n > 0 {
        lemma_command_prefix(m, n - 1);
        let all = commands_of(m.pipeline);
        assert(stage_connector(m, n - 1) =~= Seq::<char>::empty());
        assert(all.drop_last() =~= all.take(n - 1));
        assert(command_text(m, n) =~= join_texts(all, " | "@));
    } else {
        assert(command_text(m, n) =~= Seq::<char>::empty());
    }
}

proof fn lemma_command_prefix(m: AppModel, k: int)
    requires
        0 <= k < m.pipeline.stages.len(),
        forall|i: int| #[trigger] stage_mode(m, i) == OutputMode::Stdout,
    ensures
        command_text(m, k) == (if k == 0 {
            Seq::empty()
        } else {
            join_texts(commands_of(m.pipeline).take(k), " | "@) + " | "@
        }),
    decreases k,
{
    if k > 0 {
        lemma_command_prefix(m, k - 1);
        let all = commands_of(m.pipeline);
        assert(stage_mode(m, k - 1) == OutputMode::Stdout);
        assert(stage_connector(m, k - 1) == " | "@);
        assert(all.take(k).drop_last() =~= all.take(k - 1));
        assert(all.take(k).last() == m.pipeline.stages[k - 1].command);
        if k == 1 {
            assert(join_texts(all.take(k), " | "@) =~= all[0]);
        }
        assert(command_text(m, k) =~= join_texts(all.take(k), " | "@) + " | "@);
    }
}

/// The label of a stage is as wide as the stage below it, so that the labels
/// stand above their stages, as long as the command takes one byte per column
/// and leaves room for the label.
pub proof fn law_labels_stand_above_stages(m: AppModel, i: int)
    requires
        byte_len(shown_command(m, i) + stage_connector(m, i)) == (shown_command(m, i)
            + stage_connector(m, i)).len(),
        count_label(m, i).len() <= (shown_command(m, i) + stage_connector(m, i)).len(),
    ensures
        padded_right(
            count_label(m, i),
            byte_len(shown_command(m, i) + stage_connector(m, i)) as int,
        ).len() == (shown_command(m, i) + stage_connector(m, i)).len(),
{
}

/// A text with its cursor is the text, with a space behind it if the cursor is
/// at its end.
pub proof fn law_cursor_shows_text(content: Seq<char>, cursor: int)
    requires
        on_boundary(content, cursor),
    ensures
        spans_text(cursor_text(content, cursor)) == (if caret_at(content, cursor).after.len()
            > 0 {
            content
        } else {
            content + " "@
        }),
{
    lemma_caret_splits(content, cursor);
    let c = caret_at(content, cursor);
    let spans = cursor_text(content, cursor);
    reveal_with_fuel(spans_text, 4);
    if c.after.len() > 0 {
        assert(spans.drop_last() =~= seq![raw(c.before), styled(seq![c.after[0]], cursor_style())]);
        assert(spans.drop_last().drop_last() =~= seq![raw(c.before)]);
        assert(spans.drop_last().drop_last().drop_last() =~= Seq::<SpanView>::empty());
        assert(spans_text(spans) =~= content);
    } else {
        assert(spans.drop_last() =~= seq![raw(content)]);
        assert(spans.drop_last().drop_last() =~= Seq::<SpanView>::empty());
        assert(spans_text(spans) =~= content + " "@);
    }
}

/// A dialog that fits on the screen lies on it, with the same room on both sides
/// or one row or column less in front.
pub proof fn law_dialog_is_centred(area: Area, width: int, height: int)
    requires
        area.wf(),
        0 <= width <= area.width,
        0 <= height <= area.height,
    ensures
        ({
            let d = centred(area, width, height);
            let left = d.x - area.x;
            let right = area.x + area.width - (d.x + width);
            let above = d.y - area.y;
            let below = area.y + area.height - (d.y + height);
            &&& 0 <= left <= right <= left + 1
            &&& 0 <= above <= below <= above + 1
            &&& d.width == width
            &&& d.height == height
        }),
{
}

/// The selected entry of the history is among those that are shown.
pub proof fn law_selected_entry_is_shown(selected: int, rows: int)
    requires
        selected >= 0,
        rows > 0,
    ensures
        0 <= first_entry(selected, rows) <= selected < first_entry(selected, rows) + rows,
{
}

/// What is kept of a label that is cut off is its front, of at most as many
/// bytes as there is room for.
pub proof fn law_cut_label_fits(s: Seq<char>, n: int)
    requires
        n >= 0,
    ensures
        byte_len(front_bytes(s, n)) <= n,
        front_bytes(s, n).len() <= s.len(),
        front_bytes(s, n) == s.take(front_bytes(s, n).len() as int),
    decreases s.len(),
{
    let f = front_bytes(s, n);
    if s.len() == 0 || char_width(s[0]) > n {
        lemma_byte_len_at_least(f);
        assert(s.take(0) =~= f);
        assert(vstd::utf8::encode_utf8(f).len() == 0);
    } else {
        let t = s.drop_first();
        law_cut_label_fits(t, n - char_width(s[0]));
        let g = front_bytes(t, n - char_width(s[0]));
        lemma_byte_len_cons(s[0], g);
        assert(f =~= seq![s[0]] + g);
        assert(s.take(f.len() as int) =~= seq![s[0]] + t.take(g.len() as int));
    }
}

proof fn lemma_spans_text_first(first: SpanView, rest: Seq<SpanView>)
    ensures
        spans_text(seq![first] + rest) == first.content + spans_text(rest),
    decreases rest.len(),
{
    let all = seq![first] + rest;
    if rest.len() == 0 {
        assert(all.drop_last() =~= Seq::<SpanView>::empty());
        reveal_with_fuel(spans_text, 2);
        assert(spans_text(all) =~= first.content + spans_text(rest));
    } else {
        assert(all.drop_last() =~= seq![first] + rest.drop_last());
        lemma_spans_text_first(first, rest.drop_last());
        assert(spans_text(all) =~= first.content + spans_text(rest));
    }
}

proof fn lemma_greyed_text(spans: Seq<SpanView>)
    ensures
        spans_text(greyed(spans)) == spans_text(spans),
    decreases spans.len(),
{
    if spans.len() > 0 {
        assert(greyed(spans).drop_last() =~= greyed(spans.drop_last()));
        lemma_greyed_text(spans.drop_last());
    }
}

/// The margin changes nothing of the text behind it.
pub proof fn law_margin_keeps_text(spans: Seq<SpanView>, is_stderr: bool)
    ensures
        spans_text(with_margin(spans, is_stderr)) == (if is_stderr {
            ">"@
        } else {
            " "@
        }) + spans_text(spans),
{
    lemma_greyed_text(spans);
    if is_stderr {
        lemma_spans_text_first(with_margin(spans, true)[0], greyed(spans));
    } else {
        lemma_spans_text_first(raw(" "@), spans);
    }
}

/// Laying out the output once more in a pane of the same size changes nothing.
pub proof fn law_layout_is_stable(m: AppModel, width: int, height: int)
    requires
        m.pipeline.wf(),
    ensures
        laid_out(laid_out(m, width, height), width, height) == laid_out(m, width, height),
{
    let a = laid_out(m, width, height);
    let b = laid_out(a, width, height);
    assert(b.views =~= a.views);
    assert(b =~= a);
}

proof fn lemma_marks_between(s: SearchView, lo: int, hi: int, k: int)
    requires
        0 <= lo <= k < hi <= s.matches.len(),
    ensures
        marks_between(s, lo, hi).contains_key(s.matches[k].0),
        marks_between(s, lo, hi)[s.matches[k].0].contains(
            (s.matches[k].1, s.matches[k].2, k == s.match_idx),
        ),
    decreases hi - lo,
{
    let line = s.matches[k].0;
    let mark = (s.matches[k].1, s.matches[k].2, k == s.match_idx);
    let marks = marks_between(s, lo, hi);
    if k == hi - 1 {
        let there = marks[line];
        assert(there[there.len() - 1] == mark);
    } else {
        lemma_marks_between(s, lo, hi - 1, k);
        let earlier = marks_between(s, lo, hi - 1);
        let i = earlier[line].index_of(mark);
        if s.matches[hi - 1].0 == line {
            assert(marks[line][i] == mark);
        }
    }
}

/// Every match in a line that is in view is marked there, the highlighted one as
/// such.
pub proof fn law_matches_in_view_are_marked(s: SearchView, from: int, to: int, k: int)
    requires
        sorted_by_line(s.matches),
        0 <= k < s.matches.len(),
        from <= s.matches[k].0 < to,
    ensures
        marks_in_window(s, from, to).contains_key(s.matches[k].0),
        marks_in_window(s, from, to)[s.matches[k].0].contains(
            (s.matches[k].1, s.matches[k].2, k == s.match_idx),
        ),
{
    lemma_matches_before(s.matches, from, false);
    lemma_matches_before(s.matches, to, false);
    lemma_marks_between(
        s,
        matches_before(s.matches, from, false),
        matches_before(s.matches, to, false),
        k,
    );
}

} // verus!

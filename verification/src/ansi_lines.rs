//! Turning output text into styled lines: the whole text, or the window of it
//! that is visible.
use std::collections::HashMap;

use vstd::prelude::*;

use crate::ansi::{
    apply_sgr, apply_sgr_sequence, default_state, highlight_kind, highlight_kind_for_range,
    highlighted_style, marks_of, next_token, skip_token, style_with_highlight, text_from, tok_view,
    token,    AnsiLineIndex, AnsiStyleState, HighlightKind, IndexView, Tok, Token,
};
use crate::style::{lines_view, spans_view, Line, Span, SpanView};
use crate::text::{byte_count, byte_len, char_width, chars_from};

verus! {

broadcast use {vstd::std_specs::hash::group_hash_axioms, vstd::utf8::group_utf8_lib};

/// Marked ranges per line: start column, end column (both in bytes of the
/// text without control sequences), and whether the match is the selected one.
pub type Highlights = Map<usize, Seq<(usize, usize, bool)>>;

/// Where a text is while it is turned into lines.
#[verifier::ext_equal]
pub struct ParseState {
    /// Number of the line being read.
    pub line: int,
    /// Bytes of the line's own text read so far.
    pub col: int,
    /// State that the control sequences have left.
    pub style: AnsiStyleState,
    /// Text of the span being built.
    pub segment: Seq<char>,
    /// State and mark of the span being built.
    pub key: Option<(AnsiStyleState, HighlightKind)>,
    /// Finished spans of the line being read.
    pub spans: Seq<SpanView>,
    /// Finished lines.
    pub lines: Seq<Seq<SpanView>>,
}

/// The state at the start of a line.
pub open spec fn line_start(style: AnsiStyleState, line: int) -> ParseState {
    ParseState {
        line,
        col: 0,
        style,
        segment: Seq::empty(),
        key: None,
        spans: Seq::empty(),
        lines: Seq::empty(),
    }
}

/// The span being built is finished, unless it is empty.
pub open spec fn flush(p: ParseState) -> ParseState {
    match p.key {
        Some((style, mark)) => if p.segment.len() == 0 {
            p
        } else {
            ParseState {
                segment: Seq::empty(),
                spans: p.spans.push(
                    SpanView { content: p.segment, style: highlighted_style(style, mark) },
                ),
                ..p
            }
        },
        None => p,
    }
}

/// Reading one token: a style sequence ends the current span, a newline ends
/// the current line, and a character joins the current span if it has the same
/// state and mark, or starts the next one.
pub open spec fn step(p: ParseState, t: Token, h: Highlights) -> ParseState {
    match t {
        Token::Sgr(params) => ParseState {
            style: apply_sgr(params, p.style),
            key: None,
            ..flush(p)
        },
        Token::Control => p,
        Token::Text(c) => if c == '\n' {
            ParseState {
                line: p.line + 1,
                col: 0,
                key: None,
                spans: Seq::empty(),
                lines: p.lines.push(flush(p).spans),
                ..flush(p)
            }
        } else {
            let end = p.col + char_width(c);
            let key = (p.style, highlight_kind(h, p.line, p.col, end));
            let q = if p.key == Some(key) {
                p
            } else {
                flush(p)
            };
            ParseState { col: end, key: Some(key), segment: q.segment.push(c), ..q }
        },
    }
}

/// Reading a text until it ends or line `end` is reached.
pub open spec fn parse(p: ParseState, s: Seq<char>, end: int, h: Highlights) -> ParseState
    decreases s.len(),
{
    if s.len() == 0 || p.line >= end {
        p
    } else {
        parse(step(p, token(s), h), skip_token(s), end, h)
    }
}

/// The lines of the window `[start, end)`. The last line counts when it has any
/// text, or when the text ends in a newline.
pub open spec fn window_lines(p: ParseState, start: int, end: int, newline_last: bool) -> Seq<
    Seq<SpanView>,
> {
    if start <= p.line < end && (flush(p).spans.len() > 0 || newline_last) {
        p.lines.push(flush(p).spans)
    } else {
        p.lines
    }
}

/// Reading on until line `target`: what is left, the state there, and the
/// number of the line reached.
pub open spec fn seek(s: Seq<char>, style: AnsiStyleState, line: int, target: int) -> (
    Seq<char>,
    AnsiStyleState,
    int,
)
    decreases s.len(),
{
    if s.len() == 0 || line >= target {
        (s, style, line)
    } else {
        let rest = skip_token(s);
        match token(s) {
            Token::Sgr(p) => seek(rest, apply_sgr(p, style), line, target),
            Token::Control => seek(rest, style, line, target),
            Token::Text(c) => seek(
                rest,
                style,
                if c == '\n' {
                    line + 1
                } else {
                    line
                },
                target,
            ),
        }
    }
}

/// Where the window starts: the place that the index gives, when it knows the
/// line, else the place that reading from the top leads to.
pub open spec fn window_start(text: Seq<char>, start: int, index: Option<IndexView>) -> (
    Seq<char>,
    AnsiStyleState,
    int,
) {
    match index {
        Some(m) => if start < m.offsets.len() {
            (chars_from(text, m.offsets[start] as int), m.styles[start], start)
        } else {
            seek(text, default_state(), 0, start)
        },
        None => seek(text, default_state(), 0, start),
    }
}

/// Whether a text ends in a newline.
pub open spec fn ends_in_newline(text: Seq<char>) -> bool {
    text.len() > 0 && text.last() == '\n'
}

/// The lines `[start, end)` of `text`.
pub open spec fn visible_lines(
    text: Seq<char>,
    start: int,
    end: int,
    h: Highlights,
    index: Option<IndexView>,
) -> Seq<Seq<SpanView>> {
    let (rest, style, line) = window_start(text, start, index);
    window_lines(parse(line_start(style, line), rest, end, h), start, end, ends_in_newline(text))
}

/// Number of lines that a text is turned into.
pub open spec fn shown_lines_of(text: Seq<char>) -> int {
    visible_lines(text, 0, usize::MAX as int, Map::empty(), None).len() as int
}

/// Number of lines that [`ansi_text_to_lines`] turns `text` into.
pub fn shown_line_count(text: &str) -> (r: usize)
    ensures
        r == shown_lines_of(text@),
{
    let ghost end = usize::MAX as int;
    let ghost none: Highlights = Map::empty();
    let ghost mut p = line_start(default_state(), 0);
    let ghost goal = parse(p, text@, end, none);
    let mut rest: &str = text;
    let mut finished: usize = 0;
    // whether the line being read has any text
    let mut begun = false;
    proof {
        assert(seek(text@, default_state(), 0, 0) == (text@, default_state(), 0int));
    }
    loop
        invariant
            end == usize::MAX,
            none == Map::<usize, Seq<(usize, usize, bool)>>::empty(),
            parse(p, rest@, end, none) == goal,
            p.line == finished,
            p.lines.len() == finished,
            p.segment.len() > 0 ==> p.key is Some,
            begun == (flush(p).spans.len() > 0),
        ensures
            p == goal,
            p.line == finished,
            p.lines.len() == finished,
            begun == (flush(p).spans.len() > 0),
        decreases rest@.len(),
    {
        if finished == usize::MAX {
            break;
        }
        match next_token(rest) {
            None => {
                break;
            },
            Some((t, after)) => {
                proof {
                    p = step(p, tok_view(t), none);
                }
                match t {
                    Tok::Text(c) => if c == '\n' {
                        finished = finished + 1;
                        begun = false;
                    } else {
                        begun = true;
                    },
                    _ => {},
                }
                rest = after;
            },
        }
    }
    if finished < usize::MAX && (begun || ends_with_newline(text)) {
        finished + 1
    } else {
        finished
    }
}

/// What an optional index stands for.
pub open spec fn opt_index(index: Option<&AnsiLineIndex>) -> Option<IndexView> {
    match index {
        Some(i) => Some(i@),
        None => None,
    }
}

/// The place that an index gives for a line, if it knows the line, is where a
/// character of the text starts, or is past the text.
pub open spec fn index_fits(text: Seq<char>, start: int, index: Option<IndexView>) -> bool {
    index matches Some(m) ==> m.offsets.len() == m.styles.len() && (start < m.offsets.len()
        && m.offsets[start] < byte_len(text) ==> vstd::utf8::is_char_boundary(
        vstd::utf8::encode_utf8(text),
        m.offsets[start] as int,
    ))
}

/// Move the text of the current span, if any, onto `spans`.
fn flush_segment(
    segment: &mut String,
    key: Option<(AnsiStyleState, HighlightKind)>,
    spans: &mut Vec<Span>,
)
    requires
        old(segment)@.len() > 0 ==> key is Some,
    ensures
        final(segment)@ == Seq::<char>::empty(),
        (match key {
            Some((style, mark)) => if old(segment)@.len() == 0 {
                spans_view(final(spans)@) == spans_view(old(spans)@)
            } else {
                spans_view(final(spans)@) == spans_view(old(spans)@).push(
                    SpanView { content: old(segment)@, style: highlighted_style(style, mark) },
                )
            },
            None => spans_view(final(spans)@) == spans_view(old(spans)@),
        }),
{
    if segment.as_str().is_empty() {
        proof {
            assert(segment@ =~= Seq::<char>::empty());
        }
        return;
    }
    if let Some((style, mark)) = key {
        let mut text = String::new();
        std::mem::swap(&mut text, segment);
        let ghost before = spans@;
        let span = Span::styled(text, style_with_highlight(style, mark));
        proof {
            crate::style::lemma_spans_view_push(before, span);
        }
        spans.push(span);
    }
}

/// Whether a text ends in a newline.
pub(crate) fn ends_with_newline(text: &str) -> (r: bool)
    ensures
        r == ends_in_newline(text@),
{
    let bytes = text.as_bytes();
    proof {
        crate::text::lemma_byte_len_at_least(text@);
        if text@.len() > 0 {
            lemma_last_byte(text@);
        }
    }
    bytes.len() > 0 && bytes[bytes.len() - 1] == 0x0a
}

/// The last byte of a text is a newline exactly when its last character is.
pub proof fn lemma_last_byte(s: Seq<char>)
    requires
        s.len() > 0,
    ensures
        byte_len(s) > 0,
        vstd::utf8::encode_utf8(s).last() == 0x0a <==> s.last() == '\n',
{
    let c = s.last();
    assert(s =~= s.drop_last() + seq![c]);
    crate::text::lemma_encode_concat(s.drop_last(), seq![c]);
    crate::text::lemma_byte_len_one(c);
    crate::text::lemma_char_width(c);
    let bytes = vstd::utf8::encode_scalar(c as u32);
    assert(vstd::utf8::encode_utf8(s).last() == bytes.last());
    vstd::utf8::encode_utf8_first_scalar(seq![c]);
    lemma_scalar_last_byte(c);
}

proof fn lemma_scalar_last_byte(c: char)
    ensures
        vstd::utf8::encode_scalar(c as u32).last() == 0x0a <==> c == '\n',
{
    crate::text::lemma_scalar_bytes(c);
    crate::text::lemma_char_width(c);
}

/// Parse only the visible window `[start_line, start_line + max_lines)` from
/// ANSI-escaped text.
///
/// Lines before the window are skipped without building anything: by a jump
/// when `line_index` knows the line, else by a scan that keeps only the style
/// state.
pub fn ansi_text_to_visible_lines(
    text: &str,
    start_line: usize,
    max_lines: usize,
    highlights: &HashMap<usize, Vec<(usize, usize, bool)>>,
    line_index: Option<&AnsiLineIndex>,
) -> (r: Vec<Line>)
    requires
        start_line + max_lines <= usize::MAX,
        index_fits(text@, start_line as int, opt_index(line_index)),
    ensures
        lines_view(r@) == visible_lines(
            text@,
            start_line as int,
            start_line + max_lines,
            marks_of(highlights@),
            opt_index(line_index),
        ),
{
    let end_line = start_line + max_lines;
    let total = byte_count(text);
    let mut rest: &str = text;
    let mut style = AnsiStyleState::default();
    let mut line_idx: usize = 0;
    let mut indexed = false;
    if let Some(index) = line_index {
        if start_line < index.offsets.len() {
            rest = text_from(text, index.offsets[start_line]);
            style = index.styles[start_line];
            line_idx = start_line;
            indexed = true;
        }
    }
    if !indexed {
        loop
            invariant
                seek(rest@, style, line_idx as int, start_line as int) == seek(
                    text@,
                    default_state(),
                    0,
                    start_line as int,
                ),
            ensures
                seek(text@, default_state(), 0, start_line as int) == (
                    rest@,
                    style,
                    line_idx as int,
                ),
            decreases rest@.len(),
        {
            if line_idx >= start_line {
                break;
            }
            match next_token(rest) {
                None => {
                    break;
                },
                Some((tok, tail)) => {
                    match tok {
                        Tok::Sgr(params) => {
                            apply_sgr_sequence(params, &mut style);
                        },
                        Tok::Control => {},
                        Tok::Text(c) => {
                            if c == '\n' {
                                line_idx = line_idx + 1;
                            }
                        },
                    }
                    rest = tail;
                },
            }
        }
    }
    let ghost begin = window_start(text@, start_line as int, opt_index(line_index));
    let ghost goal = parse(
        line_start(begin.1, begin.2),
        begin.0,
        end_line as int,
        marks_of(highlights@),
    );
    proof {
        assert(begin == (rest@, style, line_idx as int));
        lemma_window_start_shorter(text@, start_line as int, opt_index(line_index));
    }
    let mut lines: Vec<Line> = Vec::new();
    let mut spans: Vec<Span> = Vec::new();
    let mut segment = String::new();
    let mut col: usize = 0;
    let mut key: Option<(AnsiStyleState, HighlightKind)> = None;
    let ghost mut p = line_start(style, line_idx as int);
    proof {
        assert(lines_view(lines@) =~= Seq::<Seq<SpanView>>::empty());
        assert(spans_view(spans@) =~= Seq::<SpanView>::empty());
    }
    loop
        invariant
            total == byte_len(text@),
            col + byte_len(rest@) <= total,
            segment@.len() > 0 ==> key is Some,
            p == (ParseState {
                line: line_idx as int,
                col: col as int,
                style,
                segment: segment@,
                key,
                spans: spans_view(spans@),
                lines: lines_view(lines@),
            }),
            parse(p, rest@, end_line as int, marks_of(highlights@)) == goal,
        ensures
            p == goal,
        decreases rest@.len(),
    {
        if line_idx >= end_line {
            break;
        }
        match next_token(rest) {
            None => {
                break;
            },
            Some((tok, tail)) => {
                proof {
                    crate::ansi::lemma_skip_token_bytes(rest@);
                }
                let ghost q = step(p, token(rest@), marks_of(highlights@));
                match tok {
                    Tok::Sgr(params) => {
                        flush_segment(&mut segment, key, &mut spans);
                        key = None;
                        apply_sgr_sequence(params, &mut style);
                    },
                    Tok::Control => {},
                    Tok::Text(c) => {
                        if c == '\n' {
                            flush_segment(&mut segment, key, &mut spans);
                            let mut done: Vec<Span> = Vec::new();
                            std::mem::swap(&mut done, &mut spans);
                            let line = Line { spans: done };
                            proof {
                                crate::style::lemma_lines_view_push(lines@, line);
                                assert(spans_view(spans@) =~= Seq::<SpanView>::empty());
                            }
                            lines.push(line);
                            key = None;
                            col = 0;
                            line_idx = line_idx + 1;
                        } else {
                            proof {
                                lemma_text_token_bytes(rest@);
                            }
                            let end = col + c.len_utf8();
                            let mark = highlight_kind_for_range(highlights, line_idx, col, end);
                            let same = match key {
                                Some((s, m)) => same_state(s, style) && m == mark,
                                None => false,
                            };
                            if !same {
                                flush_segment(&mut segment, key, &mut spans);
                                key = Some((style, mark));
                            }
                            segment.push(c);
                            col = end;
                        }
                    },
                }
                rest = tail;
                proof {
                    p = q;
                }
            },
        }
    }
    if line_idx >= start_line && line_idx < end_line {
        flush_segment(&mut segment, key, &mut spans);
        if spans.len() > 0 || ends_with_newline(text) {
            let line = Line { spans };
            proof {
                crate::style::lemma_lines_view_push(lines@, line);
            }
            lines.push(line);
        }
    }
    lines
}

fn same_state(a: AnsiStyleState, b: AnsiStyleState) -> (r: bool)
    ensures
        r == (a == b),
{
    let fg = match (a.fg, b.fg) {
        (Some(x), Some(y)) => x == y,
        (None, None) => true,
        _ => false,
    };
    let bg = match (a.bg, b.bg) {
        (Some(x), Some(y)) => x == y,
        (None, None) => true,
        _ => false,
    };
    fg && bg && a.bold == b.bold
}

/// A character of the text takes its own width of bytes.
proof fn lemma_text_token_bytes(s: Seq<char>)
    requires
        s.len() > 0,
        token(s) is Text,
    ensures
        byte_len(s) == char_width(s[0]) + byte_len(skip_token(s)),
{
    assert(s =~= seq![s[0]] + s.drop_first());
    crate::text::lemma_byte_len_cons(s[0], s.drop_first());
}

proof fn lemma_seek_shorter(s: Seq<char>, style: AnsiStyleState, line: int, target: int)
    ensures
        byte_len(seek(s, style, line, target).0) <= byte_len(s),
    decreases s.len(),
{
    if s.len() > 0 && line < target {
        crate::ansi::lemma_skip_token_bytes(s);
        let rest = skip_token(s);
        match token(s) {
            Token::Sgr(p) => {
                lemma_seek_shorter(rest, apply_sgr(p, style), line, target);
            },
            Token::Control => {
                lemma_seek_shorter(rest, style, line, target);
            },
            Token::Text(c) => {
                lemma_seek_shorter(
                    rest,
                    style,
                    if c == '\n' {
                        line + 1
                    } else {
                        line
                    },
                    target,
                );
            },
        }
    }
}

proof fn lemma_window_start_shorter(text: Seq<char>, start: int, index: Option<IndexView>)
    requires
        start >= 0,
    ensures
        byte_len(window_start(text, start, index).0) <= byte_len(text),
{
    lemma_seek_shorter(text, default_state(), 0, start);
    if let Some(m) = index {
        if start < m.offsets.len() {
            crate::ansi::lemma_chars_from_shorter(text, m.offsets[start] as int);
        }
    }
}

/// Parse a whole ANSI-escaped text into lines, with search matches marked.
pub fn ansi_text_to_lines_with_highlights(
    text: &str,
    highlights: &HashMap<usize, Vec<(usize, usize, bool)>>,
) -> (r: Vec<Line>)
    ensures
        lines_view(r@) == visible_lines(text@, 0, usize::MAX as int, marks_of(highlights@), None),
{
    ansi_text_to_visible_lines(text, 0, usize::MAX, highlights, None)
}

/// Parse a whole ANSI-escaped text into lines.
pub fn ansi_text_to_lines(text: &str) -> (r: Vec<Line>)
    ensures
        lines_view(r@) == visible_lines(text@, 0, usize::MAX as int, Map::empty(), None),
{
    let none: HashMap<usize, Vec<(usize, usize, bool)>> = HashMap::new();
    proof {
        assert(marks_of(none@) =~= Map::empty());
    }
    ansi_text_to_lines_with_highlights(text, &none)
}

} // verus!

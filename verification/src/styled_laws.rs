//! What is shown of a text with control sequences in it.
use vstd::prelude::*;

use crate::ansi::{
    apply_sgr, default_state, highlight_kind, highlighted_style, is_letter, lemma_final_byte_at,
    lemma_letter_at, overlaps, skip_token, strip, strip_bytes, token, AnsiStyleState, HighlightKind,
    Token,
};
use crate::ansi_lines::{
    flush, line_start, parse, seek, step, visible_lines, Highlights, ParseState,
};
use crate::style::{Color, SpanView, Style};
use crate::text::{byte_len, lemma_byte_len_cons};

verus! {

/// Text in which nothing but the characters themselves is to be shown.
pub open spec fn is_one_line(s: Seq<char>) -> bool {
    forall|i: int| 0 <= i < s.len() ==> #[trigger] s[i] != '\u{1b}' && s[i] != '\n'
}

/// Parameters of a control sequence: anything but ASCII letters.
pub open spec fn are_params(p: Seq<char>) -> bool {
    forall|i: int|
        0 <= i < p.len() ==> !('a' <= #[trigger] p[i] <= 'z') && !('A' <= p[i] <= 'Z')
}

/// The control sequence with the given parameters and final letter.
pub open spec fn sequence(p: Seq<char>, letter: char) -> Seq<char> {
    seq!['\u{1b}', '['] + p + seq![letter]
}

proof fn lemma_sequence_token(p: Seq<char>, letter: char, rest: Seq<char>)
    requires
        are_params(p),
        'a' <= letter <= 'z' || 'A' <= letter <= 'Z',
    ensures
        ({
            let s = sequence(p, letter) + rest;
            &&& s.len() > 0
            &&& skip_token(s) == rest
            &&& token(s) == (if letter == 'm' {
                Token::Sgr(p)
            } else {
                Token::Control
            })
        }),
{
    let s = sequence(p, letter) + rest;
    let k = 2 + p.len() as int;
    assert forall|i: int| 2 <= i < k implies !is_letter(#[trigger] s[i]) by {
        assert(s[i] == p[i - 2]);
    }
    assert(s[k] == letter);
    lemma_letter_at(s, 2, k);
    assert(s.skip(k + 1) =~= rest);
    assert(s.subrange(2, k) =~= p);
}

/// A control sequence is removed, whatever its parameters and its letter are,
/// and text is kept.
pub proof fn law_sequences_are_removed(a: Seq<char>, p: Seq<char>, letter: char, b: Seq<char>)
    requires
        !a.contains('\u{1b}'),
        are_params(p),
        'a' <= letter <= 'z' || 'A' <= letter <= 'Z',
    ensures
        strip(a + (sequence(p, letter) + b)) == a + strip(b),
    decreases a.len(),
{
    let s = a + (sequence(p, letter) + b);
    if a.len() == 0 {
        assert(s =~= sequence(p, letter) + b);
        lemma_sequence_token(p, letter, b);
        assert(a + strip(b) =~= strip(b));
    } else {
        let t = a.drop_first();
        assert(a.contains(a[0]));
        assert forall|c: char| t.contains(c) implies a.contains(c) by {
            let i = t.index_of(c);
            assert(a[i + 1] == c);
        }
        law_sequences_are_removed(t, p, letter, b);
        assert(s[0] == a[0]);
        assert(s.drop_first() =~= t + (sequence(p, letter) + b));
        assert(seq![a[0]] + (t + strip(b)) =~= a + strip(b));
    }
}

/// A sequence that is not finished is text, and so is an escape character that
/// starts none.
pub proof fn law_unfinished_sequences_are_text(a: Seq<char>, p: Seq<char>, c: char, b: Seq<char>)
    requires
        !a.contains('\u{1b}'),
        are_params(p),
        c != '[',
    ensures
        strip(a + p) == a + p,
        strip(a + seq!['\u{1b}'] + p) == a + seq!['\u{1b}'] + p,
        strip(a + seq!['\u{1b}', '['] + p) == a + seq!['\u{1b}', '['] + p,
        strip(a + (seq!['\u{1b}'] + (seq![c] + b))) == a + (seq!['\u{1b}'] + strip(seq![c] + b)),
{
    lemma_strip_front(a, p);
    lemma_strip_without_letters(p);
    let e = seq!['\u{1b}'] + p;
    lemma_strip_without_letters(e);
    lemma_strip_front(a, e);
    assert(a + seq!['\u{1b}'] + p =~= a + e);
    let f = seq!['\u{1b}', '['] + p;
    lemma_strip_without_letters(f);
    lemma_strip_front(a, f);
    assert(a + seq!['\u{1b}', '['] + p =~= a + f);
    let g = seq!['\u{1b}'] + (seq![c] + b);
    lemma_strip_front(a, g);
    assert(g[1] == c);
    assert(g.drop_first() =~= seq![c] + b);
}

proof fn lemma_strip_without_letters(s: Seq<char>)
    requires
        are_params(s),
    ensures
        strip(s) == s,
    decreases s.len(),
{
    if s.len() > 0 {
        let t = s.drop_first();
        assert forall|i: int| 0 <= i < t.len() implies !('a' <= #[trigger] t[i] <= 'z') && !('A'
            <= t[i] <= 'Z') by {
            assert(t[i] == s[i + 1]);
        }
        lemma_strip_without_letters(t);
        if s.len() >= 2 {
            assert forall|i: int| 2 <= i < s.len() implies !is_letter(#[trigger] s[i]) by {
                assert(!('a' <= s[i] <= 'z'));
            }
            lemma_letter_at(s, 2, s.len() as int);
        }
        assert(seq![s[0]] + t =~= s);
    }
}

proof fn lemma_strip_front(a: Seq<char>, b: Seq<char>)
    requires
        !a.contains('\u{1b}'),
    ensures
        strip(a + b) == a + strip(b),
    decreases a.len(),
{
    if a.len() == 0 {
        assert(a + b =~= b);
        assert(a + strip(b) =~= strip(b));
    } else {
        let t = a.drop_first();
        assert(a.contains(a[0]));
        assert forall|c: char| t.contains(c) implies a.contains(c) by {
            let i = t.index_of(c);
            assert(a[i + 1] == c);
        }
        lemma_strip_front(t, b);
        assert((a + b)[0] == a[0]);
        assert((a + b).drop_first() =~= t + b);
        assert(seq![a[0]] + (t + strip(b)) =~= a + strip(b));
    }
}

/// The same for bytes, where a sequence ends in any byte from `@` to `~`.
pub proof fn law_unfinished_byte_sequences_stay(a: Seq<u8>, p: Seq<u8>, c: u8, b: Seq<u8>)
    requires
        !a.contains(0x1b),
        forall|i: int| 0 <= i < p.len() ==> !(0x40 <= #[trigger] p[i] <= 0x7e),
        c != 0x5b,
    ensures
        strip_bytes(a + (seq![0x1bu8, 0x5bu8] + p)) == a + (seq![0x1bu8, 0x5bu8] + p),
        strip_bytes(a + (seq![0x1bu8] + (seq![c] + b))) == a + (seq![0x1bu8] + strip_bytes(
            seq![c] + b,
        )),
{
    let f = seq![0x1bu8, 0x5bu8] + p;
    assert forall|i: int| 2 <= i < f.len() implies !(0x40 <= #[trigger] f[i] <= 0x7e) by {
        assert(f[i] == p[i - 2]);
    }
    lemma_final_byte_at(f, 2, f.len() as int);
    let g = f.drop_first();
    assert(g =~= seq![0x5bu8] + p);
    assert(g.drop_first() =~= p);
    lemma_strip_bytes_without_final(p);
    assert(strip_bytes(g) =~= g);
    assert(strip_bytes(f) =~= f);
    lemma_strip_bytes_front(a, f);
    let h = seq![0x1bu8] + (seq![c] + b);
    assert(h[1] == c);
    assert(h.drop_first() =~= seq![c] + b);
    lemma_strip_bytes_front(a, h);
}

proof fn lemma_strip_bytes_without_final(p: Seq<u8>)
    requires
        forall|i: int| 0 <= i < p.len() ==> !(0x40 <= #[trigger] p[i] <= 0x7e),
    ensures
        strip_bytes(p) == p,
    decreases p.len(),
{
    if p.len() > 0 {
        let t = p.drop_first();
        assert forall|i: int| 0 <= i < t.len() implies !(0x40 <= #[trigger] t[i] <= 0x7e) by {
            assert(t[i] == p[i + 1]);
        }
        lemma_strip_bytes_without_final(t);
        if p.len() >= 2 {
            assert(!(0x40 <= p[1] <= 0x7e));
        }
        assert(seq![p[0]] + t =~= p);
    }
}

proof fn lemma_strip_bytes_front(a: Seq<u8>, b: Seq<u8>)
    requires
        !a.contains(0x1b),
    ensures
        strip_bytes(a + b) == a + strip_bytes(b),
    decreases a.len(),
{
    if a.len() == 0 {
        assert(a + b =~= b);
        assert(a + strip_bytes(b) =~= strip_bytes(b));
    } else {
        let t = a.drop_first();
        assert(a.contains(a[0]));
        assert forall|c: u8| t.contains(c) implies a.contains(c) by {
            let i = t.index_of(c);
            assert(a[i + 1] == c);
        }
        lemma_strip_bytes_front(t, b);
        assert((a + b)[0] == a[0]);
        assert((a + b).drop_first() =~= t + b);
        assert(seq![a[0]] + (t + strip_bytes(b)) =~= a + strip_bytes(b));
    }
}

/// The same for bytes: a sequence goes from `ESC [` to the first byte from `@`
/// to `~`.
pub proof fn law_byte_sequences_are_removed(a: Seq<u8>, p: Seq<u8>, last: u8, b: Seq<u8>)
    requires
        !a.contains(0x1b),
        forall|i: int| 0 <= i < p.len() ==> !(0x40 <= #[trigger] p[i] <= 0x7e),
        0x40 <= last <= 0x7e,
    ensures
        strip_bytes(a + (seq![0x1bu8, 0x5bu8] + p + seq![last] + b)) == a + strip_bytes(b),
    decreases a.len(),
{
    let q = seq![0x1bu8, 0x5bu8] + p + seq![last] + b;
    let s = a + q;
    if a.len() == 0 {
        assert(s =~= q);
        let k = 2 + p.len() as int;
        assert forall|i: int| 2 <= i < k implies !(0x40 <= #[trigger] q[i] <= 0x7e) by {
            assert(q[i] == p[i - 2]);
        }
        assert(q[k] == last);
        lemma_final_byte_at(q, 2, k);
        assert(q.skip(k + 1) =~= b);
        assert(a + strip_bytes(b) =~= strip_bytes(b));
    } else {
        let t = a.drop_first();
        assert(a.contains(a[0]));
        assert forall|c: u8| t.contains(c) implies a.contains(c) by {
            let i = t.index_of(c);
            assert(a[i + 1] == c);
        }
        law_byte_sequences_are_removed(t, p, last, b);
        assert(s[0] == a[0]);
        assert(s.drop_first() =~= t + q);
        assert(seq![a[0]] + (t + strip_bytes(b)) =~= a + strip_bytes(b));
    }
}

/// A text of one line joins the span that is being built.
proof fn lemma_parse_one_line(p: ParseState, body: Seq<char>, rest: Seq<char>, end: int)
    requires
        is_one_line(body),
        body.len() > 0,
        p.line < end,
        p.key is None && p.segment.len() == 0 || p.key == Some(
            (p.style, HighlightKind::Plain),
        ),
    ensures
        ({
            let q = ParseState {
                col: p.col + byte_len(body),
                key: Some((p.style, HighlightKind::Plain)),
                segment: p.segment + body,
                ..p
            };
            parse(p, body + rest, end, Map::empty()) == parse(q, rest, end, Map::empty())
        }),
    decreases body.len(),
{
    let s = body + rest;
    let c = body[0];
    let t = body.drop_first();
    assert(s[0] == c);
    assert(s.drop_first() =~= t + rest);
    assert(token(s) == Token::Text(c));
    let next = step(p, Token::Text(c), Map::empty());
    assert(body =~= seq![c] + t);
    lemma_byte_len_cons(c, t);
    assert(next.segment =~= p.segment + seq![c]);
    if t.len() == 0 {
        assert(t + rest =~= rest);
        assert(byte_len(t) == 0) by {
            assert(t =~= Seq::<char>::empty());
        }
        assert(p.segment + body =~= next.segment);
    } else {
        assert forall|i: int| 0 <= i < t.len() implies #[trigger] t[i] != '\u{1b}' && t[i]
            != '\n' by {
            assert(t[i] == body[i + 1]);
        }
        lemma_parse_one_line(next, t, rest, end);
        assert(next.segment + t =~= p.segment + body);
    }
}

/// The style in which text is drawn in a given state.
pub open spec fn drawn(st: AnsiStyleState) -> Style {
    Style { fg: st.fg, bg: st.bg, bold: st.bold, underlined: false }
}

/// Text behind a sequence that ends in `m` is drawn in the style that the
/// sequence selects, up to the next such sequence, which changes it from there
/// on. Newlines do not change it. A sequence that ends in another letter changes
/// nothing.
pub proof fn law_text_is_drawn_in_its_style(
    p: Seq<char>,
    a: Seq<char>,
    q: Seq<char>,
    b: Seq<char>,
    letter: char,
    end: int,
)
    requires
        are_params(p),
        are_params(q),
        is_one_line(a) && a.len() > 0,
        is_one_line(b) && b.len() > 0,
        'a' <= letter <= 'z' || 'A' <= letter <= 'Z',
        letter != 'm',
        end >= 2,
    ensures
        ({
            let start = AnsiStyleState { fg: None, bg: None, bold: false };
            let s1 = apply_sgr(p, start);
            let s2 = apply_sgr(q, s1);
            let first = SpanView { content: a, style: drawn(s1) };
            &&& visible_lines(a, 0, end, Map::empty(), None) == seq![
                seq![SpanView { content: a, style: drawn(start) }],
            ]
            &&& visible_lines(sequence(p, 'm') + a, 0, end, Map::empty(), None) == seq![
                seq![first],
            ]
            &&& visible_lines(
                sequence(p, 'm') + (a + (sequence(q, 'm') + b)),
                0,
                end,
                Map::empty(),
                None,
            ) == seq![seq![first, SpanView { content: b, style: drawn(s2) }]]
            &&& visible_lines(
                sequence(p, 'm') + (a + (seq!['\n'] + b)),
                0,
                end,
                Map::empty(),
                None,
            ) == seq![seq![first], seq![SpanView { content: b, style: drawn(s1) }]]
            &&& visible_lines(
                sequence(p, 'm') + (a + (sequence(q, letter) + b)),
                0,
                end,
                Map::empty(),
                None,
            ) == seq![seq![SpanView { content: a + b, style: drawn(s1) }]]
        }),
{
    let none: Highlights = Map::empty();
    let e = Seq::<char>::empty();
    let start = default_state();
    let p0 = line_start(start, 0);
    let s1 = apply_sgr(p, start);
    let s2 = apply_sgr(q, s1);
    let p1 = ParseState { style: s1, ..p0 };
    // plain text
    assert(a + e =~= a);
    lemma_parse_one_line(p0, a, e, end);
    assert(p0.segment + a =~= a);
    assert(seek(a, start, 0, 0) == (a, start, 0int));
    let f0 = flush(parse(p0, a, end, none));
    assert(f0.spans =~= seq![SpanView { content: a, style: drawn(start) }]);
    assert(a.last() != '\n');
    assert(visible_lines(a, 0, end, none, None) =~= seq![f0.spans]);
    // one sequence
    let t1 = sequence(p, 'm') + a;
    lemma_sequence_token(p, 'm', a);
    assert(parse(p0, t1, end, none) == parse(p1, a, end, none)) by {
        assert(step(p0, Token::Sgr(p), none) =~= p1);
    }
    lemma_parse_one_line(p1, a, e, end);
    assert(p1.segment + a =~= a);
    let pa = ParseState {
        col: byte_len(a) as int,
        key: Some((s1, HighlightKind::Plain)),
        segment: a,
        ..p1
    };
    let first = SpanView { content: a, style: drawn(s1) };
    assert(flush(pa).spans =~= seq![first]);
    assert(t1.last() == a.last());
    assert(seek(t1, start, 0, 0) == (t1, start, 0int));
    assert(visible_lines(t1, 0, end, none, None) =~= seq![seq![first]]);
    // two sequences in a line
    let t2 = sequence(p, 'm') + (a + (sequence(q, 'm') + b));
    lemma_sequence_token(p, 'm', a + (sequence(q, 'm') + b));
    lemma_parse_one_line(p1, a, sequence(q, 'm') + b, end);
    lemma_sequence_token(q, 'm', b);
    let pq = step(pa, Token::Sgr(q), none);
    assert(step(p0, Token::Sgr(p), none) =~= p1);
    assert(parse(p0, t2, end, none) == parse(pq, b, end, none));
    assert(b + e =~= b);
    lemma_parse_one_line(pq, b, e, end);
    assert(pq.segment + b =~= b);
    let f2 = flush(parse(p0, t2, end, none));
    assert(f2.spans =~= seq![first, SpanView { content: b, style: drawn(s2) }]);
    assert(t2.last() == b.last());
    assert(seek(t2, start, 0, 0) == (t2, start, 0int));
    assert(visible_lines(t2, 0, end, none, None) =~= seq![f2.spans]);
    // two lines
    let t3 = sequence(p, 'm') + (a + (seq!['\n'] + b));
    lemma_sequence_token(p, 'm', a + (seq!['\n'] + b));
    lemma_parse_one_line(p1, a, seq!['\n'] + b, end);
    let nb = seq!['\n'] + b;
    assert(token(nb) == Token::Text('\n'));
    assert(nb.drop_first() =~= b);
    let pn = step(pa, Token::Text('\n'), none);
    assert(parse(p0, t3, end, none) == parse(pn, b, end, none));
    lemma_parse_one_line(pn, b, e, end);
    assert(pn.segment + b =~= b);
    let f3 = flush(parse(p0, t3, end, none));
    assert(f3.spans =~= seq![SpanView { content: b, style: drawn(s1) }]);
    assert(f3.lines =~= seq![seq![first]]);
    assert(t3.last() == b.last());
    assert(seek(t3, start, 0, 0) == (t3, start, 0int));
    assert(visible_lines(t3, 0, end, none, None) =~= seq![seq![first], f3.spans]);
    // another sequence
    let t4 = sequence(p, 'm') + (a + (sequence(q, letter) + b));
    lemma_sequence_token(p, 'm', a + (sequence(q, letter) + b));
    lemma_parse_one_line(p1, a, sequence(q, letter) + b, end);
    lemma_sequence_token(q, letter, b);
    assert(parse(p0, t4, end, none) == parse(pa, b, end, none));
    lemma_parse_one_line(pa, b, e, end);
    let f4 = flush(parse(p0, t4, end, none));
    assert(f4.spans =~= seq![SpanView { content: a + b, style: drawn(s1) }]);
    assert(t4.last() == b.last());
    assert(seek(t4, start, 0, 0) == (t4, start, 0int));
    assert(visible_lines(t4, 0, end, none, None) =~= seq![f4.spans]);
}

/// Whether a marked range holds a column.
pub open spec fn holds(range: (usize, usize, bool), col: int) -> bool {
    range.0 <= col < range.1
}

/// What is marked in columns of a line: they are part of the selected match if
/// that has one of the columns, else part of a match if any has one, else
/// nothing. Other lines do not matter.
pub proof fn law_columns_of_matches_are_marked(
    h: Highlights,
    line: usize,
    start: int,
    end: int,
    i: int,
    col: int,
)
    requires
        start < end,
        forall|l: usize, k: int|
            h.contains_key(l) && 0 <= k < h[l].len() ==> (#[trigger] h[l][k]).0 < h[l][k].1,
    ensures
        ({
            let kind = highlight_kind(h, line as int, start, end);
            let marked = h.contains_key(line) && 0 <= i < h[line].len() && start <= col < end
                && holds(h[line][i], col);
            &&& marked && h[line][i].2 ==> kind is Current
            &&& marked ==> !(kind is Plain)
            &&& kind is Current ==> exists|k: int, c: int|
                0 <= k < h[line].len() && start <= c < end && #[trigger] holds(h[line][k], c)
                    && h[line][k].2
            &&& kind is Other ==> exists|k: int, c: int|
                0 <= k < h[line].len() && start <= c < end && #[trigger] holds(h[line][k], c)
            &&& kind is Other ==> !(exists|k: int, c: int|
                0 <= k < h[line].len() && start <= c < end && #[trigger] holds(h[line][k], c)
                    && h[line][k].2)
        }),
{
    let kind = highlight_kind(h, line as int, start, end);
    if h.contains_key(line) {
        let ranges = h[line];
        if 0 <= i < ranges.len() && start <= col < end && holds(ranges[i], col) {
            assert(overlaps(ranges[i], start, end));
        }
        if kind is Current {
            let k = choose|k: int|
                0 <= k < ranges.len() && #[trigger] overlaps(ranges[k], start, end) && ranges[k].2;
            assert(ranges[k].0 < ranges[k].1);
            let c = if ranges[k].0 > start {
                ranges[k].0 as int
            } else {
                start
            };
            assert(holds(ranges[k], c));
        }
        if kind is Other {
            let k = choose|k: int|
                0 <= k < ranges.len() && #[trigger] overlaps(ranges[k], start, end);
            assert(ranges[k].0 < ranges[k].1);
            let c = if ranges[k].0 > start {
                ranges[k].0 as int
            } else {
                start
            };
            assert(holds(ranges[k], c));
            assert forall|k: int, c: int|
                0 <= k < ranges.len() && start <= c < end && #[trigger] holds(
                    ranges[k],
                    c,
                ) implies !ranges[k].2 by {
                assert(overlaps(ranges[k], start, end));
            }
        }
    }
}

/// Matches stand out, the selected one most, whatever the colours of the text.
pub proof fn law_matches_stand_out(st: AnsiStyleState)
    ensures
        highlighted_style(st, HighlightKind::Plain) == drawn(st),
        highlighted_style(st, HighlightKind::Other) == (Style {
            fg: Some(Color::Black),
            bg: Some(Color::Gray),
            ..drawn(st)
        }),
        highlighted_style(st, HighlightKind::Current) == (Style {
            fg: Some(Color::Black),
            bg: Some(Color::Yellow),
            bold: true,
            ..drawn(st)
        }),
{
}

} // verus!

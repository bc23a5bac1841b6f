//! ANSI escape sequences in output text: removing them, and turning text that
//! carries them into styled lines.
use std::collections::HashMap;

use vstd::prelude::*;
use vstd::slice::slice_to_vec;

pub use crate::ansi_lines::{
    ansi_text_to_lines, ansi_text_to_lines_with_highlights, ansi_text_to_visible_lines,
};
use crate::number::{parse_number, parse_u32};
use crate::style::{Color, Style};
use crate::text::{
    byte_count, byte_len, char_width, chars_from, next_char, opt_text, split_by, split_on,
    split_str, texts,
};

verus! {

broadcast use {vstd::std_specs::hash::group_hash_axioms, vstd::utf8::group_utf8_lib};

// ---------------------------------------------------------------------------
// Style state
// ---------------------------------------------------------------------------

/// The colours and weight that the escape sequences read so far have selected.
#[derive(Clone, Copy, Debug, PartialEq, Eq)]
pub struct AnsiStyleState {
    pub fg: Option<Color>,
    pub bg: Option<Color>,
    pub bold: bool,
}

/// The state at the start of a text.
pub open spec fn default_state() -> AnsiStyleState {
    AnsiStyleState { fg: None, bg: None, bold: false }
}

impl Default for AnsiStyleState {
    fn default() -> (r: AnsiStyleState)
        ensures
            r == default_state(),
    {
        AnsiStyleState { fg: None, bg: None, bold: false }
    }
}

/// How strongly a character is marked as part of a search match.
#[derive(Clone, Copy, Debug, PartialEq, Eq, Structural)]
pub enum HighlightKind {
    /// Not part of a match.
    Plain,
    /// Part of a match.
    Other,
    /// Part of the match that is selected.
    Current,
}

impl AnsiStyleState {
    pub open spec fn spec_style(self) -> Style {
        Style { fg: self.fg, bg: self.bg, bold: self.bold, underlined: false }
    }

    /// The style in which text in this state is drawn.
    pub fn as_style(self) -> (r: Style)
        ensures
            r == self.spec_style(),
    {
        Style { fg: self.fg, bg: self.bg, bold: self.bold, underlined: false }
    }
}

/// The style of text in a given state with a given mark: matches are black on
/// gray, and the selected match is bold black on yellow.
pub open spec fn highlighted_style(base: AnsiStyleState, highlight: HighlightKind) -> Style {
    match highlight {
        HighlightKind::Plain => base.spec_style(),
        HighlightKind::Other => base.spec_style().spec_fg(Color::Black).spec_bg(Color::Gray),
        HighlightKind::Current => base.spec_style().spec_fg(Color::Black).spec_bg(
            Color::Yellow,
        ).spec_bold(),
    }
}

/// The style of text in a given state with a given mark.
pub fn style_with_highlight(base: AnsiStyleState, highlight: HighlightKind) -> (r: Style)
    ensures
        r == highlighted_style(base, highlight),
{
    let style = base.as_style();
    match highlight {
        HighlightKind::Plain => style,
        HighlightKind::Other => style.fg(Color::Black).bg(Color::Gray),
        HighlightKind::Current => style.fg(Color::Black).bg(Color::Yellow).bold(),
    }
}

/// Whether the columns `[start, end)` and the marked range share a column.
pub open spec fn overlaps(range: (usize, usize, bool), start: int, end: int) -> bool {
    start < range.1 && range.0 < end
}

/// The marked ranges that a map holds.
pub open spec fn marks_of(highlights: Map<usize, Vec<(usize, usize, bool)>>) -> Map<
    usize,
    Seq<(usize, usize, bool)>,
> {
    highlights.map_values(|v: Vec<(usize, usize, bool)>| v@)
}

/// The mark on the columns `[start, end)` of a line: that of the selected match
/// wherever it reaches, else that of any match that does.
pub open spec fn highlight_kind(
    highlights: Map<usize, Seq<(usize, usize, bool)>>,
    line: int,
    start: int,
    end: int,
) -> HighlightKind {
    if !highlights.contains_key(line as usize) {
        HighlightKind::Plain
    } else {
        let ranges = highlights[line as usize];
        if exists|i: int|
            0 <= i < ranges.len() && #[trigger] overlaps(ranges[i], start, end) && ranges[i].2 {
            HighlightKind::Current
        } else if exists|i: int|
            0 <= i < ranges.len() && #[trigger] overlaps(ranges[i], start, end) {
            HighlightKind::Other
        } else {
            HighlightKind::Plain
        }
    }
}

/// The mark on the columns `[start, end)` of line `line_idx`.
pub fn highlight_kind_for_range(
    highlights: &HashMap<usize, Vec<(usize, usize, bool)>>,
    line_idx: usize,
    start: usize,
    end: usize,
) -> (r: HighlightKind)
    ensures
        r == highlight_kind(marks_of(highlights@), line_idx as int, start as int, end as int),
{
    let ranges: &Vec<(usize, usize, bool)> = match highlights.get(&line_idx) {
        Some(ranges) => ranges,
        None => {
            return HighlightKind::Plain;
        },
    };
    let mut kind = HighlightKind::Plain;
    let mut i: usize = 0;
    proof {
        assert(marks_of(highlights@)[line_idx] == ranges@);
    }
    while i < ranges.len()
        invariant
            marks_of(highlights@).contains_key(line_idx),
            marks_of(highlights@)[line_idx] == ranges@,
            i <= ranges@.len(),
            kind is Plain || kind is Other,
            forall|k: int|
                0 <= k < i ==> !(#[trigger] overlaps(ranges@[k], start as int, end as int)
                    && ranges@[k].2),
            kind is Other ==> exists|k: int|
                0 <= k < i && #[trigger] overlaps(ranges@[k], start as int, end as int),
            kind is Plain ==> forall|k: int|
                0 <= k < i ==> !#[trigger] overlaps(ranges@[k], start as int, end as int),
        decreases ranges@.len() - i,
    {
        let range = ranges[i];
        if start < range.1 && range.0 < end {
            proof {
                assert(overlaps(ranges@[i as int], start as int, end as int));
            }
            if range.2 {
                return HighlightKind::Current;
            }
            kind = HighlightKind::Other;
        }
        i = i + 1;
    }
    kind
}

// ---------------------------------------------------------------------------
// SGR sequences
// ---------------------------------------------------------------------------

/// The colour that a basic foreground or background code selects.
pub open spec fn basic_color(code: int) -> Option<Color> {
    if code == 30 || code == 40 {
        Some(Color::Black)
    } else if code == 31 || code == 41 {
        Some(Color::Red)
    } else if code == 32 || code == 42 {
        Some(Color::Green)
    } else if code == 33 || code == 43 {
        Some(Color::Yellow)
    } else if code == 34 || code == 44 {
        Some(Color::Blue)
    } else if code == 35 || code == 45 {
        Some(Color::Magenta)
    } else if code == 36 || code == 46 {
        Some(Color::Cyan)
    } else if code == 37 || code == 47 {
        Some(Color::Gray)
    } else if code == 90 || code == 100 {
        Some(Color::DarkGray)
    } else if code == 91 || code == 101 {
        Some(Color::LightRed)
    } else if code == 92 || code == 102 {
        Some(Color::LightGreen)
    } else if code == 93 || code == 103 {
        Some(Color::LightYellow)
    } else if code == 94 || code == 104 {
        Some(Color::LightBlue)
    } else if code == 95 || code == 105 {
        Some(Color::LightMagenta)
    } else if code == 96 || code == 106 {
        Some(Color::LightCyan)
    } else if code == 97 || code == 107 {
        Some(Color::White)
    } else {
        None
    }
}

/// The colour that a basic foreground or background code selects.
pub fn color_from_basic_ansi(code: u16) -> (r: Option<Color>)
    ensures
        r == basic_color(code as int),
{
    match code {
        30 | 40 => Some(Color::Black),
        31 | 41 => Some(Color::Red),
        32 | 42 => Some(Color::Green),
        33 | 43 => Some(Color::Yellow),
        34 | 44 => Some(Color::Blue),
        35 | 45 => Some(Color::Magenta),
        36 | 46 => Some(Color::Cyan),
        37 | 47 => Some(Color::Gray),
        90 | 100 => Some(Color::DarkGray),
        91 | 101 => Some(Color::LightRed),
        92 | 102 => Some(Color::LightGreen),
        93 | 103 => Some(Color::LightYellow),
        94 | 104 => Some(Color::LightBlue),
        95 | 105 => Some(Color::LightMagenta),
        96 | 106 => Some(Color::LightCyan),
        97 | 107 => Some(Color::White),
        _ => None,
    }
}

/// The number in one parameter of a sequence; none when there is no such
/// parameter or it is not a number that fits in 16 bits.
pub open spec fn ansi_number(param: Option<Seq<char>>) -> Option<int> {
    match param {
        Some(p) => parse_number(p, 65535),
        None => None,
    }
}

/// The number in one parameter of a sequence, if it is one.
pub fn parse_ansi_number(param: Option<&str>) -> (r: Option<u16>)
    ensures
        (match r {
            Some(n) => ansi_number(opt_text(param)) == Some(n as int),
            None => ansi_number(opt_text(param)) is None,
        }),
{
    match param {
        Some(p) => match parse_u32(p, 65535) {
            Some(n) => Some(n as u16),
            None => None,
        },
        None => None,
    }
}

/// Parameter number `i`, if there is one.
pub open spec fn param_at(parts: Seq<Seq<char>>, i: int) -> Option<Seq<char>> {
    if 0 <= i < parts.len() {
        Some(parts[i])
    } else {
        None
    }
}

/// The code in one parameter; anything that is not a number counts as 0.
pub open spec fn sgr_code(part: Seq<char>) -> int {
    match parse_number(part, 65535) {
        Some(n) => n,
        None => 0,
    }
}

/// `n` as a colour component, capped at 255; absent components are 0.
pub open spec fn component(n: Option<int>) -> u8 {
    match n {
        Some(v) => if v > 255 {
            255
        } else {
            v as u8
        },
        None => 0,
    }
}

/// The effect of one code that takes no further parameters.
pub open spec fn apply_code(code: int, style: AnsiStyleState) -> AnsiStyleState {
    if code == 0 {
        default_state()
    } else if code == 1 {
        AnsiStyleState { bold: true, ..style }
    } else if code == 22 {
        AnsiStyleState { bold: false, ..style }
    } else if 30 <= code <= 37 || 90 <= code <= 97 {
        AnsiStyleState { fg: basic_color(code), ..style }
    } else if 40 <= code <= 47 || 100 <= code <= 107 {
        AnsiStyleState { bg: basic_color(code), ..style }
    } else if code == 39 {
        AnsiStyleState { fg: None, ..style }
    } else if code == 49 {
        AnsiStyleState { bg: None, ..style }
    } else {
        style
    }
}

/// The colour that an extended colour code (38 or 48) selects by the
/// parameters after it: `5;n` or `2;r;g;b`.
pub open spec fn extended_color(parts: Seq<Seq<char>>) -> Option<Color> {
    match ansi_number(param_at(parts, 1)) {
        Some(kind) => if kind == 5 {
            match ansi_number(param_at(parts, 2)) {
                Some(n) => Some(Color::Indexed(component(Some(n)))),
                None => None,
            }
        } else if kind == 2 {
            Some(
                Color::Rgb(
                    component(ansi_number(param_at(parts, 2))),
                    component(ansi_number(param_at(parts, 3))),
                    component(ansi_number(param_at(parts, 4))),
                ),
            )
        } else {
            None
        },
        None => None,
    }
}

/// How many parameters an extended colour code uses up, itself included.
pub open spec fn extended_len(parts: Seq<Seq<char>>) -> int {
    match ansi_number(param_at(parts, 1)) {
        Some(kind) => if kind == 5 {
            3
        } else if kind == 2 {
            5
        } else {
            2
        },
        None => 2,
    }
}

/// `parts` without its first `n` elements.
pub open spec fn drop_parts(parts: Seq<Seq<char>>, n: int) -> Seq<Seq<char>> {
    if n >= parts.len() {
        Seq::empty()
    } else {
        parts.skip(n)
    }
}

/// The state after a list of SGR parameters.
pub open spec fn apply_parts(parts: Seq<Seq<char>>, style: AnsiStyleState) -> AnsiStyleState
    decreases parts.len(),
{
    if parts.len() == 0 {
        style
    } else {
        let code = sgr_code(parts[0]);
        if code == 38 || code == 48 {
            let next = match extended_color(parts) {
                Some(c) => if code == 38 {
                    AnsiStyleState { fg: Some(c), ..style }
                } else {
                    AnsiStyleState { bg: Some(c), ..style }
                },
                None => style,
            };
            apply_parts(drop_parts(parts, extended_len(parts)), next)
        } else {
            apply_parts(parts.drop_first(), apply_code(code, style))
        }
    }
}

/// The state after the SGR sequence with the given parameters.
pub open spec fn apply_sgr(params: Seq<char>, style: AnsiStyleState) -> AnsiStyleState {
    apply_parts(split_on(params, ';'), style)
}

fn part_at<'a>(parts: &Vec<&'a str>, i: usize) -> (r: Option<&'a str>)
    ensures
        opt_text(r) == param_at(texts(parts@), i as int),
{
    if i < parts.len() {
        Some(parts[i])
    } else {
        None
    }
}

fn to_component(n: Option<u16>) -> (r: u8)
    ensures
        r == component(match n {
            Some(v) => Some(v as int),
            None => None,
        }),
{
    match n {
        Some(v) => if v > 255 {
            255
        } else {
            v as u8
        },
        None => 0,
    }
}

/// Update `style` by the SGR sequence with the given parameters.
pub fn apply_sgr_sequence(params: &str, style: &mut AnsiStyleState)
    ensures
        *final(style) == apply_sgr(params@, *old(style)),
{
    let parts = split_by(params, ';');
    let ghost all = texts(parts@);
    let mut i: usize = 0;
    proof {
        assert(all.skip(0) =~= all);
    }
    while i < parts.len()
        invariant
            all == texts(parts@),
            all == split_on(params@, ';'),
            i <= parts@.len(),
            apply_parts(all.skip(i as int), *style) == apply_sgr(params@, *old(style)),
        decreases parts@.len() - i,
    {
        let ghost rest = all.skip(i as int);
        let ghost before = *style;
        proof {
            assert(rest[0] == parts@[i as int]@);
            assert forall|k: int| k >= 0 implies #[trigger] param_at(rest, k) == param_at(
                all,
                i + k,
            ) by {}
        }
        let code: u16 = match parse_ansi_number(Some(parts[i])) {
            Some(n) => n,
            None => 0,
        };
        if code == 38 || code == 48 {
            let left: usize = parts.len() - i;
            let kind: u16 = if left > 1 {
                match parse_ansi_number(part_at(&parts, i + 1)) {
                    Some(n) => n,
                    None => 0,
                }
            } else {
                0
            };
            let mut color: Option<Color> = None;
            let mut used: usize = 2;
            if kind == 5 {
                used = 3;
                if left > 2 {
                    if let Some(n) = parse_ansi_number(part_at(&parts, i + 2)) {
                        color = Some(Color::Indexed(to_component(Some(n))));
                    }
                }
            } else if kind == 2 {
                used = 5;
                let r = if left > 2 {
                    to_component(parse_ansi_number(part_at(&parts, i + 2)))
                } else {
                    0
                };
                let g = if left > 3 {
                    to_component(parse_ansi_number(part_at(&parts, i + 3)))
                } else {
                    0
                };
                let b = if left > 4 {
                    to_component(parse_ansi_number(part_at(&parts, i + 4)))
                } else {
                    0
                };
                color = Some(Color::Rgb(r, g, b));
            }
            proof {
                assert(param_at(rest, 1) == param_at(all, i + 1));
                assert(param_at(rest, 2) == param_at(all, i + 2));
                assert(param_at(rest, 3) == param_at(all, i + 3));
                assert(param_at(rest, 4) == param_at(all, i + 4));
                assert(color == extended_color(rest));
                assert(used == extended_len(rest));
            }
            if let Some(c) = color {
                if code == 38 {
                    style.fg = Some(c);
                } else {
                    style.bg = Some(c);
                }
            }
            if used >= left {
                i = parts.len();
                proof {
                    assert(all.skip(i as int) =~= drop_parts(rest, used as int));
                }
            } else {
                i = i + used;
                proof {
                    assert(all.skip(i as int) =~= drop_parts(rest, used as int));
                }
            }
        } else {
            match code {
                0 => {
                    *style = AnsiStyleState::default();
                },
                1 => {
                    style.bold = true;
                },
                22 => {
                    style.bold = false;
                },
                39 => {
                    style.fg = None;
                },
                49 => {
                    style.bg = None;
                },
                _ => {
                    if (30 <= code && code <= 37) || (90 <= code && code <= 97) {
                        style.fg = color_from_basic_ansi(code);
                    } else if (40 <= code && code <= 47) || (100 <= code && code <= 107) {
                        style.bg = color_from_basic_ansi(code);
                    }
                },
            }
            proof {
                assert(*style == apply_code(code as int, before));
            }
            i = i + 1;
            proof {
                assert(all.skip(i as int) =~= rest.drop_first());
            }
        }
    }
    proof {
        assert(all.skip(i as int).len() == 0);
    }
}


// ---------------------------------------------------------------------------
// Reading a text token by token
// ---------------------------------------------------------------------------

/// Whether a character is an ASCII letter, which ends a control sequence.
pub open spec fn is_letter(c: char) -> bool {
    'a' <= c <= 'z' || 'A' <= c <= 'Z'
}

/// Position of the first letter at or after `from`, or the length of `s`
/// without one.
pub open spec fn letter_at(s: Seq<char>, from: int) -> int
    decreases s.len() - from,
{
    if from >= s.len() || is_letter(s[from]) {
        from
    } else {
        letter_at(s, from + 1)
    }
}

/// Whether `s` starts with a complete control sequence: `ESC`, `[`, and
/// everything up to the first letter.
pub open spec fn starts_escape(s: Seq<char>) -> bool {
    s.len() >= 2 && s[0] == '\u{1b}' && s[1] == '[' && 2 <= letter_at(s, 2) < s.len()
}

/// One step through a text.
pub enum Token {
    /// A sequence that selects a style, by its parameters.
    Sgr(Seq<char>),
    /// Any other control sequence.
    Control,
    /// A character of the text itself.
    Text(char),
}

/// The first token of a text.
pub open spec fn token(s: Seq<char>) -> Token {
    if starts_escape(s) {
        if s[letter_at(s, 2)] == 'm' {
            Token::Sgr(s.subrange(2, letter_at(s, 2)))
        } else {
            Token::Control
        }
    } else {
        Token::Text(s[0])
    }
}

/// What follows the first token of a text.
pub open spec fn skip_token(s: Seq<char>) -> Seq<char> {
    if starts_escape(s) {
        s.skip(letter_at(s, 2) + 1)
    } else {
        s.drop_first()
    }
}

pub proof fn lemma_letter_at(s: Seq<char>, from: int, k: int)
    requires
        0 <= from <= k <= s.len(),
        forall|i: int| from <= i < k ==> !is_letter(#[trigger] s[i]),
        k < s.len() ==> is_letter(s[k]),
    ensures
        letter_at(s, from) == k,
    decreases k - from,
{
    if from < k {
        lemma_letter_at(s, from + 1, k);
    }
}

/// A token as it is read from a text.
pub(crate) enum Tok<'a> {
    Sgr(&'a str),
    Control,
    Text(char),
}

pub(crate) open spec fn tok_view(t: Tok) -> Token {
    match t {
        Tok::Sgr(p) => Token::Sgr(p@),
        Tok::Control => Token::Control,
        Tok::Text(c) => Token::Text(c),
    }
}

/// The text before the first letter, that letter, and what follows it.
fn split_at_letter<'a>(s: &'a str) -> (r: Option<(&'a str, char, &'a str)>)
    ensures
        (match r {
            Some((before, letter, after)) => {
                &&& s@ == before@ + seq![letter] + after@
                &&& is_letter(letter)
                &&& forall|i: int| 0 <= i < before@.len() ==> !is_letter(#[trigger] before@[i])
            },
            None => forall|i: int| 0 <= i < s@.len() ==> !is_letter(#[trigger] s@[i]),
        }),
{
    let mut rest: &'a str = s;
    let mut n: usize = 0;
    let ghost mut k: int = 0;
    let total = byte_count(s);
    proof {
        assert(s@.take(0) =~= Seq::<char>::empty());
        assert(s@.skip(0) =~= s@);
        crate::text::lemma_byte_len_at_least(s@.take(0));
    }
    loop
        invariant
            0 <= k <= s@.len(),
            rest@ == s@.skip(k),
            n == byte_len(s@.take(k)),
            total == byte_len(s@),
            forall|i: int| 0 <= i < k ==> !is_letter(#[trigger] s@[i]),
        decreases rest@.len(),
    {
        match next_char(rest) {
            None => {
                return None;
            },
            Some((c, tail)) => {
                proof {
                    assert(s@ =~= s@.take(k) + s@.skip(k));
                    crate::text::lemma_prefix_boundary(s@.take(k), s@.skip(k));
                }
                if ('a' <= c && c <= 'z') || ('A' <= c && c <= 'Z') {
                    let parts = split_str(s, n);
                    proof {
                        crate::text::lemma_split_unique(s@.take(k), s@.skip(k), parts.0@, parts.1@);
                        assert(s@ =~= parts.0@ + seq![c] + tail@);
                    }
                    return Some((parts.0, c, tail));
                }
                proof {
                    assert(s@.take(k + 1) =~= s@.take(k).push(c));
                    crate::text::lemma_byte_len_push(s@.take(k), c);
                    assert(s@ =~= s@.take(k + 1) + s@.skip(k + 1));
                    crate::text::lemma_byte_len_concat(s@.take(k + 1), s@.skip(k + 1));
                    assert(s@.skip(k).drop_first() =~= s@.skip(k + 1));
                    k = k + 1;
                }
                n = n + c.len_utf8();
                rest = tail;
            },
        }
    }
}

/// The first token of `s` and what follows it.
pub(crate) fn next_token<'a>(s: &'a str) -> (r: Option<(Tok<'a>, &'a str)>)
    ensures
        (match r {
            None => s@.len() == 0,
            Some((t, rest)) => {
                &&& s@.len() > 0
                &&& tok_view(t) == token(s@)
                &&& rest@ == skip_token(s@)
                &&& rest@.len() < s@.len()
            },
        }),
{
    match next_char(s) {
        None => None,
        Some((c, tail)) => {
            if c == '\u{1b}' {
                if let Some((bracket, body)) = next_char(tail) {
                    if bracket == '[' {
                        match split_at_letter(body) {
                            Some((params, letter, rest)) => {
                                proof {
                                    let k: int = params@.len() as int + 2;
                                    assert(tail@ =~= seq![bracket] + body@);
                                    assert(s@ =~= seq![c] + tail@);
                                    assert(s@.len() == 3 + params@.len() + rest@.len());
                                    assert forall|i: int| 2 <= i < k implies !is_letter(
                                        #[trigger] s@[i],
                                    ) by {
                                        assert(s@[i] == body@[i - 2]);
                                        assert(body@[i - 2] == params@[i - 2]);
                                    }
                                    assert(s@[k] == body@[k - 2]);
                                    assert(s@[k] == letter);
                                    lemma_letter_at(s@, 2, k);
                                    assert(s@.subrange(2, k) =~= params@);
                                    assert(s@.skip(k + 1) =~= rest@);
                                }
                                if letter == 'm' {
                                    return Some((Tok::Sgr(params), rest));
                                } else {
                                    return Some((Tok::Control, rest));
                                }
                            },
                            None => {
                                proof {
                                    assert(s@ =~= seq![c, bracket] + body@);
                                    assert forall|i: int| 2 <= i < s@.len() implies !is_letter(
                                        #[trigger] s@[i],
                                    ) by {
                                        assert(s@[i] == body@[i - 2]);
                                    }
                                    lemma_letter_at(s@, 2, s@.len() as int);
                                }
                            },
                        }
                    }
                }
            }
            Some((Tok::Text(c), tail))
        },
    }
}

// ---------------------------------------------------------------------------
// Removing control sequences
// ---------------------------------------------------------------------------

/// The text without its control sequences.
pub open spec fn strip(s: Seq<char>) -> Seq<char>
    decreases s.len(),
{
    if s.len() == 0 {
        Seq::empty()
    } else {
        match token(s) {
            Token::Text(c) => seq![c] + strip(skip_token(s)),
            _ => strip(skip_token(s)),
        }
    }
}

/// Remove the control sequences from a text.
pub fn strip_ansi_sgr(text: &str) -> (r: String)
    ensures
        r@ == strip(text@),
{
    let mut out = String::new();
    let mut rest: &str = text;
    proof {
        assert(out@ + strip(rest@) =~= strip(text@));
    }
    loop
        invariant
            out@ + strip(rest@) == strip(text@),
        decreases rest@.len(),
    {
        match next_token(rest) {
            None => {
                proof {
                    assert(out@ + strip(rest@) =~= out@);
                }
                return out;
            },
            Some((tok, tail)) => {
                let ghost before = out@;
                match tok {
                    Tok::Text(c) => {
                        out.push(c);
                        proof {
                            assert(out@ + strip(tail@) =~= before + strip(rest@));
                        }
                    },
                    _ => {},
                }
                rest = tail;
            },
        }
    }
}

/// Whether `b` ends a control sequence in a stream of bytes.
pub open spec fn is_final_byte(b: u8) -> bool {
    0x40 <= b <= 0x7e
}

/// Position of the first final byte at or after `from`, or the length of `s`
/// without one.
pub open spec fn final_byte_at(s: Seq<u8>, from: int) -> int
    decreases s.len() - from,
{
    if from >= s.len() || is_final_byte(s[from]) {
        from
    } else {
        final_byte_at(s, from + 1)
    }
}

/// Whether `s` starts with a complete control sequence: `ESC`, `[`, and
/// everything up to the first final byte.
pub open spec fn starts_escape_bytes(s: Seq<u8>) -> bool {
    s.len() >= 2 && s[0] == 0x1b && s[1] == 0x5b && 2 <= final_byte_at(s, 2) < s.len()
}

/// The bytes without their control sequences.
pub open spec fn strip_bytes(s: Seq<u8>) -> Seq<u8>
    decreases s.len(),
{
    if s.len() == 0 {
        Seq::empty()
    } else if starts_escape_bytes(s) {
        strip_bytes(s.skip(final_byte_at(s, 2) + 1))
    } else {
        seq![s[0]] + strip_bytes(s.drop_first())
    }
}

pub proof fn lemma_final_byte_at(s: Seq<u8>, from: int, k: int)
    requires
        0 <= from <= k <= s.len(),
        forall|i: int| from <= i < k ==> !is_final_byte(#[trigger] s[i]),
        k < s.len() ==> is_final_byte(s[k]),
    ensures
        final_byte_at(s, from) == k,
    decreases k - from,
{
    if from < k {
        lemma_final_byte_at(s, from + 1, k);
    }
}

/// Remove the control sequences from a stream of bytes.
pub fn strip_ansi_sgr_bytes(bytes: &[u8]) -> (r: Vec<u8>)
    ensures
        r@ == strip_bytes(bytes@),
{
    let mut out: Vec<u8> = Vec::new();
    let mut i: usize = 0;
    proof {
        assert(bytes@.skip(0) =~= bytes@);
        assert(out@ + strip_bytes(bytes@.skip(0)) =~= strip_bytes(bytes@));
    }
    while i < bytes.len()
        invariant
            i <= bytes@.len(),
            out@ + strip_bytes(bytes@.skip(i as int)) == strip_bytes(bytes@),
        decreases bytes@.len() - i,
    {
        let ghost s = bytes@.skip(i as int);
        let mut escape = false;
        if bytes[i] == 0x1b && i + 1 < bytes.len() && bytes[i + 1] == 0x5b {
            let mut j: usize = i + 2;
            while j < bytes.len() && !(0x40 <= bytes[j] && bytes[j] <= 0x7e)
                invariant
                    i + 2 <= j <= bytes@.len(),
                    forall|k: int| i + 2 <= k < j ==> !is_final_byte(#[trigger] bytes@[k]),
                decreases bytes@.len() - j,
            {
                j = j + 1;
            }
            proof {
                assert forall|k: int| 2 <= k < j - i implies !is_final_byte(#[trigger] s[k]) by {
                    assert(s[k] == bytes@[i + k]);
                }
                lemma_final_byte_at(s, 2, j - i);
            }
            if j < bytes.len() {
                proof {
                    assert(s.skip(j - i + 1) =~= bytes@.skip(j + 1));
                }
                i = j + 1;
                escape = true;
            }
        }
        if !escape {
            let ghost before = out@;
            out.push(bytes[i]);
            proof {
                assert(s.drop_first() =~= bytes@.skip(i + 1));
                assert(out@ + strip_bytes(bytes@.skip(i + 1)) =~= before + strip_bytes(s));
            }
            i = i + 1;
        }
    }
    proof {
        assert(out@ + strip_bytes(bytes@.skip(i as int)) =~= out@);
    }
    out
}

// ---------------------------------------------------------------------------
// Line index
// ---------------------------------------------------------------------------

/// Pre-computed index of line-start byte offsets and ANSI style state.
///
/// Built incrementally as text grows (via `extend`), allowing
/// `ansi_text_to_visible_lines` to jump directly to any scroll position
/// without scanning all preceding bytes.
#[derive(Debug)]
pub struct AnsiLineIndex {
    /// Byte offset of the start of each line in the source text.
    pub offsets: Vec<usize>,
    /// ANSI style state at the start of each line.
    pub styles: Vec<AnsiStyleState>,
    /// How many bytes of the text have been scanned so far.
    pub scanned_up_to: usize,
    /// Style state at `scanned_up_to` (carried forward on next extend).
    pub trailing_style: AnsiStyleState,
}

/// What an [`AnsiLineIndex`] holds.
#[verifier::ext_equal]
pub struct IndexView {
    pub offsets: Seq<usize>,
    pub styles: Seq<AnsiStyleState>,
    pub scanned: nat,
    pub trailing: AnsiStyleState,
}

impl View for AnsiLineIndex {
    type V = IndexView;

    open spec fn view(&self) -> IndexView {
        IndexView {
            offsets: self.offsets@,
            styles: self.styles@,
            scanned: self.scanned_up_to as nat,
            trailing: self.trailing_style,
        }
    }
}

/// The index of the empty text: line 0 starts at byte 0 in the default state.
pub open spec fn empty_index() -> IndexView {
    IndexView {
        offsets: seq![0usize],
        styles: seq![default_state()],
        scanned: 0,
        trailing: default_state(),
    }
}

/// The index after reading `s`, which is the end of a text of `total` bytes:
/// each newline of the text starts a line at the byte after it, in the state
/// that the sequences before it have left.
pub open spec fn scan(m: IndexView, s: Seq<char>, total: nat) -> IndexView
    decreases s.len(),
{
    if s.len() == 0 {
        m
    } else {
        let rest = skip_token(s);
        match token(s) {
            Token::Sgr(p) => scan(
                IndexView { trailing: apply_sgr(p, m.trailing), ..m },
                rest,
                total,
            ),
            Token::Control => scan(m, rest, total),
            Token::Text(c) => if c == '\n' {
                scan(
                    IndexView {
                        offsets: m.offsets.push((total - byte_len(rest)) as usize),
                        styles: m.styles.push(m.trailing),
                        ..m
                    },
                    rest,
                    total,
                )
            } else {
                scan(m, rest, total)
            },
        }
    }
}

/// The index after `extend`: what lies past the bytes scanned before is read,
/// and nothing happens when there is nothing past them.
pub open spec fn extended_index(m: IndexView, text: Seq<char>) -> IndexView {
    if byte_len(text) <= m.scanned {
        m
    } else {
        IndexView {
            scanned: byte_len(text),
            ..scan(m, chars_from(text, m.scanned as int), byte_len(text))
        }
    }
}

/// The index of a text that is read in one go.
pub open spec fn index_of(text: Seq<char>) -> IndexView {
    extended_index(empty_index(), text)
}

/// The part of `text` after its first `from` bytes; a character that
/// straddles the position is left out.
pub(crate) fn text_from<'a>(text: &'a str, from: usize) -> (r: &'a str)
    ensures
        r@ == chars_from(text@, from as int),
{
    let bytes = text.as_bytes();
    if from >= bytes.len() {
        proof {
            vstd::utf8::is_char_boundary_start_end_of_seq(bytes@);
        }
        let parts = split_str(text, bytes.len());
        proof {
            crate::text::lemma_byte_len_concat(parts.0@, parts.1@);
            crate::text::lemma_byte_len_at_least(parts.1@);
            lemma_chars_from_end(text@, from as int);
            assert(parts.1@ =~= Seq::<char>::empty());
        }
        return parts.1;
    }
    let mut i: usize = from;
    while i < bytes.len() && 0x80 <= bytes[i] && bytes[i] <= 0xbf
        invariant
            bytes@ == vstd::utf8::encode_utf8(text@),
            from <= i <= bytes@.len(),
            forall|k: int|
                from <= k < i ==> vstd::utf8::is_continuation_byte(#[trigger] bytes@[k]),
        decreases bytes@.len() - i,
    {
        i = i + 1;
    }
    proof {
        if i < bytes.len() {
            vstd::utf8::is_char_boundary_iff_not_is_continuation_byte(bytes@, i as int);
        } else {
            vstd::utf8::is_char_boundary_start_end_of_seq(bytes@);
        }
    }
    let parts = split_str(text, i);
    proof {
        lemma_chars_from_rounds_up(parts.0@, parts.1@, from as int);
    }
    parts.1
}

proof fn lemma_chars_from_end(s: Seq<char>, from: int)
    requires
        from >= byte_len(s),
    ensures
        chars_from(s, from) =~= Seq::<char>::empty(),
    decreases s.len(),
{
    if s.len() > 0 {
        crate::text::lemma_byte_len_at_least(s);
        assert(s =~= seq![s[0]] + s.drop_first());
        crate::text::lemma_byte_len_cons(s[0], s.drop_first());
        lemma_chars_from_end(s.drop_first(), from - char_width(s[0]));
    }
}

/// When only continuation bytes lie between `from` and the end of `a`, passing
/// `from` bytes of `a + b` leaves `b`.
proof fn lemma_chars_from_rounds_up(a: Seq<char>, b: Seq<char>, from: int)
    requires
        0 <= from <= byte_len(a),
        forall|k: int|
            from <= k < byte_len(a) ==> vstd::utf8::is_continuation_byte(
                #[trigger] vstd::utf8::encode_utf8(a + b)[k],
            ),
    ensures
        chars_from(a + b, from) == b,
    decreases a.len(),
{
    crate::text::lemma_byte_len_at_least(a);
    if a.len() == 0 {
        assert(a + b =~= b);
    } else {
        let t = a.drop_first();
        let w = char_width(a[0]) as int;
        let bytes = vstd::utf8::encode_utf8(a + b);
        assert(a =~= seq![a[0]] + t);
        crate::text::lemma_byte_len_cons(a[0], t);
        assert((a + b).drop_first() =~= t + b);
        assert(bytes =~= vstd::utf8::encode_scalar(a[0] as u32) + vstd::utf8::encode_utf8(t + b));
        crate::text::lemma_char_width(a[0]);
        if from <= 0 {
            vstd::utf8::encode_utf8_first_scalar(a + b);
            assert(vstd::utf8::is_continuation_byte(bytes[0]));
            assert(false);
        }
        crate::text::lemma_byte_len_concat(t, b);
        if from < w {
            reveal_with_fuel(chars_from, 2);
            // the next character would start with a continuation byte
            if t.len() > 0 {
                crate::text::lemma_byte_len_at_least(t);
                vstd::utf8::encode_utf8_first_scalar(t + b);
                assert(bytes[w] == vstd::utf8::encode_utf8(t + b)[0]);
                assert(vstd::utf8::is_continuation_byte(bytes[w]));
                assert(false);
            }
            assert(t + b =~= b);
        } else {
            assert forall|k: int| from - w <= k < byte_len(t) implies
                vstd::utf8::is_continuation_byte(
                #[trigger] vstd::utf8::encode_utf8(t + b)[k],
            ) by {
                assert(bytes[k + w] == vstd::utf8::encode_utf8(t + b)[k]);
            }
            lemma_chars_from_rounds_up(t, b, from - w);
        }
    }
}

impl Clone for AnsiLineIndex {
    fn clone(&self) -> (r: AnsiLineIndex)
        ensures
            r@ == self@,
    {
        AnsiLineIndex {
            offsets: slice_to_vec(self.offsets.as_slice()),
            styles: slice_to_vec(self.styles.as_slice()),
            scanned_up_to: self.scanned_up_to,
            trailing_style: self.trailing_style,
        }
    }
}

impl AnsiLineIndex {
    /// Create an empty index (line 0 starts at byte 0 with default style).
    pub fn new() -> (r: Self)
        ensures
            r@ == empty_index(),
    {
        let mut offsets: Vec<usize> = Vec::new();
        offsets.push(0);
        let mut styles: Vec<AnsiStyleState> = Vec::new();
        styles.push(AnsiStyleState::default());
        AnsiLineIndex {
            offsets,
            styles,
            scanned_up_to: 0,
            trailing_style: AnsiStyleState::default(),
        }
    }

    /// Number of lines that the index knows.
    pub fn line_count(&self) -> (r: usize)
        ensures
            r == self@.offsets.len(),
    {
        self.offsets.len()
    }

    /// Extend the index by scanning any new content in `text` past what was
    /// previously scanned.  Only the new bytes are visited.
    pub fn extend(&mut self, text: &str)
        ensures
            final(self)@ == extended_index(old(self)@, text@),
    {
        let total = byte_count(text);
        if total <= self.scanned_up_to {
            return;
        }
        let ghost start = self@;
        let mut rest: &str = text_from(text, self.scanned_up_to);
        let mut style = self.trailing_style;
        let ghost goal = scan(start, rest@, total as nat);
        proof {
            lemma_chars_from_shorter(text@, self.scanned_up_to as int);
        }
        loop
            invariant
                total == byte_len(text@),
                byte_len(rest@) <= total,
                self.scanned_up_to as nat == start.scanned,
                scan(IndexView { trailing: style, ..self@ }, rest@, total as nat) == goal,
            ensures
                (IndexView { trailing: style, ..self@ }) == goal,
            decreases rest@.len(),
        {
            match next_token(rest) {
                None => {
                    break;
                },
                Some((tok, tail)) => {
                    proof {
                        lemma_skip_token_bytes(rest@);
                    }
                    match tok {
                        Tok::Sgr(params) => {
                            apply_sgr_sequence(params, &mut style);
                        },
                        Tok::Control => {},
                        Tok::Text(c) => {
                            if c == '\n' {
                                let left = byte_count(tail);
                                self.offsets.push(total - left);
                                self.styles.push(style);
                            }
                        },
                    }
                    rest = tail;
                },
            }
        }
        self.scanned_up_to = total;
        self.trailing_style = style;
        proof {
            lemma_scan_keeps_scanned(start, chars_from(text@, start.scanned as int), total as nat);
        }
    }
}

pub proof fn lemma_chars_from_shorter(s: Seq<char>, from: int)
    ensures
        byte_len(chars_from(s, from)) <= byte_len(s),
    decreases s.len(),
{
    if from > 0 && s.len() > 0 {
        assert(s =~= seq![s[0]] + s.drop_first());
        crate::text::lemma_byte_len_cons(s[0], s.drop_first());
        lemma_chars_from_shorter(s.drop_first(), from - char_width(s[0]));
    }
}

/// A token is a prefix of the text, so it takes up bytes of it.
pub proof fn lemma_skip_token_bytes(s: Seq<char>) -> (tok: Seq<char>)
    requires
        s.len() > 0,
    ensures
        s == tok + skip_token(s),
        tok.len() > 0,
        byte_len(s) == byte_len(tok) + byte_len(skip_token(s)),
{
    let n = s.len() - skip_token(s).len();
    assert(s =~= s.take(n) + skip_token(s));
    crate::text::lemma_byte_len_concat(s.take(n), skip_token(s));
    s.take(n)
}

pub proof fn lemma_scan_keeps_scanned(m: IndexView, s: Seq<char>, total: nat)
    ensures
        scan(m, s, total).scanned == m.scanned,
    decreases s.len(),
{
    if s.len() > 0 {
        let rest = skip_token(s);
        match token(s) {
            Token::Sgr(p) => {
                lemma_scan_keeps_scanned(
                    IndexView { trailing: apply_sgr(p, m.trailing), ..m },
                    rest,
                    total,
                );
            },
            Token::Control => {
                lemma_scan_keeps_scanned(m, rest, total);
            },
            Token::Text(c) => {
                if c == '\n' {
                    lemma_scan_keeps_scanned(
                        IndexView {
                            offsets: m.offsets.push((total - byte_len(rest)) as usize),
                            styles: m.styles.push(m.trailing),
                            ..m
                        },
                        rest,
                        total,
                    );
                } else {
                    lemma_scan_keeps_scanned(m, rest, total);
                }
            },
        }
    }
}

} // verus!

//! Colours, styles and styled text, as the renderer draws them.
use vstd::prelude::*;

verus! {

/// A terminal colour.
#[derive(Clone, Copy, Debug, PartialEq, Eq, Structural)]
pub enum Color {
    Black,
    Red,
    Green,
    Yellow,
    Blue,
    Magenta,
    Cyan,
    Gray,
    DarkGray,
    LightRed,
    LightGreen,
    LightYellow,
    LightBlue,
    LightMagenta,
    LightCyan,
    White,
    /// A colour of the 256-colour palette.
    Indexed(u8),
    /// A 24-bit colour.
    Rgb(u8, u8, u8),
}

/// How a piece of text is drawn. `None` leaves a colour as it is.
#[derive(Clone, Copy, Debug, PartialEq, Eq)]
pub struct Style {
    pub fg: Option<Color>,
    pub bg: Option<Color>,
    pub bold: bool,
    pub underlined: bool,
}

impl Style {
    /// The style that changes nothing.
    pub open spec fn spec_plain() -> Style {
        Style { fg: None, bg: None, bold: false, underlined: false }
    }

    /// The style that changes nothing.
    pub fn plain() -> (r: Style)
        ensures
            r == Self::spec_plain(),
    {
        Style { fg: None, bg: None, bold: false, underlined: false }
    }

    pub open spec fn spec_fg(self, c: Color) -> Style {
        Style { fg: Some(c), ..self }
    }

    /// This style with another text colour.
    pub fn fg(self, c: Color) -> (r: Style)
        ensures
            r == self.spec_fg(c),
    {
        Style { fg: Some(c), bg: self.bg, bold: self.bold, underlined: self.underlined }
    }

    pub open spec fn spec_bg(self, c: Color) -> Style {
        Style { bg: Some(c), ..self }
    }

    /// This style with another background colour.
    pub fn bg(self, c: Color) -> (r: Style)
        ensures
            r == self.spec_bg(c),
    {
        Style { fg: self.fg, bg: Some(c), bold: self.bold, underlined: self.underlined }
    }

    pub open spec fn spec_bold(self) -> Style {
        Style { bold: true, ..self }
    }

    /// This style in bold.
    pub fn bold(self) -> (r: Style)
        ensures
            r == self.spec_bold(),
    {
        Style { fg: self.fg, bg: self.bg, bold: true, underlined: self.underlined }
    }

    pub open spec fn spec_underlined(self) -> Style {
        Style { underlined: true, ..self }
    }

    /// This style, underlined.
    pub fn underlined(self) -> (r: Style)
        ensures
            r == self.spec_underlined(),
    {
        Style { fg: self.fg, bg: self.bg, bold: self.bold, underlined: true }
    }
}

/// A run of text in one style.
#[derive(Debug)]
pub struct Span {
    pub content: String,
    pub style: Style,
}

/// What a [`Span`] stands for.
#[verifier::ext_equal]
pub struct SpanView {
    pub content: Seq<char>,
    pub style: Style,
}

impl View for Span {
    type V = SpanView;

    open spec fn view(&self) -> SpanView {
        SpanView { content: self.content@, style: self.style }
    }
}

impl Span {
    /// Text in the given style.
    pub fn styled(content: String, style: Style) -> (r: Span)
        ensures
            r@ == (SpanView { content: content@, style }),
    {
        Span { content, style }
    }

    /// Text in the plain style.
    pub fn raw(content: String) -> (r: Span)
        ensures
            r@ == (SpanView { content: content@, style: Style::spec_plain() }),
    {
        Span { content, style: Style::plain() }
    }
}

/// What a list of spans stands for.
pub open spec fn spans_view(spans: Seq<Span>) -> Seq<SpanView> {
    Seq::new(spans.len(), |i: int| spans[i]@)
}

/// The text of a list of spans.
pub open spec fn spans_text(spans: Seq<SpanView>) -> Seq<char>
    decreases spans.len(),
{
    if spans.len() == 0 {
        Seq::empty()
    } else {
        spans_text(spans.drop_last()) + spans.last().content
    }
}

/// A line of styled text.
#[derive(Debug)]
pub struct Line {
    pub spans: Vec<Span>,
}

impl View for Line {
    type V = Seq<SpanView>;

    open spec fn view(&self) -> Seq<SpanView> {
        spans_view(self.spans@)
    }
}

impl Clone for Span {
    fn clone(&self) -> (r: Span)
        ensures
            r@ == self@,
    {
        Span { content: self.content.clone(), style: self.style }
    }
}

impl Clone for Line {
    fn clone(&self) -> (r: Line)
        ensures
            r@ == self@,
    {
        let mut spans: Vec<Span> = Vec::new();
        let mut i: usize = 0;
        while i < self.spans.len()
            invariant
                i <= self.spans@.len(),
                spans@.len() == i,
                forall|k: int| 0 <= k < i ==> (#[trigger] spans@[k])@ == self.spans@[k]@,
            decreases self.spans@.len() - i,
        {
            let s = self.spans[i].clone();
            spans.push(s);
            i = i + 1;
        }
        proof {
            assert(spans_view(spans@) =~= spans_view(self.spans@));
        }
        Line { spans }
    }
}

/// What a list of lines stands for.
pub open spec fn lines_view(lines: Seq<Line>) -> Seq<Seq<SpanView>> {
    Seq::new(lines.len(), |i: int| lines[i]@)
}

pub proof fn lemma_spans_view_push(spans: Seq<Span>, s: Span)
    ensures
        spans_view(spans.push(s)) == spans_view(spans).push(s@),
{
    assert(spans_view(spans.push(s)) =~= spans_view(spans).push(s@));
}

pub proof fn lemma_lines_view_push(lines: Seq<Line>, l: Line)
    ensures
        lines_view(lines.push(l)) == lines_view(lines).push(l@),
{
    assert(lines_view(lines.push(l)) =~= lines_view(lines).push(l@));
}

} // verus!

//! The output of one pipeline stage.
use vstd::prelude::*;
use vstd::utf8::{decode_utf8, encode_scalar, encode_utf8, valid_utf8};

use crate::ansi::{
    empty_index, index_of, strip, strip_ansi_sgr_bytes, strip_bytes, AnsiLineIndex, IndexView,
};
use crate::ansi_laws::{char_count, law_line_count, law_no_lines};
use crate::ansi_lines::{ends_in_newline, shown_line_count, shown_lines_of};
use crate::bytes::{
    append_bytes, copy_bytes, count_of, decode_lossy, lemma_count_at_most, lemma_count_concat,
    newlines, shown_text,
};
use crate::executor::shown::{append_text_incremental, ShownText};

verus! {

/// The display / pipe mode for stage output.
#[derive(Clone, Copy, Debug, PartialEq, Eq, Structural)]
pub enum OutputMode {
    Stdout,
    Stderr,
    Combined,
}

/// A single chunk captured from either stdout or stderr of a child process,
/// representing one line of output (including the trailing `\n`, if any).
#[derive(Debug)]
pub struct CombinedLine {
    /// `true` if this chunk came from stderr; `false` for stdout.
    pub is_stderr: bool,
    /// Raw bytes of the line (may include a trailing newline).
    pub content: Vec<u8>,
}

/// What a [`CombinedLine`] stands for.
#[verifier::ext_equal]
pub struct LineView {
    pub is_stderr: bool,
    pub content: Seq<u8>,
}

impl View for CombinedLine {
    type V = LineView;

    open spec fn view(&self) -> LineView {
        LineView { is_stderr: self.is_stderr, content: self.content@ }
    }
}

impl Clone for CombinedLine {
    fn clone(&self) -> (r: CombinedLine)
        ensures
            r@ == self@,
    {
        CombinedLine { is_stderr: self.is_stderr, content: copy_bytes(self.content.as_slice()) }
    }
}

/// What a list of lines stands for.
pub open spec fn combined_view(lines: Seq<CombinedLine>) -> Seq<LineView> {
    Seq::new(lines.len(), |i: int| lines[i]@)
}

/// The bytes of a list of lines, one after the other.
pub open spec fn joined(lines: Seq<LineView>) -> Seq<u8>
    decreases lines.len(),
{
    if lines.len() == 0 {
        Seq::empty()
    } else {
        joined(lines.drop_last()) + lines.last().content
    }
}

/// The bytes of the lines that came from one of the two streams.
pub open spec fn stream_bytes(lines: Seq<LineView>, is_stderr: bool) -> Seq<u8>
    decreases lines.len(),
{
    if lines.len() == 0 {
        Seq::empty()
    } else {
        stream_bytes(lines.drop_last(), is_stderr) + if lines.last().is_stderr == is_stderr {
            lines.last().content
        } else {
            Seq::empty()
        }
    }
}

pub proof fn lemma_combined_view_push(lines: Seq<CombinedLine>, l: CombinedLine)
    ensures
        combined_view(lines.push(l)) == combined_view(lines).push(l@),
{
    assert(combined_view(lines.push(l)) =~= combined_view(lines).push(l@));
}

pub proof fn lemma_joined_concat(a: Seq<LineView>, b: Seq<LineView>)
    ensures
        joined(a + b) == joined(a) + joined(b),
    decreases b.len(),
{
    if b.len() == 0 {
        assert(a + b =~= a);
        assert(joined(a) + joined(b) =~= joined(a));
    } else {
        assert((a + b).drop_last() =~= a + b.drop_last());
        lemma_joined_concat(a, b.drop_last());
        assert(joined(a + b) =~= joined(a) + joined(b));
    }
}

pub proof fn lemma_stream_bytes_concat(a: Seq<LineView>, b: Seq<LineView>, is_stderr: bool)
    ensures
        stream_bytes(a + b, is_stderr) == stream_bytes(a, is_stderr) + stream_bytes(b, is_stderr),
    decreases b.len(),
{
    if b.len() == 0 {
        assert(a + b =~= a);
        assert(stream_bytes(a, is_stderr) + stream_bytes(b, is_stderr) =~= stream_bytes(
            a,
            is_stderr,
        ));
    } else {
        assert((a + b).drop_last() =~= a + b.drop_last());
        lemma_stream_bytes_concat(a, b.drop_last(), is_stderr);
        assert(stream_bytes(a + b, is_stderr) =~= stream_bytes(a, is_stderr) + stream_bytes(
            b,
            is_stderr,
        ));
    }
}

/// A copy of a list of lines.
pub(crate) fn copy_lines(lines: &Vec<CombinedLine>) -> (r: Vec<CombinedLine>)
    ensures
        combined_view(r@) == combined_view(lines@),
{
    let mut out: Vec<CombinedLine> = Vec::new();
    let mut i: usize = 0;
    while i < lines.len()
        invariant
            i <= lines@.len(),
            combined_view(out@) == combined_view(lines@).take(i as int),
        decreases lines@.len() - i,
    {
        let line = lines[i].clone();
        proof {
            lemma_combined_view_push(out@, line);
            assert(combined_view(lines@).take(i + 1) =~= combined_view(lines@).take(i as int).push(
                lines@[i as int]@,
            ));
        }
        out.push(line);
        i = i + 1;
    }
    proof {
        assert(combined_view(lines@).take(i as int) =~= combined_view(lines@));
    }
    out
}

/// The bytes of all lines.
pub(crate) fn join_lines(lines: &Vec<CombinedLine>) -> (r: Vec<u8>)
    ensures
        r@ == joined(combined_view(lines@)),
{
    let mut out: Vec<u8> = Vec::new();
    let mut i: usize = 0;
    proof {
        assert(out@ =~= joined(combined_view(lines@).take(0)));
    }
    while i < lines.len()
        invariant
            i <= lines@.len(),
            out@ == joined(combined_view(lines@).take(i as int)),
        decreases lines@.len() - i,
    {
        append_bytes(&mut out, lines[i].content.as_slice());
        proof {
            assert(combined_view(lines@).take(i + 1).drop_last() =~= combined_view(lines@).take(
                i as int,
            ));
        }
        i = i + 1;
    }
    proof {
        assert(combined_view(lines@).take(i as int) =~= combined_view(lines@));
    }
    out
}

/// A number that is held in a `usize`, which holds no number beyond its range.
pub open spec fn capped(n: int) -> int {
    if n <= usize::MAX {
        n
    } else {
        usize::MAX as int
    }
}

/// The text of the first `n` lines, each by itself.
pub open spec fn combined_text(lines: Seq<LineView>, n: int) -> Seq<char>
    decreases n,
{
    if n <= 0 {
        Seq::empty()
    } else {
        combined_text(lines, n - 1) + shown_text(lines[n - 1].content)
    }
}

/// The text of all lines, each by itself.
pub(crate) fn join_combined(lines: &Vec<CombinedLine>) -> (r: String)
    ensures
        r@ == combined_text(combined_view(lines@), lines@.len() as int),
{
    let mut out = String::new();
    let mut i: usize = 0;
    while i < lines.len()
        invariant
            i <= lines@.len(),
            out@ == combined_text(combined_view(lines@), i as int),
        decreases lines@.len() - i,
    {
        let text = decode_lossy(lines[i].content.as_slice());
        out.append(text.as_str());
        i = i + 1;
    }
    out
}

// ---------------------------------------------------------------------------
// Stage output
// ---------------------------------------------------------------------------

/// The result of executing a single pipeline stage.
///
/// The bytes are the output. The other fields are kept beside them so that
/// reading the text, counting lines and jumping to a line need not go over the
/// bytes again.
#[derive(Debug)]
pub struct StageOutput {
    pub stdout: Vec<u8>,
    pub stderr: Vec<u8>,
    pub exit_code: Option<i32>,
    /// Lines from stdout and stderr interleaved in the order they were received.
    pub combined: Vec<CombinedLine>,
    /// Text of `stdout`, with its line index.
    pub stdout_shown: ShownText,
    /// Text of `stderr`, with its line index.
    pub stderr_shown: ShownText,
    /// Newline counts, updated as data comes in.
    pub stdout_newlines: usize,
    pub stderr_newlines: usize,
}

/// What a [`StageOutput`] stands for.
#[verifier::ext_equal]
pub struct OutputView {
    pub stdout: Seq<u8>,
    pub stderr: Seq<u8>,
    pub exit_code: Option<i32>,
    pub combined: Seq<LineView>,
    pub stdout_text: Seq<char>,
    pub stderr_text: Seq<char>,
    pub stdout_index: IndexView,
    pub stderr_index: IndexView,
}

/// The output of a stage that has put out nothing yet.
pub open spec fn empty_output() -> OutputView {
    OutputView {
        stdout: Seq::empty(),
        stderr: Seq::empty(),
        exit_code: None,
        combined: Seq::empty(),
        stdout_text: Seq::empty(),
        stderr_text: Seq::empty(),
        stdout_index: empty_index(),
        stderr_index: empty_index(),
    }
}

/// The output with the given bytes and exit code, known all at once.
pub open spec fn whole_output(
    stdout: Seq<u8>,
    stderr: Seq<u8>,
    exit_code: Option<i32>,
    combined: Seq<LineView>,
) -> OutputView {
    OutputView {
        stdout,
        stderr,
        exit_code,
        combined,
        stdout_text: shown_text(stdout),
        stderr_text: shown_text(stderr),
        stdout_index: index_of(shown_text(stdout)),
        stderr_index: index_of(shown_text(stderr)),
    }
}

/// The output after more data has come in: however it is cut into pieces, it
/// is the output of all data that has come in so far.
pub open spec fn appended(
    o: OutputView,
    stdout: Seq<u8>,
    stderr: Seq<u8>,
    combined: Seq<LineView>,
) -> OutputView {
    whole_output(o.stdout + stdout, o.stderr + stderr, o.exit_code, o.combined + combined)
}

/// The bytes of an output in one of the three modes.
pub open spec fn mode_bytes(o: OutputView, mode: OutputMode) -> Seq<u8> {
    match mode {
        OutputMode::Stdout => o.stdout,
        OutputMode::Stderr => o.stderr,
        OutputMode::Combined => joined(o.combined),
    }
}

/// What the next stage reads: the bytes of the mode without control sequences.
pub open spec fn relayed(o: OutputView, mode: OutputMode) -> Seq<u8> {
    strip_bytes(mode_bytes(o, mode))
}

/// Number of lines in `bytes`, where the last one need not end in a newline.
pub open spec fn line_total(bytes: Seq<u8>) -> nat {
    newlines(bytes) + if bytes.len() > 0 && bytes.last() != 0x0a {
        1nat
    } else {
        0nat
    }
}

/// The text of an output in one of the three modes.
pub open spec fn output_text(o: OutputView, mode: OutputMode) -> Seq<char> {
    match mode {
        OutputMode::Stdout => o.stdout_text,
        OutputMode::Stderr => o.stderr_text,
        OutputMode::Combined => combined_text(o.combined, o.combined.len() as int),
    }
}

/// Number of lines that the text of a mode is turned into.
pub open spec fn display_lines(o: OutputView, mode: OutputMode) -> int {
    shown_lines_of(output_text(o, mode))
}

impl View for StageOutput {
    type V = OutputView;

    open spec fn view(&self) -> OutputView {
        OutputView {
            stdout: self.stdout@,
            stderr: self.stderr@,
            exit_code: self.exit_code,
            combined: combined_view(self.combined@),
            stdout_text: self.stdout_shown.text@,
            stderr_text: self.stderr_shown.text@,
            stdout_index: self.stdout_shown.index@,
            stderr_index: self.stderr_shown.index@,
        }
    }
}

impl StageOutput {
    /// What is kept beside the bytes fits them.
    pub open spec fn wf(&self) -> bool {
        &&& self.stdout_newlines == newlines(self.stdout@)
        &&& self.stderr_newlines == newlines(self.stderr@)
        &&& self.stdout_shown.shows(self.stdout@)
        &&& self.stderr_shown.shows(self.stderr@)
    }

    /// Create a new stage output, eagerly computing all caches.
    pub fn new(
        stdout: Vec<u8>,
        stderr: Vec<u8>,
        exit_code: Option<i32>,
        combined: Vec<CombinedLine>,
    ) -> (r: StageOutput)
        ensures
            r.wf(),
            r@ == whole_output(stdout@, stderr@, exit_code, combined_view(combined@)),
    {
        let stdout_shown = ShownText::of(stdout.as_slice());
        let stderr_shown = ShownText::of(stderr.as_slice());
        let stdout_newlines = bytecount::count(stdout.as_slice(), 0x0a);
        let stderr_newlines = bytecount::count(stderr.as_slice(), 0x0a);
        StageOutput {
            stdout,
            stderr,
            exit_code,
            combined,
            stdout_shown,
            stderr_shown,
            stdout_newlines,
            stderr_newlines,
        }
    }

    /// Create an empty stage output (used as a placeholder during streaming).
    pub fn empty() -> (r: StageOutput)
        ensures
            r.wf(),
            r@ == empty_output(),
    {
        let r = StageOutput {
            stdout: Vec::new(),
            stderr: Vec::new(),
            exit_code: None,
            combined: Vec::new(),
            stdout_shown: ShownText::new(),
            stderr_shown: ShownText::new(),
            stdout_newlines: 0,
            stderr_newlines: 0,
        };
        proof {
            assert(combined_view(r.combined@) =~= Seq::<LineView>::empty());
            assert(r.stdout@ =~= Seq::<u8>::empty());
            assert(r.stderr@ =~= Seq::<u8>::empty());
            assert(r@ =~= empty_output());
        }
        r
    }

    /// Append new data from a streaming update.
    ///
    /// Line counts are updated incrementally (only the new bytes are scanned),
    /// avoiding the cost of rescanning the full buffer every update. The texts
    /// and their line indexes are extended in place while the bytes are valid
    /// UTF-8 (the common case), falling back to a full recompute when a
    /// multi-byte sequence is split across chunk boundaries.
    pub fn append_data(
        &mut self,
        new_stdout: &[u8],
        new_stderr: &[u8],
        new_combined: Vec<CombinedLine>,
    )
        requires
            old(self).wf(),
        ensures
            final(self).wf(),
            final(self)@ == appended(
                old(self)@,
                new_stdout@,
                new_stderr@,
                combined_view(new_combined@),
            ),
    {
        let ghost before = *self;
        let ghost lines = combined_view(new_combined@);
        let out_count = bytecount::count(new_stdout, 0x0a);
        let err_count = bytecount::count(new_stderr, 0x0a);

        append_bytes(&mut self.stdout, new_stdout);
        append_bytes(&mut self.stderr, new_stderr);
        let mut more = new_combined;
        self.combined.append(&mut more);
        proof {
            lemma_count_concat(before.stdout@, new_stdout@, 0x0a);
            lemma_count_at_most(self.stdout@, 0x0a);
            lemma_count_concat(before.stderr@, new_stderr@, 0x0a);
            lemma_count_at_most(self.stderr@, 0x0a);
            assert(combined_view(self.combined@) =~= combined_view(before.combined@) + lines);
            assert(self.stdout.len() <= usize::MAX);
            assert(self.stderr.len() <= usize::MAX);
            assert(self.stdout@.take(before.stdout@.len() as int) =~= before.stdout@);
            assert(self.stdout@.skip(before.stdout@.len() as int) =~= new_stdout@);
            assert(self.stderr@.take(before.stderr@.len() as int) =~= before.stderr@);
            assert(self.stderr@.skip(before.stderr@.len() as int) =~= new_stderr@);
        }
        self.stdout_newlines = self.stdout_newlines + out_count;
        self.stderr_newlines = self.stderr_newlines + err_count;
        append_text_incremental(&mut self.stdout_shown, new_stdout, self.stdout.as_slice());
        append_text_incremental(&mut self.stderr_shown, new_stderr, self.stderr.as_slice());
    }

    /// Record how the stage's process ended.
    pub fn set_exit_code(&mut self, exit_code: Option<i32>)
        ensures
            final(self)@ == (OutputView { exit_code, ..old(self)@ }),
            old(self).wf() ==> final(self).wf(),
    {
        self.exit_code = exit_code;
    }

    /// Get the pre-built line index for the given output mode.
    /// Returns `None` for Combined mode (no persistent index).
    pub fn line_index(&self, mode: OutputMode) -> (r: Option<&AnsiLineIndex>)
        ensures
            match (mode, r) {
                (OutputMode::Stdout, Some(i)) => i@ == self@.stdout_index,
                (OutputMode::Stderr, Some(i)) => i@ == self@.stderr_index,
                (OutputMode::Combined, None) => true,
                _ => false,
            },
    {
        match mode {
            OutputMode::Stdout => Some(&self.stdout_shown.index),
            OutputMode::Stderr => Some(&self.stderr_shown.index),
            OutputMode::Combined => None,
        }
    }

    /// Text of stdout (zero-cost borrow).
    pub fn stdout_text(&self) -> (r: &str)
        ensures
            r@ == self@.stdout_text,
    {
        self.stdout_shown.text.as_str()
    }

    /// Text of stderr (zero-cost borrow).
    pub fn stderr_text(&self) -> (r: &str)
        ensures
            r@ == self@.stderr_text,
    {
        self.stderr_shown.text.as_str()
    }

    /// A copy of the text of stdout.
    pub fn stdout_str(&self) -> (r: String)
        ensures
            r@ == self@.stdout_text,
    {
        self.stdout_shown.text.clone()
    }

    /// A copy of the text of stderr.
    pub fn stderr_str(&self) -> (r: String)
        ensures
            r@ == self@.stderr_text,
    {
        self.stderr_shown.text.clone()
    }

    /// Number of lines in stdout.
    pub fn stdout_line_count(&self) -> (r: usize)
        requires
            self.wf(),
        ensures
            r == line_total(self@.stdout),
    {
        line_count_of(&self.stdout, self.stdout_newlines)
    }

    /// Number of lines in stderr.
    pub fn stderr_line_count(&self) -> (r: usize)
        requires
            self.wf(),
        ensures
            r == line_total(self@.stderr),
    {
        line_count_of(&self.stderr, self.stderr_newlines)
    }

    /// Number of display lines for the given output mode.
    ///
    /// This matches the number of `Line` items produced by the ANSI parser: each
    /// `\n` ends a line, and a non-empty trailing segment without `\n` counts as
    /// one more line, but a trailing `\n` also produces an extra empty line.
    pub fn display_line_count(&self, mode: OutputMode) -> (r: usize)
        ensures
            r == display_lines(self@, mode),
    {
        match mode {
            OutputMode::Stdout => shown_line_count(self.stdout_shown.text.as_str()),
            OutputMode::Stderr => shown_line_count(self.stderr_shown.text.as_str()),
            OutputMode::Combined => {
                let text = join_combined(&self.combined);
                shown_line_count(text.as_str())
            },
        }
    }

    /// The output to relay to the next stage (with control sequences removed).
    pub fn relay_bytes(&self, mode: OutputMode) -> (r: Vec<u8>)
        ensures
            r@ == relayed(self@, mode),
    {
        extract_relay_bytes(self, mode)
    }
}

impl Clone for StageOutput {
    fn clone(&self) -> (r: StageOutput)
        ensures
            r@ == self@,
            self.wf() ==> r.wf(),
    {
        StageOutput {
            stdout: copy_bytes(self.stdout.as_slice()),
            stderr: copy_bytes(self.stderr.as_slice()),
            exit_code: self.exit_code,
            combined: copy_lines(&self.combined),
            stdout_shown: self.stdout_shown.clone(),
            stderr_shown: self.stderr_shown.clone(),
            stdout_newlines: self.stdout_newlines,
            stderr_newlines: self.stderr_newlines,
        }
    }
}

/// Number of lines in `bytes`, which hold `count` newlines.
fn line_count_of(bytes: &Vec<u8>, count: usize) -> (r: usize)
    requires
        count == newlines(bytes@),
    ensures
        r == line_total(bytes@),
{
    let n: usize = bytes.len();
    proof {
        lemma_count_at_most(bytes@, 0x0a);
    }
    if n == 0 {
        0
    } else if bytes[n - 1] != 0x0a {
        count + 1
    } else {
        count
    }
}

/// Extract the output stream to relay to the next stage (with control sequences
/// removed).
pub fn extract_relay_bytes(output: &StageOutput, mode: OutputMode) -> (r: Vec<u8>)
    ensures
        r@ == relayed(output@, mode),
{
    match mode {
        OutputMode::Stdout => strip_ansi_sgr_bytes(output.stdout.as_slice()),
        OutputMode::Stderr => strip_ansi_sgr_bytes(output.stderr.as_slice()),
        OutputMode::Combined => {
            let bytes = join_lines(&output.combined);
            strip_ansi_sgr_bytes(bytes.as_slice())
        },
    }
}

// ---------------------------------------------------------------------------
// Facts and laws
// ---------------------------------------------------------------------------

/// Data that comes in pieces leads to the same output as data known all at
/// once, whatever its bytes are and however it is cut: bytes, texts and line
/// indexes alike.
pub proof fn law_append_matches_whole(
    stdout: Seq<u8>,
    stderr: Seq<u8>,
    exit_code: Option<i32>,
    combined: Seq<LineView>,
    more_stdout: Seq<u8>,
    more_stderr: Seq<u8>,
    more_combined: Seq<LineView>,
)
    ensures
        appended(
            whole_output(stdout, stderr, exit_code, combined),
            more_stdout,
            more_stderr,
            more_combined,
        ) == whole_output(
            stdout + more_stdout,
            stderr + more_stderr,
            exit_code,
            combined + more_combined,
        ),
{
}

/// Nothing put out yet is the same as knowing at once that nothing was.
pub proof fn law_empty_is_whole()
    ensures
        empty_output() == whole_output(Seq::empty(), Seq::empty(), None, Seq::empty()),
{
    assert(decode_utf8(Seq::<u8>::empty()) =~= Seq::<char>::empty());
    assert(crate::text::byte_len(Seq::<char>::empty()) == 0);
}

/// A whole output that comes in as one piece, whatever its bytes are, leaves
/// the same output as knowing it at once.
pub proof fn law_one_piece_is_whole(
    stdout: Seq<u8>,
    stderr: Seq<u8>,
    combined: Seq<LineView>,
)
    ensures
        appended(empty_output(), stdout, stderr, combined) == whole_output(
            stdout,
            stderr,
            None,
            combined,
        ),
{
    assert(Seq::<u8>::empty() + stdout =~= stdout);
    assert(Seq::<u8>::empty() + stderr =~= stderr);
    assert(Seq::<LineView>::empty() + combined =~= combined);
}

proof fn lemma_scalar_newlines(c: char)
    ensures
        newlines(encode_scalar(c as u32)) == if c == '\n' {
            1nat
        } else {
            0nat
        },
{
    crate::text::lemma_scalar_bytes(c);
    let e = encode_scalar(c as u32);
    assert forall|i: int| 0 <= i < e.len() implies (e[i] == 0x0a <==> c == '\n') by {}
    reveal_with_fuel(count_of, 5);
}

/// A newline is one byte, and no other character has its byte in it.
pub proof fn lemma_encoded_newlines(s: Seq<char>)
    ensures
        newlines(encode_utf8(s)) == char_count(s, '\n'),
    decreases s.len(),
{
    if s.len() > 0 {
        lemma_scalar_newlines(s[0]);
        lemma_encoded_newlines(s.drop_first());
        lemma_count_concat(encode_scalar(s[0] as u32), encode_utf8(s.drop_first()), 0x0a);
    }
}

/// The number of display lines is the number of lines plus the empty line that
/// a final newline opens. Left out are outputs of which nothing is shown, those
/// in which only control sequences follow the last newline, and those with a
/// newline inside a control sequence.
pub proof fn law_display_count(o: OutputView, mode: OutputMode)
    requires
        mode != OutputMode::Combined,
        valid_utf8(mode_bytes(o, mode)),
        mode_bytes(o, mode).len() < usize::MAX,
        output_text(o, mode) == decode_utf8(mode_bytes(o, mode)),
        ({
            let text = output_text(o, mode);
            text.len() > 0 ==> {
                &&& strip(text).len() > 0
                &&& ends_in_newline(strip(text)) ==> ends_in_newline(text)
                &&& char_count(strip(text), '\n') == char_count(text, '\n')
            }
        }),
    ensures
        display_lines(o, mode) == line_total(mode_bytes(o, mode)) + if mode_bytes(o, mode).len() > 0
            && mode_bytes(o, mode).last() == 0x0a {
            1int
        } else {
            0int
        },
{
    let bytes = mode_bytes(o, mode);
    let text = decode_utf8(bytes);
    vstd::utf8::decode_utf8_encode_utf8(bytes);
    lemma_count_at_most(bytes, 0x0a);
    lemma_encoded_newlines(text);
    crate::text::lemma_byte_len_at_least(text);
    if bytes.len() > 0 {
        if text.len() == 0 {
            assert(encode_utf8(text) =~= Seq::<u8>::empty());
        }
        law_line_count(text, usize::MAX as int, Map::empty());
    } else {
        assert(text =~= Seq::<char>::empty());
        law_no_lines(usize::MAX as int, Map::empty());
    }
}

} // verus!

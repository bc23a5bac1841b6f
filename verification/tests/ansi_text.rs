use std::collections::HashMap;

use pipe_explorer::ansi::{strip_ansi_sgr, strip_ansi_sgr_bytes};
use pipe_explorer::ansi_lines::ansi_text_to_lines_with_highlights;
use pipe_explorer::style::Color;

#[test]
fn ansi_strip_ansi_removes_sgr_sequences() {
    let input = "\u{1b}[31mred\u{1b}[0m plain \u{1b}[1;34mbold-blue\u{1b}[0m";
    let output = strip_ansi_sgr(input);
    assert_eq!(output, "red plain bold-blue");
}

#[test]
fn ansi_strip_ansi_preserves_newlines() {
    let input = "first\n\u{1b}[32msecond\u{1b}[0m\nthird";
    let output = strip_ansi_sgr(input);
    assert_eq!(output, "first\nsecond\nthird");
}

#[test]
fn ansi_strip_ansi_bytes_removes_escape_sequences() {
    let input = b"\x1b[31mhello\x1b[0m\n";
    let output = strip_ansi_sgr_bytes(input);
    assert_eq!(output, b"hello\n");
}

#[test]
fn ansi_highlight_preserves_text_and_applies_background() {
    let input = "\x1b[31merror\x1b[0m ok";
    let mut highlights: HashMap<usize, Vec<(usize, usize, bool)>> = HashMap::new();
    highlights.insert(0, vec![(0, 5, true)]);

    let lines = ansi_text_to_lines_with_highlights(input, &highlights);
    assert_eq!(lines.len(), 1);
    let combined = lines[0]
        .spans
        .iter()
        .map(|s| s.content.as_str())
        .collect::<String>();
    assert_eq!(combined, "error ok");
    assert!(
        lines[0]
            .spans
            .iter()
            .any(|s| s.style.bg == Some(Color::Yellow))
    );
    assert!(
        lines[0]
            .spans
            .iter()
            .any(|s| s.style.fg == Some(Color::Black))
    );
}

use std::collections::HashMap;

use pipe_explorer::ansi::{
    apply_sgr_sequence, color_from_basic_ansi, highlight_kind_for_range, parse_ansi_number,
    strip_ansi_sgr, strip_ansi_sgr_bytes, style_with_highlight, AnsiLineIndex, AnsiStyleState,
    HighlightKind,
};
use pipe_explorer::ansi_lines::{
    ansi_text_to_lines, ansi_text_to_lines_with_highlights, ansi_text_to_visible_lines,
};
use pipe_explorer::style::{Color, Line, Style};

const SAMPLE: &str = "\u{1b}[31mred\nstill \u{1b}[1mbold\u{1b}[0m\n\nplain é│\n\u{1b}[44mblue";

fn text_of(line: &Line) -> String {
    line.spans.iter().map(|s| s.content.as_str()).collect()
}

fn shape(lines: &[Line]) -> Vec<Vec<(String, Style)>> {
    lines
        .iter()
        .map(|l| l.spans.iter().map(|s| (s.content.clone(), s.style)).collect())
        .collect()
}

fn state(params: &[&str]) -> AnsiStyleState {
    let mut s = AnsiStyleState::default();
    for p in params {
        apply_sgr_sequence(p, &mut s);
    }
    s
}

#[test]
fn stripping_piece_by_piece() {
    let (a, b) = SAMPLE.split_at(13);
    assert_eq!(
        strip_ansi_sgr(SAMPLE),
        format!("{}{}", strip_ansi_sgr(a), strip_ansi_sgr(b))
    );
    assert_eq!(strip_ansi_sgr(SAMPLE), "red\nstill bold\n\nplain é│\nblue");
}

#[test]
fn stripping_a_cut_sequence_leaves_its_parts() {
    assert_eq!(strip_ansi_sgr("\u{1b}[3"), "\u{1b}[3");
    assert_eq!(strip_ansi_sgr("1mx"), "1mx");
    assert_eq!(strip_ansi_sgr("\u{1b}[31mx"), "x");
}

#[test]
fn stripping_bytes_piece_by_piece() {
    let whole = strip_ansi_sgr_bytes(b"\x1b[1mone\x1b[0m\n\x1b[Ktwo\n");
    let mut parts = strip_ansi_sgr_bytes(b"\x1b[1mone\x1b[0m\n");
    parts.extend(strip_ansi_sgr_bytes(b"\x1b[Ktwo\n"));
    assert_eq!(whole, parts);
    assert_eq!(whole, b"one\ntwo\n");
}

#[test]
fn text_and_bytes_end_a_sequence_differently() {
    // '~' ends a sequence of bytes, but only a letter ends one of text.
    assert_eq!(strip_ansi_sgr_bytes(b"\x1b[3~x"), b"x");
    assert_eq!(strip_ansi_sgr("\u{1b}[3~xy"), "y");
}

#[test]
fn text_and_bytes_agree_on_well_formed_sequences() {
    for text in ["\u{1b}[31mré\u{1b}d\u{1b}[0;1mK│\u{1b}", "\u{1b}[ ?25hé[m", ""] {
        assert_eq!(strip_ansi_sgr_bytes(text.as_bytes()), strip_ansi_sgr(text).into_bytes());
    }
    assert_eq!(strip_ansi_sgr("\u{1b}[31mré\u{1b}d\u{1b}[0;1mK│"), "ré\u{1b}dK│");
}

#[test]
fn plain_text_is_not_stripped() {
    assert_eq!(strip_ansi_sgr("a[31mb é"), "a[31mb é");
    assert_eq!(strip_ansi_sgr_bytes(&[0xff, 0x5b, 0x6d]), vec![0xff, 0x5b, 0x6d]);
    assert_eq!(strip_ansi_sgr("\u{1b}x"), "\u{1b}x");
}

#[test]
fn index_that_grew_is_index_of_whole() {
    let mut grown = AnsiLineIndex::new();
    grown.extend(&SAMPLE[..5]);
    grown.extend(&SAMPLE[..14]);
    grown.extend(SAMPLE);
    let mut whole = AnsiLineIndex::new();
    whole.extend(SAMPLE);
    assert_eq!(grown.offsets, whole.offsets);
    assert_eq!(grown.styles, whole.styles);
    assert_eq!(grown.scanned_up_to, whole.scanned_up_to);
    assert_eq!(grown.trailing_style, whole.trailing_style);
    assert_eq!(whole.line_count(), 5);
    // reading it again changes nothing
    grown.extend(SAMPLE);
    assert_eq!(grown.offsets, whole.offsets);
}

#[test]
fn index_cut_inside_a_sequence_misses_it() {
    let mut grown = AnsiLineIndex::new();
    grown.extend("\u{1b}[3");
    grown.extend("\u{1b}[31m\nx");
    let mut whole = AnsiLineIndex::new();
    whole.extend("\u{1b}[31m\nx");
    assert_eq!(whole.styles[1].fg, Some(Color::Red));
    assert_eq!(grown.styles[1].fg, None);
}

#[test]
fn jumping_by_index_shows_what_reading_shows() {
    let mut index = AnsiLineIndex::new();
    index.extend(SAMPLE);
    let mut marks = HashMap::new();
    marks.insert(3, vec![(2, 5, true), (6, 8, false)]);
    for start in 0..7 {
        let read = ansi_text_to_visible_lines(SAMPLE, start, 2, &marks, None);
        let jumped = ansi_text_to_visible_lines(SAMPLE, start, 2, &marks, Some(&index));
        assert_eq!(shape(&read), shape(&jumped), "from line {}", start);
    }
}

#[test]
fn styling_changes_no_text() {
    let mut marks = HashMap::new();
    marks.insert(1, vec![(1, 7, false)]);
    let lines = ansi_text_to_lines_with_highlights(SAMPLE, &marks);
    let joined: Vec<String> = lines.iter().map(text_of).collect();
    assert_eq!(joined.join("\n"), strip_ansi_sgr(SAMPLE));
    assert_eq!(lines.len(), 5);
}

#[test]
fn an_empty_line_of_sequences_is_not_shown() {
    assert_eq!(ansi_text_to_lines("a\n\u{1b}[0m").len(), 1);
    assert_eq!(ansi_text_to_lines("a\n").len(), 2);
    assert_eq!(ansi_text_to_lines("").len(), 0);
    assert_eq!(ansi_text_to_lines("\u{1b}[0m").len(), 0);
}

#[test]
fn a_window_is_part_of_the_whole() {
    let all = ansi_text_to_lines(SAMPLE);
    let none = HashMap::new();
    for start in 0..7 {
        for rows in 0..7 {
            let window = ansi_text_to_visible_lines(SAMPLE, start, rows, &none, None);
            let from = start.min(all.len());
            let to = (start + rows).min(all.len()).max(from);
            assert_eq!(shape(&window), shape(&all[from..to]));
        }
    }
}

#[test]
fn styles_carry_over_lines() {
    let lines = ansi_text_to_lines(SAMPLE);
    assert_eq!(lines[1].spans[0].style.fg, Some(Color::Red));
    assert!(!lines[1].spans[0].style.bold);
    assert!(lines[1].spans[1].style.bold);
    assert_eq!(lines[4].spans[0].style.bg, Some(Color::Blue));
}

#[test]
fn sgr_codes() {
    assert_eq!(state(&["31"]).fg, Some(Color::Red));
    assert_eq!(state(&["97"]).fg, Some(Color::White));
    assert_eq!(state(&["103"]).bg, Some(Color::LightYellow));
    assert_eq!(state(&["1;31;42"]), AnsiStyleState {
        fg: Some(Color::Red),
        bg: Some(Color::Green),
        bold: true,
    });
    assert_eq!(state(&["1", "22"]).bold, false);
    assert_eq!(state(&["31", "39"]).fg, None);
    assert_eq!(state(&["41", "49"]).bg, None);
    assert_eq!(state(&["31;1", ""]), AnsiStyleState::default());
    assert_eq!(state(&["31", "abc"]), AnsiStyleState::default());
    assert_eq!(state(&["31", ";1"]).fg, None);
    assert_eq!(state(&["31", "70000"]), AnsiStyleState::default());
}

#[test]
fn extended_colours() {
    assert_eq!(state(&["38;5;200"]).fg, Some(Color::Indexed(200)));
    assert_eq!(state(&["48;5;300"]).bg, Some(Color::Indexed(255)));
    assert_eq!(state(&["38;2;1;2;300"]).fg, Some(Color::Rgb(1, 2, 255)));
    assert_eq!(state(&["48;2;9"]).bg, Some(Color::Rgb(9, 0, 0)));
    assert_eq!(state(&["38;5"]).fg, None);
    assert_eq!(state(&["38;7;1"]).bold, true);
    assert_eq!(state(&["38;5;x;1"]), state(&["1"]));
}

#[test]
fn basic_colours_and_numbers() {
    assert_eq!(color_from_basic_ansi(37), Some(Color::Gray));
    assert_eq!(color_from_basic_ansi(38), None);
    assert_eq!(parse_ansi_number(Some("+12")), Some(12));
    assert_eq!(parse_ansi_number(Some("65535")), Some(65535));
    assert_eq!(parse_ansi_number(Some("65536")), None);
    assert_eq!(parse_ansi_number(Some("-1")), None);
    assert_eq!(parse_ansi_number(Some("")), None);
    assert_eq!(parse_ansi_number(None), None);
}

#[test]
fn marks() {
    let mut marks = HashMap::new();
    marks.insert(2, vec![(0, 3, false), (2, 5, true)]);
    assert_eq!(highlight_kind_for_range(&marks, 1, 0, 9), HighlightKind::Plain);
    assert_eq!(highlight_kind_for_range(&marks, 2, 1, 2), HighlightKind::Other);
    assert_eq!(highlight_kind_for_range(&marks, 2, 2, 3), HighlightKind::Current);
    assert_eq!(highlight_kind_for_range(&marks, 2, 5, 6), HighlightKind::Plain);
    let base = state(&["31"]);
    let other = style_with_highlight(base, HighlightKind::Other);
    assert_eq!((other.fg, other.bg, other.bold), (Some(Color::Black), Some(Color::Gray), false));
    let current = style_with_highlight(base, HighlightKind::Current);
    assert_eq!(
        (current.fg, current.bg, current.bold),
        (Some(Color::Black), Some(Color::Yellow), true)
    );
    assert_eq!(style_with_highlight(base, HighlightKind::Plain), base.as_style());
}

#[test]
fn shown_lines_are_the_lines_of_the_stripped_text() {
    let plain = strip_ansi_sgr(SAMPLE);
    let expected: Vec<&str> = plain.split('\n').collect();
    let shown: Vec<String> = ansi_text_to_lines(SAMPLE).iter().map(text_of).collect();
    assert_eq!(shown, expected);
}

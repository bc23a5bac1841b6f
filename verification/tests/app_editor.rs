use pipe_explorer::editor::{
    compute_editor_scroll, word_left_pos, word_right_pos, EditorState,
};
use pipe_explorer::keys::{KeyCode, KeyEvent, KeyModifiers};

/// Reads a description of a text and of two byte offsets into it: the column of
/// the `^` in each of the two other texts. Returns the text, the part of it in
/// front of or behind the first offset, whichever holds the second one, and the
/// offsets.
fn parse_pointer_description<'a>(
    description: &'a str,
    cursor_before: &'a str,
    cursor_after: &'a str,
) -> (&'a str, &'a str, usize, usize) {
    // Make sure it's on a single line
    assert!(description.lines().count() == 1);
    let before_caret = cursor_before
        .find('^')
        .expect("cursor_before must contain '^'");
    let after_caret = cursor_after
        .find('^')
        .expect("cursor_after must contain '^'");
    assert!(
        before_caret < description.len() + 1,
        "cursor_before '^' must be within description"
    );
    assert!(
        after_caret < description.len() + 1,
        "cursor_after '^' must be within description"
    );
    // Include final character
    if before_caret == after_caret {
        (description, "", before_caret, after_caret)
    } else if after_caret < before_caret {
        (
            description,
            &description[0..before_caret],
            before_caret,
            after_caret,
        )
    } else {
        (
            description,
            &description[before_caret..],
            before_caret,
            after_caret,
        )
    }
}

fn assert_cursor(text: &str, cursor_expected: usize, cursor_actual: usize) {
    assert_eq!(
        cursor_expected, cursor_actual,
        "cursor in \"{}\" is not where it was expected",
        text
    );
}

#[test]
fn app_test_parse_pointer_description_goes_to_left() {
    let (text, input, before, after) = parse_pointer_description(
        "hello world",
        "    ^      ",
        " ^         ",
    );
    assert_eq!(text, "hello world");
    assert_eq!(input, "hell");
    assert_eq!(before, 4);
    assert_eq!(after, 1);
}

#[test]
fn app_test_parse_pointer_description_goes_to_right() {
    let (text, input, before, after) = parse_pointer_description(
        "hello world",
        "   ^       ",
        "     ^     ",
    );
    assert_eq!(text, "hello world");
    assert_eq!(input, "lo world");
    assert_eq!(before, 3);
    assert_eq!(after, 5);
}

#[test]
fn app_test_parse_pointer_no_change() {
    let (text, input, before, after) = parse_pointer_description(
        "hello world",
        "    ^      ",
        "    ^      ",
    );
    assert_eq!(text, "hello world");
    assert_eq!(input, "");
    assert_eq!(before, 4);
    assert_eq!(after, 4);
}

#[test]
fn app_test_editor_scroll_cursor_in_view() {
    // Cursor at col 3, inner_width = 10: no scroll needed.
    assert_eq!(compute_editor_scroll(0, "hel", 10), 0);
}

#[test]
fn app_test_editor_scroll_cursor_past_right_edge() {
    // inner_width = 5; cursor at col 7 → scroll_x must become 3.
    assert_eq!(compute_editor_scroll(0, "0123456", 5), 3);
}

#[test]
fn app_test_editor_scroll_cursor_before_left_edge() {
    // scroll_x is 5, cursor at col 2 → scroll snaps back.
    assert_eq!(compute_editor_scroll(5, "01", 5), 2);
}

#[test]
fn app_test_editor_scroll_no_change_when_visible() {
    // scroll_x = 3, inner_width = 5, cursor at col 4: 3 <= 4 < 8, no change.
    assert_eq!(compute_editor_scroll(3, "0123", 5), 3);
}

#[test]
fn app_test_editor_scroll_zero_inner_width() {
    // Should return current scroll unchanged (no-op).
    assert_eq!(compute_editor_scroll(0, "hello", 0), 0);
}

#[test]
fn app_test_word_left_from_middle_of_word() {
    let (text, input, _before, after) = parse_pointer_description(
        "hello world",
        "         ^ ",
        "      ^    ",
    );
    assert_cursor(text, after, word_left_pos(input));
}

#[test]
fn app_test_word_left_with_trailing_whitespace() {
    let (text, input, _before, after) = parse_pointer_description(
        "hello world ",
        "           ^",
        "      ^     ",
    );
    assert_cursor(text, after, word_left_pos(input));
}

#[test]
fn app_test_word_left_from_start_of_word() {
    let (text, input, _before, after) = parse_pointer_description(
        "hello world",
        "     ^",
        "^     "
    );
    assert_cursor(text, after, word_left_pos(input));
}

#[test]
fn app_test_word_left_at_beginning() {
    let (text, input, _before, after) = parse_pointer_description(
        "hello world",
        "^          ",
        "^          ",
    );
    assert_cursor(text, after, word_left_pos(input));
}

#[test]
fn app_test_word_left_only_whitespace() {
    let (text, input, _before, after) = parse_pointer_description(
        "           ",
        "        ^  ",
        "^          ",
    );
    assert_cursor(text, after, word_left_pos(input));
}

#[test]
fn app_test_word_right_from_start_of_word() {
    let (text, input, before, after) = parse_pointer_description(
        "hello world",
        "^          ",
        "      ^     ",
    );
    assert_cursor(text, after, before + word_right_pos(input));
}

#[test]
fn app_test_word_right_from_whitespace() {
    let (text, input, before, after) = parse_pointer_description(
        "hello world ",
        "      ^     ",
        "            ^",
    );
    assert_cursor(text, after, before + word_right_pos(input));
}

#[test]
fn app_test_word_right_at_last_word() {
    let (text, input, before, after) = parse_pointer_description(
        "hello world",
        "      ^    ",
        "           ^",
    );
    assert_cursor(text, after, before + word_right_pos(input));
}

#[test]
fn app_test_word_right_at_end() {
    let (text, input, before, after) = parse_pointer_description(
        "hello world",
        "           ^",
        "           ^",
    );
    assert_cursor(text, after, before + word_right_pos(input));
}

#[test]
fn app_test_word_right_only_whitespace() {
    let (text, input, before, after) = parse_pointer_description(
        "           ",
        "  ^        ",
        "           ^",
    );
    assert_cursor(text, after, before + word_right_pos(input));
}

#[test]
fn app_test_editor_ctrl_left_jumps_to_word_start() {
    let (text, _input, before, after) = parse_pointer_description(
        "hello world",
        "           ^",
        "      ^     ",
    );
    let mut editor = EditorState::new(text.to_string());
    editor.cursor = before;
    let key = KeyEvent::new(KeyCode::Left, KeyModifiers::control());
    editor.handle_key(key);
    assert_eq!(editor.cursor, after);
}

#[test]
fn app_test_editor_ctrl_right_jumps_to_next_word_start() {
    let (text, _input, before, after) = parse_pointer_description(
        "hello world",
        "^          ",
        "      ^     ",
    );
    let mut editor = EditorState::new(text.to_string());
    editor.cursor = before;
    let key = KeyEvent::new(KeyCode::Right, KeyModifiers::control());
    editor.handle_key(key);
    assert_eq!(editor.cursor, after);
}

#[test]
fn app_test_editor_ctrl_left_at_beginning_stays() {
    let (text, _input, before, after) = parse_pointer_description(
        "hello world",
        "^          ",
        "^           ",
    );
    let mut editor = EditorState::new(text.to_string());
    editor.cursor = before;
    let key = KeyEvent::new(KeyCode::Left, KeyModifiers::control());
    editor.handle_key(key);
    assert_eq!(editor.cursor, after);
}

#[test]
fn app_test_editor_ctrl_right_at_end_stays() {
    let (text, _input, before, after) = parse_pointer_description(
        "hello world",
        "           ^",
        "           ^",
    );
    let mut editor = EditorState::new(text.to_string());
    editor.cursor = before;
    let key = KeyEvent::new(KeyCode::Right, KeyModifiers::control());
    editor.handle_key(key);
    assert_eq!(editor.cursor, after);
}

#[test]
fn app_test_editor_backspace_multibyte_char() {
    // '│' is a 3-byte UTF-8 character (U+2502, bytes E2 94 82).
    // Cursor placed right after it; backspace should remove the whole character.
    let mut editor = EditorState::new("a│b".to_string());
    // cursor after '│': 'a' = 1 byte, '│' = 3 bytes → byte offset 4
    editor.cursor = 4;
    let key = KeyEvent::new(KeyCode::Backspace, KeyModifiers::none());
    editor.handle_key(key);
    assert_eq!(editor.content, "ab");
    assert_eq!(editor.cursor, 1);
}

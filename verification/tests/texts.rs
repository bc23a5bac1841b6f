use pipe_explorer::caret::{left_of, right_of, word_left_pos, word_right_pos};
use pipe_explorer::editor::{
    compute_editor_scroll, editor_inner_width, EditorKeyResult, EditorState,
};
use pipe_explorer::history::{History, MAX_ENTRIES};
use pipe_explorer::keys::{KeyCode, KeyEvent, KeyModifiers};
use pipe_explorer::number::{parse_u32, push_decimal, push_signed};
use pipe_explorer::options::{GlobalDefaults, StageOverrides};
use pipe_explorer::pipeline::{
    can_split, join_shell_args, parse_pipeline, separators_overlap, shell_quote,
    split_pipeline_stages, PipeStage, Pipeline,
};
use pipe_explorer::search::{collect_matches, count_before, SearchHistory, SearchState};
use pipe_explorer::text_tools::{lines_of, remove_pair, strip_prefix, trim};

fn strings(v: &[&str]) -> Vec<String> {
    v.iter().map(|s| s.to_string()).collect()
}

fn commands(p: &Pipeline) -> Vec<String> {
    p.stages.iter().map(|s| s.command.clone()).collect()
}

fn press(e: &mut EditorState, code: KeyCode) -> EditorKeyResult {
    e.handle_key(KeyEvent::new(code, KeyModifiers::none()))
}

fn control(e: &mut EditorState, c: char) -> EditorKeyResult {
    e.handle_key(KeyEvent::new(KeyCode::Char(c), KeyModifiers::control()))
}

// --- plain text ---

#[test]
fn trimming() {
    for s in ["", "  ", " a b\t\n", "x", "\u{a0}y\u{2003}", "\u{200b}z"] {
        assert_eq!(trim(s), s.trim());
    }
}

#[test]
fn lines_of_texts() {
    for s in ["", "a", "a\n", "a\n\nb", "a\r\nb\r", "\n", "\r\n", "x\r\r\ny"] {
        let expected: Vec<&str> = s.lines().collect();
        assert_eq!(lines_of(s), expected, "{:?}", s);
    }
}

#[test]
fn pairs_are_removed_from_the_left() {
    assert_eq!(remove_pair("a\\cb\\c", '\\', 'c'), ("ab".to_string(), true));
    assert_eq!(remove_pair("\\\\cc", '\\', 'c'), ("\\c".to_string(), true));
    assert_eq!(remove_pair("\\", '\\', 'c'), ("\\".to_string(), false));
    assert_eq!(remove_pair("é\\C", '\\', 'c'), ("é\\C".to_string(), false));
}

#[test]
fn prefixes() {
    assert_eq!(strip_prefix("héllo", "hé"), Some("llo"));
    assert_eq!(strip_prefix("h", "hé"), None);
    assert_eq!(strip_prefix("x", ""), Some("x"));
}

#[test]
fn numbers() {
    let mut s = String::new();
    push_decimal(&mut s, 0);
    push_decimal(&mut s, 1090);
    push_decimal(&mut s, u64::MAX);
    push_signed(&mut s, -5);
    push_signed(&mut s, i32::MIN);
    assert_eq!(s, "0109018446744073709551615-5-2147483648");
    assert_eq!(parse_u32("007", 10), Some(7));
    assert_eq!(parse_u32("11", 10), None);
    assert_eq!(parse_u32("99999999999999999999", u32::MAX), None);
}

// --- editor ---

#[test]
fn yanking_restores_what_was_cut() {
    let mut e = EditorState::new("één twee".to_string());
    e.cursor = 5;
    assert_eq!(control(&mut e, 'u'), EditorKeyResult::Handled);
    assert_eq!((e.content.as_str(), e.cursor), (" twee", 0));
    control(&mut e, 'y');
    assert_eq!((e.content.as_str(), e.cursor), ("één twee", 5));
    control(&mut e, 'k');
    assert_eq!((e.content.as_str(), e.cut_buffer.as_str()), ("één", " twee"));
    control(&mut e, 'y');
    assert_eq!((e.content.as_str(), e.cursor), ("één twee", 10));
}

#[test]
fn moving_and_deleting() {
    let mut e = EditorState::new("a│b".to_string());
    press(&mut e, KeyCode::Left);
    assert_eq!(e.cursor, 4);
    press(&mut e, KeyCode::Left);
    assert_eq!(e.cursor, 1);
    press(&mut e, KeyCode::Right);
    assert_eq!(e.cursor, 4);
    press(&mut e, KeyCode::Home);
    press(&mut e, KeyCode::Left);
    press(&mut e, KeyCode::Backspace);
    assert_eq!((e.content.as_str(), e.cursor), ("a│b", 0));
    press(&mut e, KeyCode::Delete);
    press(&mut e, KeyCode::Delete);
    assert_eq!((e.content.as_str(), e.cursor), ("b", 0));
    press(&mut e, KeyCode::End);
    press(&mut e, KeyCode::Right);
    press(&mut e, KeyCode::Delete);
    press(&mut e, KeyCode::Char('é'));
    assert_eq!((e.content.as_str(), e.cursor), ("bé", 3));
    press(&mut e, KeyCode::Backspace);
    assert_eq!((e.content.as_str(), e.cursor), ("b", 1));
    control(&mut e, 'a');
    assert_eq!(e.cursor, 0);
    control(&mut e, 'e');
    assert_eq!(e.cursor, 1);
}

#[test]
fn keys_left_to_the_caller() {
    let mut e = EditorState::new("x".to_string());
    for code in [KeyCode::Enter, KeyCode::Esc, KeyCode::Tab, KeyCode::Up, KeyCode::Other] {
        assert_eq!(press(&mut e, code), EditorKeyResult::Unhandled);
    }
    assert_eq!(control(&mut e, 'x'), EditorKeyResult::Unhandled);
    assert_eq!((e.content.as_str(), e.cursor), ("x", 1));
    let alt = KeyEvent::new(KeyCode::Char('y'), KeyModifiers::alt());
    assert_eq!(e.handle_key(alt), EditorKeyResult::Handled);
    assert_eq!(e.content, "xy");
}

#[test]
fn positions_in_text() {
    assert_eq!(left_of("a│", 4), 1);
    assert_eq!(left_of("a│", 0), 0);
    assert_eq!(right_of("a│", 1), 4);
    assert_eq!(right_of("a│", 4), 4);
    assert_eq!(word_left_pos("één  twee  "), 7);
    assert_eq!(word_right_pos("één  twee"), 7);
}

#[test]
fn the_cursor_stays_in_view() {
    let mut e = EditorState::new("0123456789".to_string());
    e.update_scroll(4);
    assert_eq!(e.scroll_x, 7);
    e.update_scroll(4);
    assert_eq!(e.scroll_x, 7);
    e.cursor = 2;
    e.update_scroll(4);
    assert_eq!(e.scroll_x, 2);
    e.update_scroll(0);
    assert_eq!(e.scroll_x, 2);
    assert_eq!(compute_editor_scroll(usize::MAX, "ab", 5), 2);
}

#[test]
fn dialog_widths() {
    assert_eq!(editor_inner_width(80, 120), 74);
    assert_eq!(editor_inner_width(200, 120), 118);
    assert_eq!(editor_inner_width(5, 120), 0);
    assert_eq!(editor_inner_width(0, 60), 0);
}

// --- pipeline ---

#[test]
fn quoting() {
    assert_eq!(shell_quote("plain-1.txt"), "plain-1.txt");
    assert_eq!(shell_quote(""), "''");
    assert_eq!(shell_quote("a b"), "'a b'");
    assert_eq!(shell_quote("it's"), "'it'\\''s'");
    assert_eq!(shell_quote("é"), "'é'");
    assert_eq!(join_shell_args(&strings(&["echo", "a b", "$x"])), "echo 'a b' '$x'");
    assert_eq!(join_shell_args(&[]), "");
    assert_eq!(join_shell_args(&strings(&["", "it's", "-n"])), "'' 'it'\\''s' -n");
}

#[test]
fn splitting() {
    assert_eq!(split_pipeline_stages("a | b|c | d"), vec!["a", "b|c", "d"]);
    assert_eq!(split_pipeline_stages("a '|' b \" | \" c"), vec!["a '|' b \" | \" c"]);
    assert_eq!(split_pipeline_stages("a \\' | b"), vec!["a \\'", "b"]);
    assert_eq!(split_pipeline_stages("a \\\\' | b' | c"), vec!["a \\\\'", "b' | c"]);
    assert_eq!(split_pipeline_stages("é | ü"), vec!["é", "ü"]);
    assert_eq!(split_pipeline_stages(" | x | "), vec!["", "x", ""]);
    assert_eq!(split_pipeline_stages("| x |"), vec!["| x |"]);
    for line in ["a | b | c", "x", "a 'b | c' | d", " | "] {
        assert_eq!(split_pipeline_stages(line).join(" | "), line);
    }
}

#[test]
fn overlapping_separators() {
    assert!(separators_overlap("a | | b"));
    assert!(!separators_overlap("a |  | b"));
    assert!(!separators_overlap("a ' | | ' b"));
    assert!(!separators_overlap(""));
    assert!(can_split("a | b") && can_split(" | ") && !can_split("a | | b"));
}

#[test]
fn stages_from_arguments() {
    let args = ["echo", "hello world", "|", "wc", "-l"];
    let p = Pipeline::from_commands(strings(&args), false);
    assert_eq!(commands(&p), strings(&["echo 'hello world'", "wc -l"]));
    assert_eq!(p.selected, 0);
    let args = ["find", ".", "-name", "*.rs", "|", "wc", "-l"];
    let p = Pipeline::from_commands(strings(&args), false);
    assert_eq!(commands(&p), strings(&["find . -name '*.rs'", "wc -l"]));
    let p = Pipeline::from_commands(strings(&["find . -name '*.rs' | wc -l"]), true);
    assert_eq!(commands(&p), strings(&["find . -name '*.rs'", "wc -l"]));
    let p = Pipeline::from_commands(strings(&["|", " | ", "x"]), false);
    assert_eq!(commands(&p), strings(&["", "", "x"]));
    let p = Pipeline::from_commands(strings(&["a |  | b", "c | d"]), true);
    assert_eq!(commands(&p), strings(&["a", "b", "c", "d"]));
    let p = Pipeline::from_commands(strings(&["a", "|", "b"]), true);
    assert_eq!(commands(&p), strings(&["a", "", "b"]));
    assert!(Pipeline::from_commands(vec![], true).is_empty());
    assert!(Pipeline::from_commands(strings(&["  "]), true).is_empty());
}

#[test]
fn inserting_and_removing() {
    let mut p = parse_pipeline("a | b | c");
    p.select_next();
    p.insert_before_selected();
    assert_eq!(commands(&p), strings(&["a", "", "b", "c"]));
    assert_eq!(p.selected, 1);
    p.remove_selected();
    assert_eq!(commands(&p), strings(&["a", "b", "c"]));
    p.insert_after_selected();
    assert_eq!(p.selected, 2);
    p.remove_selected();
    assert_eq!(commands(&p), strings(&["a", "b", "c"]));
    p.remove_selected();
    assert_eq!(p.selected, 1);
    p.remove_selected();
    p.remove_selected();
    p.remove_selected();
    assert!(p.is_empty());
    assert_eq!(p.selected, 0);
    assert!(p.selected_stage().is_none());
    assert!(p.selected_stage_mut().is_none());
    p.insert_after_selected();
    assert_eq!((p.len(), p.selected), (1, 0));
}

#[test]
fn the_selected_stage_can_be_changed() {
    let mut p = parse_pipeline("a | b");
    p.select_next();
    p.select_next();
    p.selected_stage_mut().unwrap().command = "x".to_string();
    assert_eq!(p.commands(), strings(&["a", "x"]));
    assert_eq!(p.clone().selected_stage().unwrap().command, "x");
    p.select_prev();
    assert_eq!(p.selected, 0);
}

#[test]
fn options_of_a_stage() {
    let mut defaults = GlobalDefaults::default();
    let mut stage = PipeStage::new("x".to_string());
    assert!(!stage.overrides.has_overrides());
    assert!(!stage.overrides.resolve(&defaults).interactive);
    defaults.interactive = true;
    defaults.shell = Some("zsh".to_string());
    assert!(stage.overrides.resolve(&defaults).interactive);
    assert_eq!(stage.overrides.resolve(&defaults).shell, Some("zsh".to_string()));
    stage.overrides.interactive = Some(false);
    assert!(stage.overrides.has_overrides());
    assert!(!stage.overrides.resolve(&defaults).interactive);
    stage.overrides = StageOverrides { interactive: None, shell: Some("fish".to_string()) };
    assert_eq!(stage.clone().overrides.resolve(&defaults).shell, Some("fish".to_string()));
}

// --- history ---

#[test]
fn history_time_and_order() {
    let mut h = History::default();
    h.add_at(&strings(&["a"]), 10);
    h.add_at(&strings(&["b", "c"]), 20);
    h.add_at(&strings(&["a"]), 30);
    assert_eq!(h.entries.len(), 2);
    assert_eq!(h.get(0).unwrap().timestamp, 30);
    assert_eq!(h.get(1).unwrap().commands, strings(&["b", "c"]));
    assert!(h.get(2).is_none());
    assert_eq!(h.display(), "   1  a\n   2  b | c\n");
    assert!(h.remove(0));
    assert!(!h.remove(1));
    assert_eq!(h.display(), "   1  b | c\n");
}

#[test]
fn history_uses_the_clock() {
    let mut h = History::default();
    h.add(&strings(&["a"]));
    // some time after this was written
    assert!(h.entries[0].timestamp > 1_700_000_000);
}

#[test]
fn history_limit() {
    let mut h = History::default();
    for i in 0..MAX_ENTRIES + 5 {
        h.add_at(&vec![format!("cmd {}", i)], i as u64);
    }
    assert_eq!(h.entries.len(), MAX_ENTRIES);
    assert_eq!(h.entries[0].commands, vec![format!("cmd {}", MAX_ENTRIES + 4)]);
    assert_eq!(h.entries[MAX_ENTRIES - 1].commands, vec!["cmd 5".to_string()]);
    assert!(h.display().contains("\n  100  cmd 105\n"));
}

#[test]
fn history_path() {
    let some = |s: &str| Some(s.to_string());
    assert_eq!(
        History::path(some("/home/me"), some("C:")),
        some("/home/me/.pipe-explorer/history.json")
    );
    assert_eq!(History::path(None, some("/p/")), some("/p/.pipe-explorer/history.json"));
    assert_eq!(History::path(None, None), None);
}

// --- search ---

fn found(query: &str, content: &str) -> Vec<(usize, usize, usize)> {
    let mut s = SearchState::empty();
    s.query = query.to_string();
    s.compute(content);
    assert_eq!(s.match_idx, 0);
    s.matches
}

#[test]
fn matches_are_in_order() {
    assert_eq!(
        found("a+", "aa b a\nc\né aaa\r\n"),
        vec![(0, 0, 2), (0, 5, 6), (2, 3, 6)]
    );
    assert_eq!(found("^b", "ab\nb"), vec![(1, 0, 1)]);
    assert_eq!(found("x$", "ax\r\nx\n"), vec![(0, 1, 2), (1, 0, 1)]);
    assert_eq!(found("(", "((("), vec![]);
    assert_eq!(found("\\c", "abc"), vec![]);
    assert_eq!(found("ERROR", "error ERROR"), vec![(0, 6, 11)]);
    assert_eq!(found("ERROR\\c", "error ERROR"), vec![(0, 0, 5), (0, 6, 11)]);
}

#[test]
fn patterns() {
    let parse = |q: &str| SearchState::parse_vim_pattern(q);
    assert_eq!(parse("\\cAb\\c"), ("Ab".to_string(), false));
    assert_eq!(parse("\\Cab"), ("ab".to_string(), true));
    assert_eq!(parse("\\ca\\C"), ("a\\C".to_string(), false));
    assert_eq!(parse("É"), ("É".to_string(), false));
}

#[test]
fn matches_by_line() {
    let lists = vec![vec![(1, 2), (3, 4)], vec![], vec![(0, 1)]];
    let all = collect_matches(&lists);
    assert_eq!(all, vec![(0, 1, 2), (0, 3, 4), (2, 0, 1)]);
    assert_eq!(count_before(&all, 0, false), 0);
    assert_eq!(count_before(&all, 0, true), 2);
    assert_eq!(count_before(&all, 1, false), 2);
    assert_eq!(count_before(&all, 2, true), 3);
    assert_eq!(count_before(&all, 9, false), 3);
    assert_eq!(count_before(&vec![], 0, true), 0);
}

#[test]
fn search_history_walk() {
    let mut h = SearchHistory::default();
    h.push("a");
    h.push("b");
    h.push("c");
    h.push("a");
    assert_eq!(h.len(), 3);
    assert_eq!(h.navigate_up("draft"), Some("a".to_string()));
    assert_eq!(h.navigate_up("a!"), Some("c".to_string()));
    assert_eq!(h.navigate_up("c"), Some("b".to_string()));
    assert_eq!(h.navigate_up("b"), None);
    assert_eq!(h.navigate_down("b"), Some("c".to_string()));
    assert_eq!(h.navigate_down("c"), Some("a!".to_string()));
    assert_eq!(h.revert_current(), Some("a".to_string()));
    assert_eq!(h.navigate_down("a"), Some("draft".to_string()));
    assert_eq!(h.navigate_down("draft"), None);
    assert_eq!(h.navigate_up("again"), Some("a".to_string()));
}

use pipe_explorer::app::{App, AppMode};
use pipe_explorer::editor::EditorState;
use pipe_explorer::executor::output::{CombinedLine, OutputMode, StageOutput};
use pipe_explorer::executor::stream::StreamMsg;
use pipe_explorer::keys::{Event, KeyCode, KeyEvent, KeyModifiers};
use pipe_explorer::pipeline::{parse_pipeline, Pipeline};

fn app(pipeline: &str) -> App {
    App::new(parse_pipeline(pipeline))
}

fn output(stdout: &str) -> StageOutput {
    StageOutput::new(stdout.as_bytes().to_vec(), vec![], Some(0), vec![])
}

fn key(app: &mut App, code: KeyCode) -> bool {
    app.handle_event(Event::Key(KeyEvent::new(code, KeyModifiers::none())))
}

fn ch(app: &mut App, c: char) -> bool {
    key(app, KeyCode::Char(c))
}

fn control(app: &mut App, c: char) -> bool {
    app.handle_event(Event::Key(KeyEvent::new(KeyCode::Char(c), KeyModifiers::control())))
}

fn type_text(app: &mut App, text: &str) {
    for c in text.chars() {
        ch(app, c);
    }
}

fn commands(app: &App) -> Vec<String> {
    app.pipeline.commands()
}

fn texts(v: &[&str]) -> Vec<String> {
    v.iter().map(|s| s.to_string()).collect()
}

#[test]
fn quitting() {
    assert!(ch(&mut app("a"), 'q'));
    assert!(control(&mut app("a"), 'c'));
    assert!(!ch(&mut app("a"), 'c'));
    let mut a = app("a");
    ch(&mut a, ':');
    type_text(&mut a, " quit ");
    assert!(key(&mut a, KeyCode::Enter));
    ch(&mut a, ':');
    ch(&mut a, 'q');
    assert!(key(&mut a, KeyCode::Enter));
}

#[test]
fn help_takes_any_event() {
    let mut a = app("a");
    ch(&mut a, '?');
    assert!(a.show_help);
    assert!(!ch(&mut a, 'q'));
    assert!(!a.show_help);
    ch(&mut a, ':');
    ch(&mut a, 'h');
    assert!(!key(&mut a, KeyCode::Enter));
    assert!(a.show_help);
    assert!(!a.handle_event(Event::Other));
    assert!(!a.show_help);
    assert!(!a.handle_event(Event::Other));
}

#[test]
fn command_completion() {
    let mut a = app("a");
    ch(&mut a, ':');
    ch(&mut a, 'q');
    key(&mut a, KeyCode::Tab);
    match &a.mode {
        AppMode::Command(e) => assert_eq!((e.content.as_str(), e.cursor), ("quit", 4)),
        other => panic!("{:?}", other),
    }
    key(&mut a, KeyCode::Esc);
    ch(&mut a, ':');
    key(&mut a, KeyCode::Tab);
    match &a.mode {
        AppMode::Command(e) => assert_eq!(e.content, "help"),
        other => panic!("{:?}", other),
    }
    ch(&mut a, 'x');
    key(&mut a, KeyCode::Tab);
    match &a.mode {
        AppMode::Command(e) => assert_eq!(e.content, "helpx"),
        other => panic!("{:?}", other),
    }
    assert!(!key(&mut a, KeyCode::Enter));
    assert!(matches!(a.mode, AppMode::Normal));
}

#[test]
fn inserting_stages() {
    let mut a = app("a | b");
    ch(&mut a, 'O');
    assert_eq!(commands(&a), texts(&["", "a", "b"]));
    type_text(&mut a, "first");
    key(&mut a, KeyCode::Enter);
    assert_eq!(commands(&a), texts(&["first", "a", "b"]));
    assert!(a.running);
    ch(&mut a, '|');
    assert_eq!(commands(&a), texts(&["first", "", "a", "b"]));
    key(&mut a, KeyCode::Esc);
    assert_eq!(commands(&a), texts(&["first", "a", "b"]));
    let mut empty = App::new(Pipeline::new(vec![]));
    ch(&mut empty, 'e');
    assert!(matches!(empty.mode, AppMode::Normal));
    ch(&mut empty, 'o');
    type_text(&mut empty, "x");
    key(&mut empty, KeyCode::Enter);
    assert_eq!(commands(&empty), texts(&["x"]));
}

#[test]
fn undo_and_redo_keys() {
    let mut a = app("a | b");
    a.set_output_mode(1, OutputMode::Combined);
    ch(&mut a, 'l');
    key(&mut a, KeyCode::Delete);
    assert_eq!(commands(&a), texts(&["a"]));
    ch(&mut a, 'u');
    assert_eq!(commands(&a), texts(&["a", "b"]));
    assert_eq!(a.pipeline.selected, 1);
    assert_eq!(a.stage_views[1].output_mode, OutputMode::Combined);
    assert!(a.running);
    control(&mut a, 'r');
    assert_eq!(commands(&a), texts(&["a"]));
    assert_eq!((a.undo_stack.len(), a.redo_stack.len()), (1, 0));
    control(&mut a, 'z');
    assert_eq!(commands(&a), texts(&["a", "b"]));
    let shift = KeyModifiers { shift: true, control: true, alt: false };
    a.handle_event(Event::Key(KeyEvent::new(KeyCode::Char('z'), shift)));
    assert_eq!(commands(&a), texts(&["a"]));
    // the only stage, back and forth
    ch(&mut a, 'd');
    assert!(a.pipeline.is_empty() && !a.running && a.stage_outputs.is_empty());
    a.undo();
    a.redo();
    assert!(a.pipeline.is_empty() && !a.running);
}

fn modes(app: &App) -> Vec<OutputMode> {
    app.stage_views.iter().map(|v| v.output_mode).collect()
}

#[test]
fn an_inserted_stage_has_its_own_view() {
    let (stdout, stderr, combined) =
        (OutputMode::Stdout, OutputMode::Stderr, OutputMode::Combined);
    let mut a = app("a | b");
    a.set_output_mode(0, stderr);
    a.set_output_mode(1, combined);
    a.stage_views[1].scroll = 7;
    ch(&mut a, 'O');
    assert_eq!(modes(&a), vec![stdout, stderr, combined]);
    assert_eq!(a.stage_views[2].scroll, 7);
    key(&mut a, KeyCode::Esc);
    assert_eq!(modes(&a), vec![stderr, combined]);
    assert_eq!(a.stage_views[1].scroll, 7);
    ch(&mut a, 'o');
    assert_eq!(modes(&a), vec![stderr, stdout, combined]);
    type_text(&mut a, "new");
    key(&mut a, KeyCode::Enter);
    assert_eq!(commands(&a), texts(&["a", "new", "b"]));
    assert_eq!(a.exec_request.take().unwrap().output_modes, vec![stderr, stdout, combined]);
    // a view that no stage has is not taken over, and missing ones are filled in
    let mut a = app("a | b");
    a.set_output_mode(3, stderr);
    ch(&mut a, 'l');
    ch(&mut a, '|');
    assert_eq!(modes(&a), vec![stdout; 3]);
    let mut a = app("a | b");
    a.stage_views.clear();
    ch(&mut a, 'O');
    assert_eq!(a.stage_views.len(), 3);
    let mut a = App::new(Pipeline::new(vec![]));
    ch(&mut a, 'o');
    assert_eq!(modes(&a), vec![stdout]);
}

#[test]
fn an_edit_run_in_place_can_be_undone() {
    let mut a = app("a");
    ch(&mut a, 'e');
    ch(&mut a, '2');
    key(&mut a, KeyCode::Tab);
    assert_eq!(commands(&a), texts(&["a2"]));
    assert!(matches!(a.mode, AppMode::Editing { .. }));
    assert!(a.exec_request.is_some());
    key(&mut a, KeyCode::Enter);
    ch(&mut a, 'u');
    assert_eq!(commands(&a), texts(&["a"]));
    assert!(a.undo_stack.is_empty());
}

#[test]
fn deletion_is_confirmed_in_the_middle() {
    let mut a = app("a | b");
    ch(&mut a, 'd');
    assert!(matches!(a.mode, AppMode::ConfirmingDelete));
    ch(&mut a, 'n');
    assert!(matches!(a.mode, AppMode::Normal));
    assert_eq!(a.pipeline.len(), 2);
    ch(&mut a, 'd');
    ch(&mut a, 'Y');
    assert_eq!(commands(&a), texts(&["b"]));
}

#[test]
fn a_run_is_requested() {
    let mut a = app("a | b | c");
    ch(&mut a, 'l');
    let q = a.exec_request.take().unwrap();
    assert_eq!(q.commands, texts(&["a", "b", "c"]));
    assert_eq!((q.up_to, q.force), (1, false));
    assert_eq!(q.output_modes, vec![OutputMode::Stdout; 3]);
    assert_eq!(q.interactive_flags, vec![false; 3]);
    assert!(q.pre_fill.is_empty());
    assert_eq!(a.stage_outputs.len(), 2);
    a.global_defaults.interactive = true;
    a.pipeline.stages[0].overrides.interactive = Some(false);
    ch(&mut a, 'r');
    let q = a.exec_request.take().unwrap();
    assert!(q.force);
    assert_eq!(q.interactive_flags, vec![false, true, true]);
    let mut empty = App::new(Pipeline::new(vec![]));
    ch(&mut empty, 'r');
    ch(&mut empty, 'l');
    assert!(empty.exec_request.is_none() && !empty.running);
}

#[test]
fn a_new_stage_goes_on_with_what_is_there() {
    let mut a = app("a | b");
    a.stage_views[0].output_mode = OutputMode::Stderr;
    a.running = true;
    a.stage_outputs = vec![
        StageOutput::new(b"o".to_vec(), b"\x1b[1me".to_vec(), None, vec![]),
        output("p"),
    ];
    a.pipeline.selected = 1;
    ch(&mut a, 'o');
    type_text(&mut a, "c");
    key(&mut a, KeyCode::Enter);
    let q = a.exec_request.take().unwrap();
    assert_eq!(q.up_to, 2);
    assert_eq!(q.pre_fill.len(), 2);
    assert_eq!((q.pre_fill[0].command.as_str(), q.pre_fill[0].stdin.len()), ("a", 0));
    assert_eq!(q.pre_fill[1].command, "b");
    assert_eq!(q.pre_fill[1].stdin, b"e");
    assert_eq!(q.pre_fill[1].output.stdout, b"p");
    // nothing is running: nothing to go on with
    a.running = false;
    ch(&mut a, 'o');
    type_text(&mut a, "d");
    key(&mut a, KeyCode::Enter);
    assert!(a.exec_request.take().unwrap().pre_fill.is_empty());
}

#[test]
fn messages_of_a_run() {
    let mut a = app("a | b");
    a.clock_millis = 500;
    a.handle_stream_msg(StreamMsg::StageUpdate {
        stage_idx: 1,
        new_stdout: b"x\n".to_vec(),
        new_stderr: vec![],
        new_combined: vec![],
    });
    assert_eq!(a.stage_outputs.len(), 2);
    assert_eq!(a.stage_outputs[1].stdout, b"x\n");
    assert_eq!(a.pipeline.stages[1].last_update, Some(500));
    assert_eq!(a.pipeline.stages[0].last_update, None);
    a.handle_stream_msg(StreamMsg::StageDone { stage_idx: 1, exit_code: Some(2) });
    a.handle_stream_msg(StreamMsg::StageDone { stage_idx: 9, exit_code: Some(2) });
    assert_eq!(a.stage_outputs[1].exit_code, Some(2));
    a.running = true;
    a.handle_stream_msg(StreamMsg::AllDone { error: Some("cancelled".to_string()) });
    assert_eq!((a.running, a.error_message.clone()), (false, None));
    a.handle_stream_msg(StreamMsg::AllDone { error: Some("stage 0: no".to_string()) });
    assert_eq!(a.error_message, Some("stage 0: no".to_string()));
    a.trigger_exec(false);
    assert_eq!(a.error_message, None);
}

#[test]
fn paging() {
    let text: String = (0..100).map(|i| format!("{}\n", i)).collect();
    let mut a = app("a");
    a.stage_outputs = vec![output(&text)];
    a.visible_output_lines = 11;
    assert_eq!(a.compute_max_scroll(), 90);
    control(&mut a, 'd');
    assert_eq!(a.view().scroll, 5);
    control(&mut a, 'f');
    key(&mut a, KeyCode::PageDown);
    assert_eq!(a.view().scroll, 27);
    control(&mut a, 'u');
    assert_eq!(a.view().scroll, 22);
    control(&mut a, 'b');
    key(&mut a, KeyCode::PageUp);
    assert_eq!(a.view().scroll, 0);
    key(&mut a, KeyCode::Down);
    ch(&mut a, 'j');
    key(&mut a, KeyCode::Up);
    assert_eq!(a.view().scroll, 1);
    key(&mut a, KeyCode::End);
    assert_eq!(a.view().scroll, 90);
    key(&mut a, KeyCode::Home);
    assert_eq!(a.view().scroll, 0);
    ch(&mut a, 'f');
    assert_eq!(a.view().scroll, 0);
    a.scroll_down(usize::MAX);
    assert_eq!(a.view().scroll, 90);
    ch(&mut a, 'g');
    assert_eq!(a.view().scroll, 0);
}

#[test]
fn the_end_is_the_last_line_that_is_shown() {
    let mut a = app("a");
    for (text, lines) in [("a\n\u{1b}[0m", 1), ("\u{1b}[0m", 0), ("a\n\u{1b}[0mb", 2), ("", 0)] {
        a.stage_outputs = vec![output(text)];
        a.visible_output_lines = 1;
        assert_eq!(a.output_line_count(), lines, "{:?}", text);
        assert_eq!(a.compute_max_scroll(), lines.saturating_sub(1), "{:?}", text);
    }
    a.stage_outputs = vec![output("1\n2\n3\n\u{1b}[0m")];
    a.visible_output_lines = 2;
    key(&mut a, KeyCode::End);
    assert_eq!(a.view().scroll, 1);
}

#[test]
fn one_long_line_is_its_own_end() {
    let mut a = app("a");
    a.stage_outputs = vec![output(&"x".repeat(50))];
    a.visible_output_lines = 2;
    a.visible_output_width = 10;
    assert_eq!(a.compute_max_scroll(), 0);
    a.stage_outputs = vec![output(&format!("short\n{}", "x".repeat(50)))];
    assert_eq!(a.compute_max_scroll(), 1);
    a.visible_output_width = 0;
    assert_eq!(a.compute_max_scroll(), 1);
}

#[test]
fn searching() {
    let mut a = app("a");
    a.stage_outputs = vec![output("\u{1b}[31mone\u{1b}[0m\ntwo\none two\n")];
    ch(&mut a, '/');
    type_text(&mut a, "oné");
    key(&mut a, KeyCode::Backspace);
    key(&mut a, KeyCode::Left);
    key(&mut a, KeyCode::Right);
    ch(&mut a, 'e');
    assert_eq!((a.view().search.query.as_str(), a.view().search.cursor), ("one", 3));
    key(&mut a, KeyCode::Enter);
    assert_eq!(a.view().search.matches, vec![(0, 0, 3), (2, 0, 3)]);
    ch(&mut a, 'n');
    assert_eq!((a.view().search.match_idx, a.view().scroll), (1, 2));
    ch(&mut a, 'p');
    assert_eq!(a.view().search.match_idx, 0);
    ch(&mut a, 'N');
    assert_eq!(a.view().search.match_idx, 1);
    // the history: up, edit, revert, down
    ch(&mut a, '/');
    assert_eq!(a.view().search.query, "");
    ch(&mut a, 't');
    key(&mut a, KeyCode::Up);
    assert_eq!((a.view().search.query.as_str(), a.view().search.cursor), ("one", 3));
    key(&mut a, KeyCode::Home);
    key(&mut a, KeyCode::Delete);
    assert_eq!(a.view().search.query, "ne");
    a.handle_event(Event::Key(KeyEvent::new(KeyCode::Char('r'), KeyModifiers::alt())));
    assert_eq!(a.view().search.query, "one");
    a.handle_event(Event::Key(KeyEvent::new(KeyCode::Char('x'), KeyModifiers::alt())));
    control(&mut a, 'x');
    assert_eq!(a.view().search.query, "one");
    key(&mut a, KeyCode::Down);
    assert_eq!(a.view().search.query, "t");
    key(&mut a, KeyCode::End);
    key(&mut a, KeyCode::Esc);
    assert!(matches!(a.mode, AppMode::Normal));
    assert!(a.view().search.query.is_empty() && a.view().search.matches.is_empty());
}

#[test]
fn streams() {
    let mut a = app("a");
    let lines = vec![
        CombinedLine { is_stderr: false, content: b"out\n".to_vec() },
        CombinedLine { is_stderr: true, content: vec![b'e', 0xff, b'\n'] },
    ];
    a.stage_outputs =
        vec![StageOutput::new(b"out\n".to_vec(), b"err\n".to_vec(), Some(0), lines)];
    assert_eq!(a.current_output_text(), "out\n");
    assert_eq!(a.output_line_count(), 2);
    assert!(a.combined_stderr_map().is_empty());
    ch(&mut a, '2');
    assert!(a.combined_stderr_map().is_empty());
    assert_eq!(a.current_output_text(), "err\n");
    assert!(a.current_line_index().is_some());
    ch(&mut a, 'm');
    assert_eq!(a.view().output_mode, OutputMode::Combined);
    assert_eq!(a.current_output_text(), "out\ne\u{fffd}\n");
    assert!(a.current_line_index().is_none());
    assert_eq!(a.combined_stderr_map(), vec![false, true]);
    assert_eq!(a.output_line_count(), 3);
    ch(&mut a, 'm');
    ch(&mut a, '3');
    ch(&mut a, '1');
    assert_eq!(a.view().output_mode, OutputMode::Stdout);
}

#[test]
fn each_line_has_the_stream_in_which_it_starts() {
    let mut a = app("a");
    let pieces: Vec<(bool, &str)> = vec![
        (false, "one"),
        (true, " more\ntwo\n"),
        (false, ""),
        (false, "three\n\n"),
        (true, "\nlast"),
    ];
    let lines = pieces
        .into_iter()
        .map(|(is_stderr, t)| CombinedLine { is_stderr, content: t.as_bytes().to_vec() })
        .collect();
    a.stage_outputs = vec![StageOutput::new(vec![], vec![], Some(0), lines)];
    ch(&mut a, '3');
    assert_eq!(a.current_output_text(), "one more\ntwo\nthree\n\n\nlast");
    assert_eq!(a.combined_stderr_map(), vec![false, true, false, false, true, true]);
    assert_eq!(a.combined_stderr_map().len(), a.current_output_text().lines().count());
}

#[test]
fn saving() {
    let mut a = app("a");
    a.stage_outputs = vec![output("text\n")];
    ch(&mut a, 's');
    key(&mut a, KeyCode::Enter);
    assert!(a.save_request.is_none());
    ch(&mut a, 's');
    type_text(&mut a, "f.txt");
    a.update_editor_scroll(3);
    assert_eq!(a.editor_mut().unwrap().scroll_x, 3);
    key(&mut a, KeyCode::Enter);
    assert!(matches!(a.mode, AppMode::Normal));
    assert!(a.editor_mut().is_none());
    let s = a.save_request.take().unwrap();
    assert_eq!((s.path.as_str(), s.content.as_str()), ("f.txt", "text\n"));
    a.save_failed("disk full");
    assert_eq!(a.error_message, Some("Save failed: disk full".to_string()));
}

#[test]
fn a_stage_without_a_view() {
    let mut a = app("a | b");
    a.stage_views.truncate(1);
    a.pipeline.selected = 1;
    assert_eq!(a.view().output_mode, OutputMode::Stdout);
    assert_eq!(a.stage_views.len(), 1);
    a.view_mut().scroll = 4;
    assert_eq!(a.stage_views.len(), 2);
    assert_eq!(a.view().scroll, 4);
    a.mode = AppMode::Editing {
        editor: EditorState::new("b".to_string()),
        pending_new_stage: false,
    };
    a.confirm_edit();
    assert!(a.undo_stack.is_empty() && a.exec_request.is_none());
}

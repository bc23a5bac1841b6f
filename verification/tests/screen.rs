use pipe_explorer::app::{App, AppMode};
use pipe_explorer::editor::EditorState;
use pipe_explorer::executor::output::{CombinedLine, OutputMode, StageOutput};
use pipe_explorer::history::History;
use pipe_explorer::options::GlobalDefaults;
use pipe_explorer::pipeline::{parse_pipeline, Pipeline};
use pipe_explorer::style::{Color, Line, Style};
use pipe_explorer::ui::{
    centre, command_bar, command_dialog, confirm_delete_lines, cursor_spans, dialog_area,
    dialog_max_width, help_area, help_lines, history_bar, history_popup, mode_for_stage,
    options_area, options_lines, pipe_connector, pipeline_command, save_dialog, shell_dialog, stages_bar,
    status_bar, Area, HistoryBrowser, OptionsTab, StagesBar, EDITOR_DIALOG_MAX_WIDTH,
};
use pipe_explorer::ui_output::{output_body, output_title, scroll_hint, OutputBody};

fn app(pipeline: &str) -> App {
    App::new(parse_pipeline(pipeline))
}

fn output(stdout: &str, code: Option<i32>) -> StageOutput {
    StageOutput::new(stdout.as_bytes().to_vec(), vec![], code, vec![])
}

fn text(line: &Line) -> String {
    line.spans.iter().map(|s| s.content.as_str()).collect()
}

fn screen() -> Area {
    Area { x: 0, y: 0, width: 80, height: 24 }
}

#[test]
fn connectors() {
    assert_eq!(pipe_connector(OutputMode::Stdout), " | ");
    assert_eq!(pipe_connector(OutputMode::Combined), " 2>&1 | ");
    assert_eq!(pipe_connector(OutputMode::Stderr), " 2>&1 >/dev/null | ");
    let mut a = app("a | b | c");
    a.set_output_mode(0, OutputMode::Stderr);
    a.set_output_mode(2, OutputMode::Combined);
    assert_eq!(mode_for_stage(&a, 0), OutputMode::Stderr);
    assert_eq!(mode_for_stage(&a, 7), OutputMode::Stdout);
    assert_eq!(pipeline_command(&a), "a 2>&1 >/dev/null | b | c");
    assert_eq!(pipeline_command(&App::new(Pipeline::new(vec![]))), "");
}

#[test]
fn bar_of_stages() {
    let mut a = app("echo | wc");
    a.pipeline.stages[1].command = String::new();
    a.stage_outputs = vec![output("1\n2\n", Some(0)), output("x", Some(1))];
    a.global_defaults.interactive = true;
    a.clock_millis = 1000;
    a.pipeline.stages[1].last_update = Some(900);
    match stages_bar(&a) {
        StagesBar::Stages { title, detail, style, counts, commands } => {
            assert_eq!(title, "— Pipeline ✗ ");
            assert_eq!(detail, "— 2/[0] -");
            assert_eq!(style, Style::plain());
            assert_eq!(text(&counts), "ⁱ2     ⁱ1✗    ");
            assert_eq!(counts.spans[0].style, Style::plain().fg(Color::Cyan).bold());
            assert_eq!(counts.spans[1].style, Style::plain().fg(Color::Red));
            assert_eq!(text(&commands), "echo | <empty>");
            assert_eq!(
                commands.spans[0].style,
                Style::plain().fg(Color::White).bg(Color::Cyan).bold()
            );
            assert_eq!(commands.spans[1].style, Style::plain().fg(Color::White).bold());
            assert_eq!(commands.spans[2].style, Style::plain().fg(Color::Red));
        }
        other => panic!("{:?}", other),
    }
    a.clock_millis = 1001;
    a.pipeline.selected = 1;
    a.stage_views[1].output_mode = OutputMode::Combined;
    match stages_bar(&a) {
        StagesBar::Stages { detail, style, commands, .. } => {
            assert_eq!(detail, "— 1+0=1 -");
            assert_eq!(style, Style::plain().fg(Color::Red));
            assert_eq!(commands.spans[1].style, Style::plain().fg(Color::DarkGray));
            assert_eq!(
                commands.spans[2].style,
                Style::plain().fg(Color::White).bg(Color::Red).bold()
            );
        }
        other => panic!("{:?}", other),
    }
    a.stage_views[1].output_mode = OutputMode::Stderr;
    match stages_bar(&a) {
        StagesBar::Stages { detail, .. } => assert_eq!(detail, "— [1]/0 -"),
        other => panic!("{:?}", other),
    }
    assert!(matches!(stages_bar(&App::new(Pipeline::new(vec![]))), StagesBar::Empty));
}

#[test]
fn data_makes_a_stage_stand_out() {
    let mut a = app("a | b | c");
    a.clock_millis = 50;
    a.pipeline.stages[2].last_update = Some(0);
    match stages_bar(&a) {
        StagesBar::Stages { counts, commands, title, .. } => {
            assert_eq!(title, "— Pipeline ");
            assert_eq!(counts.spans[1].style, Style::plain().fg(Color::DarkGray));
            assert_eq!(counts.spans[2].style, Style::plain().fg(Color::Yellow).bold());
            assert_eq!(commands.spans[1].style, Style::plain().fg(Color::DarkGray));
            assert_eq!(commands.spans[3].style, Style::plain().fg(Color::White).bold());
            assert_eq!(commands.spans[4].style, Style::plain().fg(Color::White));
        }
        other => panic!("{:?}", other),
    }
}

#[test]
fn output_titles() {
    let mut a = app("a");
    assert_eq!(text(&output_title(&a)), "— stdout —  ");
    a.stage_outputs = vec![output("x x\n", Some(0))];
    assert_eq!(text(&output_title(&a)), "— stdout —  ✓  ");
    a.stage_outputs[0].exit_code = Some(-2);
    a.stage_views[0].output_mode = OutputMode::Stderr;
    assert_eq!(text(&output_title(&a)), "— stderr —  ✗ exit:-2  ");
    a.stage_views[0].output_mode = OutputMode::Stdout;
    a.view_mut().search.query = "x".to_string();
    a.compute_search_matches();
    a.search_next();
    let title = output_title(&a);
    assert_eq!(title.spans[1].content, " [2/2]");
    assert_eq!(title.spans[1].style, Style::plain().fg(Color::Yellow).bold());
    a.view_mut().search.query = "y".to_string();
    a.compute_search_matches();
    assert_eq!(output_title(&a).spans[1].content, " [no matches]");
}

#[test]
fn output_pane() {
    let mut a = app("a");
    assert!(matches!(output_body(&mut a, 20, 5), OutputBody::NoOutput));
    assert_eq!((a.visible_output_width, a.visible_output_lines), (20, 3));
    a.stage_outputs = vec![output("one\ntwo two\nthree\nfour\n", Some(0))];
    a.view_mut().search.query = "two".to_string();
    a.compute_search_matches();
    a.view_mut().scroll = 1;
    match output_body(&mut a, 20, 5) {
        OutputBody::Lines { lines, scroll, max_scroll } => {
            assert_eq!((scroll, max_scroll, lines.len()), (1, 2, 3));
            assert_eq!(text(&lines[0]), "two two");
            assert_eq!(lines[0].spans.len(), 3);
            assert_eq!(lines[0].spans[0].style.bg, Some(Color::Yellow));
            assert_eq!(lines[0].spans[1].style.bg, None);
            assert_eq!(lines[0].spans[2].style.bg, Some(Color::Gray));
        }
        other => panic!("{:?}", other),
    }
    // beyond the end, the position is brought back
    a.view_mut().scroll = 40;
    match output_body(&mut a, 20, 5) {
        OutputBody::Lines { lines, scroll, .. } => {
            assert_eq!((scroll, lines.len()), (2, 3));
            assert_eq!(text(&lines[0]), "three");
        }
        other => panic!("{:?}", other),
    }
    assert_eq!(a.view().scroll, 2);
    a.error_message = Some("bad".to_string());
    match output_body(&mut a, 0, 0) {
        OutputBody::Error(e) => assert_eq!(e, "bad"),
        other => panic!("{:?}", other),
    }
    assert_eq!((a.visible_output_width, a.visible_output_lines), (1, 1));
    let mut empty = App::new(Pipeline::new(vec![]));
    assert!(matches!(output_body(&mut empty, 9, 9), OutputBody::Blank));
}

#[test]
fn output_pane_combined() {
    let mut a = app("a");
    let lines = vec![
        CombinedLine { is_stderr: false, content: b"out\n".to_vec() },
        CombinedLine { is_stderr: true, content: b"\x1b[31me\x1b[41mr\n".to_vec() },
    ];
    a.stage_outputs = vec![StageOutput::new(vec![], vec![], Some(0), lines)];
    a.stage_views[0].output_mode = OutputMode::Combined;
    match output_body(&mut a, 20, 9) {
        OutputBody::Lines { lines, .. } => {
            assert_eq!(lines.len(), 3);
            assert_eq!(text(&lines[0]), " out");
            assert_eq!(text(&lines[1]), ">er");
            assert_eq!(
                lines[1].spans[0].style,
                Style::plain().bg(Color::Yellow).fg(Color::Black)
            );
            assert_eq!(lines[1].spans[1].style.fg, Some(Color::DarkGray));
            assert_eq!(lines[1].spans[2].style.fg, Some(Color::Red));
            assert_eq!(text(&lines[2]), " ");
        }
        other => panic!("{:?}", other),
    }
}

#[test]
fn status() {
    let mut a = app("a");
    a.stage_outputs = vec![output("x\n", Some(0))];
    let bar = status_bar(&a);
    assert_eq!(bar.spans[0].content, " NORMAL ");
    assert!(bar.spans[2].content.starts_with(" [q]uit  [e]edit  [O]prepend  [o|]append"));
    assert!(bar.spans[2].content.ends_with("[?,:h]help "));
    a.running = true;
    a.view_mut().search.query = "x".to_string();
    a.compute_search_matches();
    let bar = status_bar(&a);
    assert_eq!(bar.spans[0].content, " NORMAL ⟳ Running… ");
    assert!(bar.spans[2].content.ends_with("  [n]ext-match  [N]prev-match  [Esc]clear-search "));
    a.mode = AppMode::ConfirmingDelete;
    assert_eq!(text(&status_bar(&a)), " DELETE?    [y]confirm delete  [any]cancel ");
    a.mode = AppMode::Saving(EditorState::empty());
    assert_eq!(text(&status_bar(&a)), " SAVE    [Enter]confirm  [Esc]cancel ");
    a.start_editing();
    assert_eq!(status_bar(&a).spans[0].content, " EDIT ");
    a.mode = AppMode::Searching;
    a.view_mut().search.cursor = 0;
    assert_eq!(text(&status_bar(&a)), "/x  [Enter]search  [Esc]cancel");
    a.mode = AppMode::Command(EditorState::new("h".to_string()));
    assert_eq!(text(&status_bar(&a)), ":h   [Tab]complete  [Enter]run  [Esc]cancel");
    let bar = command_bar(&EditorState::empty(), Some("help quit"));
    assert_eq!(text(&bar), ":   help quit");
    assert_eq!(bar.spans[3].style.fg, Some(Color::Cyan));
}

#[test]
fn a_cursor_in_a_text() {
    let spans = cursor_spans("a│b", 1);
    let parts: Vec<&str> = spans.iter().map(|s| s.content.as_str()).collect();
    assert_eq!(parts, vec!["a", "│", "b"]);
    assert_eq!(spans[1].style, Style::plain().fg(Color::Black).bg(Color::White));
    let spans = cursor_spans("ab", 2);
    assert_eq!((spans.len(), spans[0].content.as_str(), spans[1].content.as_str()), (2, "ab", " "));
}

#[test]
fn dialogs() {
    let mut a = app("a | b");
    assert!(command_dialog(&a, screen()).is_none());
    assert!(save_dialog(&a, screen()).is_none());
    a.pipeline.selected = 1;
    a.start_editing();
    a.update_editor_scroll(0);
    assert_eq!(dialog_max_width(&a.mode), Some(EDITOR_DIALOG_MAX_WIDTH));
    assert_eq!(dialog_max_width(&AppMode::Searching), None);
    let d = command_dialog(&a, screen()).unwrap();
    assert_eq!(d.title, " Edit Stage 2 Command ");
    assert_eq!(d.area, Area { x: 2, y: 10, width: 76, height: 3 });
    assert_eq!(text(&d.text), "b ");
    a.start_saving();
    let d = save_dialog(&a, screen()).unwrap();
    assert_eq!(d.title, " Save Output To File ");
    assert_eq!(d.area, Area { x: 10, y: 10, width: 60, height: 3 });
    let mut e = EditorState::new("zsh".to_string());
    e.scroll_x = 70000;
    let d = shell_dialog(&e, 0, OptionsTab::Stage, screen());
    assert_eq!((d.title.as_str(), d.scroll_x), (" Stage 1 Shell ", u16::MAX));
    let d = shell_dialog(&e, 0, OptionsTab::Global, screen());
    assert_eq!(d.title, " Global Shell ");
    let tiny = Area { x: 3, y: 4, width: 2, height: 1 };
    assert_eq!(
        dialog_area(tiny, EDITOR_DIALOG_MAX_WIDTH, 3),
        Area { x: 4, y: 4, width: 0, height: 3 }
    );
    assert_eq!(centre(screen(), 81, 2), Area { x: 0, y: 11, width: 81, height: 2 });
}

#[test]
fn the_question_before_deletion() {
    let a = app("a | b");
    let lines = confirm_delete_lines(&a);
    assert_eq!(text(&lines[0]), "Deleting stage 1 of 2 may break downstream stages.");
    assert_eq!(text(&lines[1]), "");
    assert_eq!(text(&lines[2]), "y to confirm, any other key to cancel");
    assert_eq!(lines[2].spans[0].style, Style::plain().fg(Color::Green).bold());
}

#[test]
fn help() {
    let lines = help_lines();
    assert_eq!(lines.len(), 23);
    assert_eq!(lines[0], "→ / l            Next stage");
    assert_eq!(lines[22], "q / Ctrl+c       Quit");
    assert_eq!(help_area(screen(), 23), Area { x: 10, y: 0, width: 60, height: 25 });
}

#[test]
fn history_on_the_screen() {
    let mut h = History::default();
    for i in 0..6 {
        h.add_at(&vec![format!("cmd{}", 5 - i), "wc".to_string()], 0);
    }
    let mut b = HistoryBrowser { entries: h.entries, selected: 0, confirming_delete: false };
    let area = Area { x: 0, y: 0, width: 19, height: 8 };
    let p = history_popup(&b, area);
    assert_eq!(p.area, Area { x: 2, y: 0, width: 15, height: 7 });
    let labels: Vec<&str> = p.items.iter().map(|s| s.content.as_str()).collect();
    assert_eq!(labels, vec!["  1  cmd0 | …", "  2  cmd1 | …", "  3  cmd2 | …"]);
    assert_eq!(p.items[0].style, Style::plain().fg(Color::Black).bg(Color::Cyan).bold());
    assert_eq!(p.title, " History — ↑↓ navigate, Enter load, Del/x delete, q/Esc close ");
    b.selected = 4;
    b.confirming_delete = true;
    let p = history_popup(&b, area);
    assert_eq!(p.items[0].content, "  3  cmd2 | …");
    assert_eq!(p.items[2].style.bg, Some(Color::Cyan));
    assert_eq!(p.title, " ⚠️ Delete this entry? [y]es / [any]cancel ");
    assert_eq!(p.style, Style::plain().bg(Color::DarkGray).fg(Color::Yellow));
    assert_eq!(
        text(&history_bar()),
        " HISTORY    [↑↓]navigate  [Enter]load  [Del/x]delete  [q/Esc]close "
    );
    let p = history_popup(&b, Area { x: 0, y: 0, width: 80, height: 24 });
    assert_eq!(p.items.len(), 6);
    assert_eq!(p.items[0].content, "  1  cmd0 | wc");
    // a label is never cut inside a character
    b.entries[0].commands = vec!["éééééééé".to_string()];
    b.selected = 0;
    let p = history_popup(&b, area);
    assert_eq!(p.items[0].content, "  1  ééé…");
    // a selection behind the last entry leaves nothing to show
    b.selected = 50;
    assert!(history_popup(&b, area).items.is_empty());
}

#[test]
fn options_on_the_screen() {
    let mut p = parse_pipeline("a | b");
    p.selected = 1;
    let mut d = GlobalDefaults::default();
    let show = |p: &Pipeline, d: &GlobalDefaults, tab: OptionsTab| -> Vec<String> {
        options_lines(p, d, tab).iter().map(text).collect()
    };
    assert_eq!(
        show(&p, &d, OptionsTab::Stage),
        vec![
            " Stage 2 │ Global ",
            "[i] Interactive shell:  OFF (inherited)",
            "[s] Shell: auto-detect  (inherited)"
        ]
    );
    d.interactive = true;
    d.shell = Some("zsh".to_string());
    p.stages[1].overrides.interactive = Some(true);
    assert_eq!(
        show(&p, &d, OptionsTab::Stage)[1..],
        [
            "[i] Interactive shell:  ON  (stage override)",
            "[s] Shell: zsh  (inherited)",
            "[r] Reset overrides to inherited"
        ]
    );
    p.stages[1].overrides.interactive = Some(false);
    p.stages[1].overrides.shell = Some("fish".to_string());
    assert_eq!(
        show(&p, &d, OptionsTab::Stage)[1..3],
        ["[i] Interactive shell:  OFF (stage override)", "[s] Shell: fish  (stage override)"]
    );
    assert_eq!(
        show(&p, &d, OptionsTab::Global)[1..],
        ["[i] Interactive shell:  ON", "[s] Shell: zsh"]
    );
    let tabs = &options_lines(&p, &d, OptionsTab::Global)[0];
    assert_eq!(tabs.spans[0].style, Style::plain().fg(Color::DarkGray));
    assert_eq!(tabs.spans[2].style, Style::plain().fg(Color::White).bold().underlined());
    assert_eq!(options_area(screen(), 3), Area { x: 15, y: 9, width: 50, height: 5 });
    // the defaults can be looked at without any stage
    assert_eq!(
        show(&parse_pipeline(""), &d, OptionsTab::Global),
        vec![" Stage 1 │ Global ", "[i] Interactive shell:  ON", "[s] Shell: zsh"]
    );
}

#[test]
fn plain_pipes_are_joined() {
    let a = app("a x | b | c");
    assert_eq!(pipeline_command(&a), a.pipeline.commands().join(" | "));
}

#[test]
fn labels_stand_above_stages() {
    let a = app("echo hello | wc -l");
    match stages_bar(&a) {
        StagesBar::Stages { counts, commands, .. } => {
            assert_eq!(counts.spans[0].content.len(), "echo hello | ".len());
            assert_eq!(text(&counts).len(), text(&commands).len());
        }
        other => panic!("{:?}", other),
    }
}

#[test]
fn laying_out_twice_changes_nothing() {
    let mut a = app("a");
    a.stage_outputs = vec![output("1\n2\n3\n4\n", Some(0))];
    a.view_mut().scroll = 9;
    output_body(&mut a, 10, 4);
    let scroll = a.view().scroll;
    output_body(&mut a, 10, 4);
    assert_eq!((scroll, a.view().scroll), (3, 3));
}

#[test]
fn lines_behind_a_character_cut_in_two_are_found() {
    let mut a = app("a");
    a.stage_outputs = vec![StageOutput::empty()];
    a.stage_outputs[0].append_data(b"a\xC3", b"", vec![]);
    a.stage_outputs[0].append_data(b"\xA9\n\xC3\xA9\n", b"", vec![]);
    a.visible_output_lines = 1;
    a.view_mut().scroll = 1;
    match output_body(&mut a, 10, 3) {
        OutputBody::Lines { lines, .. } => assert_eq!(text(&lines[0]), "é"),
        other => panic!("{:?}", other),
    }
}

#[test]
fn how_far_the_output_is_scrolled() {
    let inner = Area { x: 1, y: 2, width: 20, height: 5 };
    let (text, area) = scroll_hint(7, inner);
    assert_eq!(text, " 7% ");
    assert_eq!(area, Some(Area { x: 17, y: 6, width: 4, height: 1 }));
    let (text, area) = scroll_hint(140, Area { x: 0, y: 0, width: 8, height: 0 });
    assert_eq!((text.as_str(), area), (" 100% ", None));
    let (_, area) = scroll_hint(100, Area { x: 0, y: 0, width: 9, height: 0 });
    assert_eq!(area, Some(Area { x: 3, y: 0, width: 6, height: 1 }));
}

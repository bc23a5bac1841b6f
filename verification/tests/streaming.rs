use pipe_explorer::ansi_lines::ansi_text_to_lines;
use pipe_explorer::executor::batch::{execute_pipeline_stages, stage_count};
use pipe_explorer::executor::cache::{CacheKey, ExecutorCache, PreFillEntry};
use pipe_explorer::executor::output::{CombinedLine, OutputMode, StageOutput};
use pipe_explorer::executor::shell::{
    choose_shell, colour_env, is_shell_path, parse_ppid, shell_args,
};
use pipe_explorer::executor::stream::{
    Collector, Launch, LineSplitter, PipelineRun, RunPhase, StreamMsg, UI_THROTTLE_MILLIS,
};

fn line(is_stderr: bool, text: &str) -> CombinedLine {
    CombinedLine { is_stderr, content: text.as_bytes().to_vec() }
}

fn output(stdout: &str) -> StageOutput {
    StageOutput::new(stdout.as_bytes().to_vec(), vec![], Some(0), vec![line(false, stdout)])
}

fn strings(v: &[&str]) -> Vec<String> {
    v.iter().map(|s| s.to_string()).collect()
}

fn hex(bytes: &[u8]) -> String {
    bytes.iter().map(|b| format!("{:02x}", b)).collect()
}

// --- text of bytes ---

#[test]
fn invalid_bytes_are_shown_with_replacements() {
    let out = StageOutput::new(vec![b'a', 0xff, b'b'], vec![], None, vec![]);
    assert_eq!(out.stdout_text(), "a\u{fffd}b");
    assert_eq!(out.stdout_str(), "a\u{fffd}b");
}

#[test]
fn a_character_cut_in_two_is_put_together() {
    let bytes = "x│y".as_bytes();
    let mut out = StageOutput::empty();
    out.append_data(&bytes[..2], b"", vec![]);
    assert_eq!(out.stdout_text(), "x\u{fffd}");
    out.append_data(&bytes[2..], b"", vec![]);
    assert_eq!(out.stdout_text(), "x│y");
    assert_eq!(out.stdout, bytes);
}

#[test]
fn text_is_in_step_with_bytes_wherever_they_are_cut() {
    let text = "é\nab│ü\n\u{1f600}c";
    let bytes = text.as_bytes();
    for cut in 0..=bytes.len() {
        let mut out = StageOutput::empty();
        out.append_data(b"", &bytes[..cut], vec![]);
        out.append_data(b"", &bytes[cut..], vec![]);
        assert_eq!(out.stderr_text(), text);
        assert_eq!(out.stderr_str(), text);
        assert_eq!(out.stderr_line_count(), 3);
    }
}

#[test]
fn one_piece_is_the_whole() {
    let mut streamed = StageOutput::empty();
    streamed.append_data(b"a\xff\nb", b"e\n", vec![line(false, "a"), line(true, "e\n")]);
    let whole = StageOutput::new(
        b"a\xff\nb".to_vec(),
        b"e\n".to_vec(),
        None,
        vec![line(false, "a"), line(true, "e\n")],
    );
    assert_eq!(streamed.stdout_text(), whole.stdout_text());
    assert_eq!(streamed.stdout_shown.index.offsets, whole.stdout_shown.index.offsets);
    assert_eq!(
        streamed.display_line_count(OutputMode::Combined),
        whole.display_line_count(OutputMode::Combined)
    );
}

#[test]
fn the_index_is_that_of_the_whole_text() {
    let mut out = StageOutput::empty();
    out.append_data(b"a\xC3", b"", vec![]);
    out.append_data(b"\xA9\nb", b"", vec![]);
    assert_eq!(out.stdout_text(), "aé\nb");
    assert_eq!(out.line_index(OutputMode::Stdout).unwrap().offsets, vec![0, 4]);
    // the first piece ends inside a control sequence, where a newline is none
    let mut out = StageOutput::empty();
    out.append_data(b"", b"x\x1b[3\n", vec![]);
    assert_eq!(out.line_index(OutputMode::Stderr).unwrap().offsets, vec![0, 5]);
    out.append_data(b"", b"1mred\ny", vec![]);
    assert_eq!(out.line_index(OutputMode::Stderr).unwrap().offsets, vec![0, 11]);
}

#[test]
fn pieces_make_the_whole_however_they_are_cut() {
    let bytes: &[u8] = b"a\xffb\xC3\xA9\n\xf0\x9f\n\x1b[31mr\xe2\x94\x82\n\x80";
    let whole = StageOutput::new(bytes.to_vec(), vec![], None, vec![]);
    for i in 0..=bytes.len() {
        for j in i..=bytes.len() {
            let mut out = StageOutput::empty();
            out.append_data(&bytes[..i], b"", vec![]);
            out.append_data(&bytes[i..j], b"", vec![]);
            out.append_data(&bytes[j..], b"", vec![]);
            assert_eq!(out.stdout_text(), whole.stdout_text(), "{} {}", i, j);
            let (a, b) = (out.line_index(OutputMode::Stdout), whole.line_index(OutputMode::Stdout));
            assert_eq!(a.unwrap().offsets, b.unwrap().offsets, "{} {}", i, j);
            for mode in [OutputMode::Stdout, OutputMode::Stderr, OutputMode::Combined] {
                assert_eq!(out.display_line_count(mode), whole.display_line_count(mode));
            }
        }
    }
}

#[test]
fn display_lines_are_the_lines_that_are_shown() {
    let cases: Vec<(&str, usize)> = vec![
        ("\u{1b}[0m", 0),
        ("a\n\u{1b}[0m", 1),
        ("\u{1b}[31m\n", 2),
        ("\n\n", 3),
        ("\u{1b}[3\n1mx", 1),
        ("a\u{1b}[K\nb\n", 3),
    ];
    for (text, lines) in cases {
        let out = StageOutput::new(
            text.as_bytes().to_vec(),
            text.as_bytes().to_vec(),
            None,
            vec![line(false, text)],
        );
        assert_eq!(ansi_text_to_lines(text).len(), lines, "{:?}", text);
        for mode in [OutputMode::Stdout, OutputMode::Stderr, OutputMode::Combined] {
            assert_eq!(out.display_line_count(mode), lines, "{:?}", text);
        }
    }
}

#[test]
fn line_counts() {
    let cases: Vec<(&str, usize, usize)> =
        vec![("", 0, 0), ("a", 1, 1), ("a\n", 1, 2), ("a\nb", 2, 2), ("\n", 1, 2)];
    for (text, lines, shown) in cases {
        let out = output(text);
        assert_eq!(out.stdout_line_count(), lines, "{:?}", text);
        assert_eq!(out.display_line_count(OutputMode::Stdout), shown, "{:?}", text);
        assert_eq!(ansi_text_to_lines(text).len(), shown, "{:?}", text);
        assert_eq!(out.display_line_count(OutputMode::Stderr), 0);
    }
}

#[test]
fn an_output_can_be_copied() {
    let mut out = output("a\nb");
    out.set_exit_code(Some(3));
    let copy = out.clone();
    assert_eq!(copy.exit_code, Some(3));
    assert_eq!(copy.stdout_text(), "a\nb");
    assert_eq!(copy.combined[0].content, b"a\nb");
    assert_eq!(copy.stdout_line_count(), 2);
    assert_eq!(copy.line_index(OutputMode::Stdout).unwrap().offsets, vec![0, 2]);
}

// --- cache ---

#[test]
fn keys_hold_the_digest_of_the_input() {
    let empty = CacheKey::new("cat", b"");
    assert_eq!(
        hex(&empty.stdin_hash),
        "e3b0c44298fc1c149afbf4c8996fb92427ae41e4649b934ca495991b7852b855"
    );
    let abc = CacheKey::new("cat", b"abc");
    assert_eq!(abc.command, "cat");
    assert_eq!(
        hex(&abc.stdin_hash),
        "ba7816bf8f01cfea414140de5dae2223b00361a396177a9cb410ff61f20015ad"
    );
}

#[test]
fn storing_keeps_other_entries() {
    let mut cache = ExecutorCache::new();
    assert!(cache.lookup("a", b"").is_none());
    cache.store("a", b"", output("1"));
    cache.store("a", b"x", output("2"));
    cache.store("b", b"", output("3"));
    assert_eq!(cache.lookup("a", b"").unwrap().stdout, b"1");
    assert_eq!(cache.lookup("a", b"x").unwrap().stdout, b"2");
    assert_eq!(cache.lookup("b", b"").unwrap().stdout, b"3");
    cache.store("a", b"", output("4"));
    assert_eq!(cache.lookup("a", b"").unwrap().stdout, b"4");
    assert_eq!(cache.lookup("a", b"x").unwrap().stdout, b"2");
    assert!(cache.lookup("b", b"x").is_none());
}

#[test]
fn a_remembered_run_executes_nothing() {
    let mut cache = ExecutorCache::default();
    let commands = strings(&["one", "two"]);
    let echo = |c: &str, s: &[u8]| -> Result<StageOutput, String> {
        Ok(output(&format!("{}:{}", c, s.len())))
    };
    let first =
        execute_pipeline_stages(&mut cache, &commands, 1, false, &[], &echo).unwrap();
    assert_eq!(first[1].stdout, b"two:5");
    let refuse =
        |c: &str, _s: &[u8]| -> Result<StageOutput, String> { Err(format!("ran {}", c)) };
    let second =
        execute_pipeline_stages(&mut cache, &commands, 5, false, &[], &refuse).unwrap();
    assert_eq!(second.len(), 2);
    assert_eq!(second[1].stdout, first[1].stdout);
    // forced, or with another first stage, it is executed
    let forced = execute_pipeline_stages(&mut cache, &commands, 1, true, &[], &refuse);
    assert_eq!(forced.err(), Some("ran one".to_string()));
    let changed = strings(&["one", "other"]);
    let rerun = execute_pipeline_stages(&mut cache, &changed, 1, false, &[], &refuse);
    assert_eq!(rerun.err(), Some("ran other".to_string()));
}

#[test]
fn a_failure_keeps_what_ran_before_it() {
    let mut cache = ExecutorCache::new();
    let commands = strings(&["one", "bad", "three"]);
    let run = |c: &str, _s: &[u8]| -> Result<StageOutput, String> {
        if c == "bad" {
            Err("no".to_string())
        } else {
            Ok(output(c))
        }
    };
    let r = execute_pipeline_stages(&mut cache, &commands, 2, false, &[], &run);
    assert_eq!(r.err(), Some("no".to_string()));
    assert_eq!(cache.lookup("one", b"").unwrap().stdout, b"one");
    assert!(cache.lookup("bad", b"one").is_none());
}

#[test]
fn stages_up_to_the_wanted_one() {
    assert_eq!(stage_count(3, 0), 1);
    assert_eq!(stage_count(3, 2), 3);
    assert_eq!(stage_count(3, usize::MAX), 3);
    assert_eq!(stage_count(0, 0), 0);
}

// --- lines ---

#[test]
fn a_stream_is_cut_into_lines() {
    let mut s = LineSplitter::new();
    assert_eq!(s.feed(b"one\ntw"), vec![b"one\n".to_vec()]);
    assert_eq!(s.feed(b"o"), Vec::<Vec<u8>>::new());
    assert_eq!(s.feed(b"\n\nthree"), vec![b"two\n".to_vec(), b"\n".to_vec()]);
    assert_eq!(s.pending, b"three");
    assert_eq!(s.finish(), Some(b"three".to_vec()));
    assert_eq!(LineSplitter::new().finish(), None);
}

#[test]
fn lines_do_not_depend_on_chunks() {
    let data = b"a\nbb\n\nccc";
    let mut whole = LineSplitter::new();
    let lines = whole.feed(data);
    for cut in 0..=data.len() {
        let mut s = LineSplitter::new();
        let mut parts = s.feed(&data[..cut]);
        parts.extend(s.feed(&data[cut..]));
        assert_eq!(parts, lines);
        assert_eq!(s.pending, b"ccc");
    }
}

// --- collecting ---

#[test]
fn reports_make_up_the_output() {
    let mut c = Collector::new(2, OutputMode::Stdout, true);
    let mut shown = StageOutput::empty();
    let mut show = |msg: Option<StreamMsg>| {
        if let Some(StreamMsg::StageUpdate { stage_idx, new_stdout, new_stderr, new_combined }) =
            msg
        {
            assert_eq!(stage_idx, 2);
            shown.append_data(&new_stdout, &new_stderr, new_combined);
        }
    };
    assert!(c.flush().is_none());
    c.take_line(line(false, "one\n"));
    c.take_line(line(true, "oops\n"));
    show(c.flush());
    assert!(c.flush().is_none());
    c.take_line(line(false, "two"));
    show(c.flush());
    let out = c.into_output();
    assert_eq!(shown.stdout, out.stdout);
    assert_eq!(shown.stdout, b"one\ntwo");
    assert_eq!(shown.stderr, b"oops\n");
    assert_eq!(shown.combined.len(), 3);
    assert_eq!(shown.stdout_text(), out.stdout_text());
    assert_eq!(out.exit_code, None);
}

#[test]
fn reports_are_throttled() {
    let mut c = Collector::new(0, OutputMode::Stdout, false);
    c.take_line(line(false, "x\n"));
    assert!(c.flush_due(UI_THROTTLE_MILLIS - 1).is_none());
    assert!(c.flush_due(UI_THROTTLE_MILLIS).is_some());
    assert!(c.flush_due(UI_THROTTLE_MILLIS).is_none());
}

#[test]
fn lines_are_relayed_by_mode() {
    let relayed = |mode: OutputMode, relays: bool, is_stderr: bool| -> Option<Vec<u8>> {
        Collector::new(0, mode, relays).take_line(line(is_stderr, "\u{1b}[31mx\u{1b}[0m\n"))
    };
    assert_eq!(relayed(OutputMode::Stdout, true, false), Some(b"x\n".to_vec()));
    assert_eq!(relayed(OutputMode::Stdout, true, true), None);
    assert_eq!(relayed(OutputMode::Stderr, true, false), None);
    assert_eq!(relayed(OutputMode::Stderr, true, true), Some(b"x\n".to_vec()));
    assert_eq!(relayed(OutputMode::Combined, true, false), Some(b"x\n".to_vec()));
    assert_eq!(relayed(OutputMode::Combined, true, true), Some(b"x\n".to_vec()));
    assert_eq!(relayed(OutputMode::Combined, false, true), None);
}

#[test]
fn streamed_relay_is_the_whole_relay() {
    for mode in [OutputMode::Stdout, OutputMode::Stderr, OutputMode::Combined] {
        let mut c = Collector::new(0, mode, true);
        let mut sent: Vec<u8> = Vec::new();
        for l in [line(false, "\u{1b}[1ma\n"), line(true, "b\n"), line(false, "c\u{1b}[0m")] {
            sent.extend(c.take_line(l).unwrap_or_default());
        }
        assert_eq!(sent, c.into_output().relay_bytes(mode));
    }
}

// --- running ---

fn updates(msgs: &[StreamMsg]) -> Vec<String> {
    msgs.iter()
        .map(|m| match m {
            StreamMsg::StageUpdate { stage_idx, new_stdout, .. } => {
                format!("{}:{}", stage_idx, String::from_utf8_lossy(new_stdout))
            }
            StreamMsg::StageDone { stage_idx, exit_code } => {
                format!("{} done {:?}", stage_idx, exit_code)
            }
            StreamMsg::AllDone { error } => format!("all done {:?}", error),
        })
        .collect()
}

#[test]
fn nothing_to_run() {
    let (run, msgs) = PipelineRun::begin(vec![], 0, false, vec![], vec![]);
    assert_eq!(run.phase, RunPhase::Finished);
    assert_eq!(updates(&msgs), vec!["all done None"]);
}

#[test]
fn a_remembered_pipeline_is_served() {
    let mut cache = ExecutorCache::new();
    cache.store("one", b"", output("x\n"));
    cache.store("two", b"x\n", output("y\n"));
    let (mut run, first) =
        PipelineRun::begin(strings(&["one", "two", "three"]), 1, false, vec![], vec![]);
    assert!(first.is_empty());
    let mut all = run.serve(&cache, false);
    assert_eq!(run.phase, RunPhase::Serving);
    all.extend(run.serve(&cache, false));
    assert_eq!(run.phase, RunPhase::Finished);
    assert_eq!(
        updates(&all),
        vec!["0:x\n", "0 done Some(0)", "1:y\n", "1 done Some(0)", "all done None"]
    );
}

#[test]
fn launching_starts_at_the_first_miss() {
    let mut cache = ExecutorCache::new();
    cache.store("one", b"", output("x\n"));
    let modes = vec![OutputMode::Stdout, OutputMode::Stderr];
    let (mut run, _) =
        PipelineRun::begin(strings(&["one", "two", "three"]), 2, false, modes, vec![false, true]);
    run.serve(&cache, false);
    assert!(run.serve(&cache, false).is_empty());
    assert_eq!(run.phase, RunPhase::Launching);
    assert_eq!(run.first_live, 1);
    match run.launch(false) {
        Launch::Spawn { stage_idx, interactive, mode, relays } => {
            assert_eq!((stage_idx, interactive, relays), (1, true, true));
            assert_eq!(mode, OutputMode::Stderr);
        }
        other => panic!("{:?}", other),
    }
    run.spawned();
    match run.launch(false) {
        Launch::Spawn { stage_idx, interactive, mode, relays } => {
            assert_eq!((stage_idx, interactive, relays), (2, false, false));
            assert_eq!(mode, OutputMode::Stdout);
        }
        other => panic!("{:?}", other),
    }
    run.spawned();
    match run.launch(true) {
        Launch::Ready { stdin } => assert_eq!(stdin, Some(b"x\n".to_vec())),
        other => panic!("{:?}", other),
    }
    let two = StageOutput::new(vec![], b"e\n".to_vec(), None, vec![]);
    let msgs = run.stage_ended(&mut cache, Some(7), Some(two));
    assert_eq!(updates(&msgs), vec!["1 done Some(7)"]);
    let msgs = run.stage_ended(&mut cache, Some(0), Some(output("z")));
    assert_eq!(updates(&msgs), vec!["2 done Some(0)", "all done None"]);
    assert_eq!(run.phase, RunPhase::Finished);
    // what ran is remembered, with its exit code
    assert_eq!(cache.lookup("two", b"x\n").unwrap().exit_code, Some(7));
    assert_eq!(cache.lookup("three", b"e\n").unwrap().stdout, b"z");
}

#[test]
fn an_output_that_was_given_up_is_not_remembered() {
    let mut cache = ExecutorCache::new();
    let (mut run, _) = PipelineRun::begin(strings(&["one"]), 0, true, vec![], vec![]);
    run.launch(false);
    run.spawned();
    match run.launch(false) {
        Launch::Ready { stdin } => assert_eq!(stdin, None),
        other => panic!("{:?}", other),
    }
    let msgs = run.stage_ended(&mut cache, None, None);
    assert_eq!(updates(&msgs), vec!["0 done None", "all done None"]);
    assert!(cache.lookup("one", b"").is_none());
}

#[test]
fn nothing_is_remembered_behind_an_output_that_was_given_up() {
    let mut cache = ExecutorCache::new();
    let commands = strings(&["yes", "head -1", "wc -l"]);
    let (mut run, _) = PipelineRun::begin(commands, 2, true, vec![], vec![]);
    while run.phase == RunPhase::Launching {
        if let Launch::Spawn { .. } = run.launch(false) {
            run.spawned();
        }
    }
    run.stage_ended(&mut cache, None, None);
    run.stage_ended(&mut cache, Some(0), Some(output("y\n")));
    run.stage_ended(&mut cache, Some(0), Some(output("1\n")));
    assert_eq!(run.phase, RunPhase::Finished);
    assert!(cache.lookup("head -1", b"").is_none());
    assert!(cache.lookup("wc -l", b"y\n").is_none());
}

#[test]
fn a_finished_run_is_served_again() {
    let mut cache = ExecutorCache::new();
    let commands = strings(&["one", "two"]);
    let (mut run, _) = PipelineRun::begin(commands.clone(), 1, true, vec![], vec![]);
    while run.phase == RunPhase::Launching {
        if let Launch::Spawn { .. } = run.launch(false) {
            run.spawned();
        }
    }
    run.stage_ended(&mut cache, Some(0), Some(output("1\n")));
    run.stage_ended(&mut cache, Some(3), Some(output("2\n")));
    let (mut again, _) = PipelineRun::begin(commands, 1, false, vec![], vec![]);
    let mut msgs = again.serve(&cache, false);
    msgs.extend(again.serve(&cache, false));
    assert_eq!(again.phase, RunPhase::Finished);
    assert_eq!(msgs.len(), 5);
    match (&msgs[2], &msgs[3]) {
        (
            StreamMsg::StageUpdate { stage_idx: 1, new_stdout, .. },
            StreamMsg::StageDone { stage_idx: 1, exit_code: Some(3) },
        ) => assert_eq!(new_stdout, b"2\n"),
        other => panic!("{:?}", other),
    }
}

#[test]
fn a_run_that_waits_can_be_cancelled() {
    let (mut run, _) = PipelineRun::begin(strings(&["one"]), 0, true, vec![], vec![]);
    run.launch(false);
    run.spawned();
    run.launch(false);
    assert_eq!(run.phase, RunPhase::Waiting);
    assert!(run.check_cancelled(false).is_none());
    assert_eq!(run.phase, RunPhase::Waiting);
    let msg = run.check_cancelled(true).unwrap();
    assert_eq!(updates(&[msg]), vec!["all done Some(\"cancelled\")"]);
    assert_eq!(run.phase, RunPhase::Finished);
}

#[test]
fn a_run_can_be_cancelled() {
    let cache = ExecutorCache::new();
    let (mut run, _) = PipelineRun::begin(strings(&["one"]), 0, false, vec![], vec![]);
    assert_eq!(updates(&run.serve(&cache, true)), vec!["all done Some(\"cancelled\")"]);
    assert_eq!(run.phase, RunPhase::Finished);
    let (mut run, _) = PipelineRun::begin(strings(&["one"]), 0, true, vec![], vec![]);
    match run.launch(true) {
        Launch::Stop { msg } => {
            assert_eq!(updates(&[msg]), vec!["all done Some(\"cancelled\")"])
        }
        other => panic!("{:?}", other),
    }
    assert_eq!(run.phase, RunPhase::Finished);
}

#[test]
fn a_stage_that_cannot_be_started() {
    let (mut run, _) = PipelineRun::begin(strings(&["a", "b"]), 1, true, vec![], vec![]);
    run.launch(false);
    run.spawned();
    run.launch(false);
    let msg = run.spawn_failed("no such shell");
    assert_eq!(updates(&[msg]), vec!["all done Some(\"stage 1: no such shell\")"]);
    assert_eq!(run.phase, RunPhase::Finished);
}

#[test]
fn filled_in_stages_are_served() {
    let mut cache = ExecutorCache::new();
    cache.inject_pre_fill(&vec![
        PreFillEntry { command: "one".to_string(), stdin: vec![], output: output("so far\n") },
        PreFillEntry {
            command: "two".to_string(),
            stdin: b"so far\n".to_vec(),
            output: output("partly"),
        },
    ]);
    let (mut run, _) =
        PipelineRun::begin(strings(&["one", "two", "new"]), 2, false, vec![], vec![]);
    run.serve(&cache, false);
    run.serve(&cache, false);
    run.serve(&cache, false);
    assert_eq!(run.first_live, 2);
    assert_eq!(run.stdin, b"partly");
}

// --- shell ---

#[test]
fn shell_paths() {
    assert!(is_shell_path("sh"));
    assert!(is_shell_path("/bin/sh/"));
    assert!(is_shell_path("/bin/bash/."));
    assert!(!is_shell_path("/bin/sh/.."));
    assert!(!is_shell_path("/"));
    assert!(!is_shell_path("."));
    assert!(!is_shell_path("/bin/sh/cargo"));
    assert!(!is_shell_path("h"));
}

#[test]
fn parent_process_number() {
    let status = "Name:\tx\nPid:\t7\nPPid:\t4321\nPPid:\t5\n";
    assert_eq!(parse_ppid(status), Some(4321));
    assert_eq!(parse_ppid("PPid: what\r\nPPid: 9\r\n"), Some(9));
    assert_eq!(parse_ppid("PPid:\t4294967296\n"), None);
    assert_eq!(parse_ppid(""), None);
}

#[test]
fn which_shell() {
    let some = |s: &str| Some(s.to_string());
    assert_eq!(choose_shell(some("/bin/zsh"), some("/bin/bash")), "/bin/zsh");
    assert_eq!(choose_shell(some("/usr/bin/cargo"), some("/bin/bash")), "/bin/bash");
    assert_eq!(choose_shell(None, some("/bin/bash")), "/bin/bash");
    assert_eq!(choose_shell(some("/usr/bin/make"), None), "sh");
    assert_eq!(choose_shell(None, None), "sh");
}

#[test]
fn how_the_shell_is_called() {
    assert_eq!(shell_args("ls | wc", false), strings(&["-c", "ls | wc"]));
    assert_eq!(shell_args("ls", true), strings(&["-i", "-c", "ls"]));
    assert_eq!(colour_env()[4], ("FORCE_COLOR", "3"));
    assert_eq!(colour_env().len(), 5);
}

#[test]
fn switching_back_is_served() {
    let mut cache = ExecutorCache::new();
    let commands = strings(&["both", "cat"]);
    let run = |c: &str, s: &[u8]| -> Result<StageOutput, String> {
        if c == "both" {
            Ok(StageOutput::new(b"o".to_vec(), b"e".to_vec(), Some(0), vec![]))
        } else {
            Ok(StageOutput::new(s.to_vec(), vec![], Some(0), vec![]))
        }
    };
    let refuse = |c: &str, _s: &[u8]| -> Result<StageOutput, String> { Err(c.to_string()) };
    let out = [OutputMode::Stdout];
    let err = [OutputMode::Stderr];
    execute_pipeline_stages(&mut cache, &commands, 1, false, &out, &run).unwrap();
    execute_pipeline_stages(&mut cache, &commands, 1, false, &err, &run).unwrap();
    let back = execute_pipeline_stages(&mut cache, &commands, 1, false, &out, &refuse).unwrap();
    assert_eq!(back[1].stdout, b"o");
}

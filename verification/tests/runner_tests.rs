use ccm_cluster::runner::{
    classify, ExitStatus, LogRecord, LogTag, LoggedCmd, Run, RunAction, RunError, RunEvent,
    RunOptions, RunPhase,
};
use ccm_cluster::text::{decimal_string, pad_to, push_joined};

fn words(items: &[&str]) -> Vec<String> {
    items.iter().map(|s| s.to_string()).collect()
}

fn status(code: i32) -> ExitStatus {
    ExitStatus { code: Some(code) }
}

// Feeds the events to the run, and returns the log and the last action.
fn drive(run: &mut Run, early: Vec<LogRecord>, events: Vec<RunEvent>) -> (String, RunAction) {
    let mut log = String::new();
    for record in early {
        log.push_str(&record.to_line());
    }
    let mut last = RunAction::Continue;
    for event in events {
        let step = run.on_event(event);
        if let Some(record) = step.record {
            log.push_str(&record.to_line());
        }
        last = step.action;
    }
    (log, last)
}

#[test]
fn run_ids_count_from_one_without_gaps() {
    let mut runner = LoggedCmd::new();
    let mut ids = Vec::new();
    for _ in 0..50 {
        let (run, _) = runner.run_command("true", &Vec::new(), None);
        ids.push(run.run_id);
    }
    let expected: Vec<i32> = (1..=50).collect();
    assert_eq!(ids, expected);
}

#[test]
fn each_runner_numbers_its_own_runs() {
    let mut first = LoggedCmd::new();
    let mut second = LoggedCmd::new();
    assert_eq!(first.run_command("a", &Vec::new(), None).0.run_id, 1);
    assert_eq!(first.run_command("a", &Vec::new(), None).0.run_id, 2);
    assert_eq!(second.run_command("a", &Vec::new(), None).0.run_id, 1);
}

#[test]
fn log_file_name_is_kept() {
    let mut runner = LoggedCmd::new();
    assert_eq!(runner.log_file(), "");
    runner.set_log_file("/tmp/x/cluster.log".to_string());
    assert_eq!(runner.log_file(), "/tmp/x/cluster.log");
    assert_eq!(runner.run_command("a", &Vec::new(), None).0.run_id, 1);
}

#[test]
fn successful_run_logs_started_output_and_exit() {
    let mut runner = LoggedCmd::new();
    let (mut run, early) = runner.run_command("echo", &words(&["Test Success"]), None);
    assert!(early.is_empty());
    let (log, last) = drive(
        &mut run,
        early,
        vec![
            RunEvent::Spawned,
            RunEvent::Stdout("Test Success".to_string()),
            RunEvent::Exited(status(0)),
        ],
    );
    assert_eq!(
        log,
        "started[1]      -> echo Test Success\nstdout[1]       -> Test Success\nexited[1]       -> status = 0\n"
    );
    assert_eq!(last, RunAction::Finish(Ok(status(0))));
    assert_eq!(run.phase, RunPhase::Finished);
}

#[test]
fn failing_run_logs_stderr_and_fails_with_the_status() {
    let mut runner = LoggedCmd::new();
    let (mut run, early) = runner.run_command("ls", &words(&["/nonexistent_path"]), None);
    let (log, last) = drive(
        &mut run,
        early,
        vec![
            RunEvent::Spawned,
            RunEvent::Stderr(
                "ls: cannot access '/nonexistent_path': No such file or directory".to_string(),
            ),
            RunEvent::Exited(status(2)),
        ],
    );
    assert_eq!(
        log,
        "started[1]      -> ls /nonexistent_path\nstderr[1]       -> ls: cannot access '/nonexistent_path': No such file or directory\nexited[1]       -> status = 2\n"
    );
    assert_eq!(last, RunAction::Finish(Err(RunError::CommandFailed(status(2)))));
}

#[test]
fn environment_overrides_are_logged_before_the_start() {
    let mut runner = LoggedCmd::new();
    let options = RunOptions {
        env: vec![
            ("TEST_ENV".to_string(), "12345".to_string()),
            ("OTHER".to_string(), "a=b".to_string()),
        ],
        ..Default::default()
    };
    let (mut run, early) = runner.run_command("printenv", &words(&["TEST_ENV"]), Some(options));
    assert_eq!(early.len(), 2);
    assert_eq!(early[0].tag, LogTag::Env);
    let (log, last) = drive(
        &mut run,
        early,
        vec![
            RunEvent::Spawned,
            RunEvent::Stdout("12345".to_string()),
            RunEvent::Exited(status(0)),
        ],
    );
    assert_eq!(
        log,
        "env[1]          -> TEST_ENV=12345\nenv[1]          -> OTHER=a=b\nstarted[1]      -> printenv TEST_ENV\nstdout[1]       -> 12345\nexited[1]       -> status = 0\n"
    );
    assert_eq!(last, RunAction::Finish(Ok(status(0))));
    assert_eq!(run.env.len(), 2);
    assert!(!run.allow_failure);
}

#[test]
fn exit_code_decides_unless_failure_is_allowed() {
    assert_eq!(classify(status(0), false), Ok(status(0)));
    assert_eq!(classify(status(2), false), Err(RunError::CommandFailed(status(2))));
    assert_eq!(classify(status(2), true), Ok(status(2)));
    assert_eq!(classify(status(0), true), Ok(status(0)));
    let killed = ExitStatus { code: None };
    assert_eq!(classify(killed, false), Err(RunError::CommandFailed(killed)));
    assert_eq!(classify(killed, true), Ok(killed));
    assert!(status(0).success());
    assert!(!status(-1).success());
    assert!(!killed.success());
}

#[test]
fn allowed_failure_ends_the_run_with_the_status() {
    let mut runner = LoggedCmd::new();
    let options = RunOptions { env: Vec::new(), allow_failure: Some(true) };
    let (mut run, early) = runner.run_command("false", &Vec::new(), Some(options));
    assert!(run.allow_failure);
    let (log, last) = drive(&mut run, early, vec![RunEvent::Spawned, RunEvent::Exited(status(2))]);
    assert_eq!(log, "started[1]      -> false \nexited[1]       -> status = 2\n");
    assert_eq!(last, RunAction::Finish(Ok(status(2))));

    let options = RunOptions { env: Vec::new(), allow_failure: Some(false) };
    let (mut run, _) = runner.run_command("false", &Vec::new(), Some(options));
    assert!(!run.allow_failure);
    assert_eq!(run.run_id, 2);
    run.on_event(RunEvent::Spawned);
    assert_eq!(
        run.on_event(RunEvent::Exited(status(2))).action,
        RunAction::Finish(Err(RunError::CommandFailed(status(2))))
    );
}

#[test]
fn killed_child_is_logged_as_unknown() {
    let mut runner = LoggedCmd::new();
    let (mut run, early) = runner.run_command("sleep", &words(&["100"]), None);
    let killed = ExitStatus { code: None };
    let (log, last) = drive(&mut run, early, vec![RunEvent::Spawned, RunEvent::Exited(killed)]);
    assert_eq!(log, "started[1]      -> sleep 100\nexited[1]       -> status = unknown\n");
    assert_eq!(last, RunAction::Finish(Err(RunError::CommandFailed(killed))));
}

#[test]
fn spawn_failure_is_logged_with_what_could_not_start() {
    let mut runner = LoggedCmd::new();
    let options = RunOptions {
        env: vec![("A".to_string(), "1".to_string())],
        ..Default::default()
    };
    let (mut run, early) =
        runner.run_command("/no/such/tool", &words(&["-v", "x y"]), Some(options));
    let (log, last) = drive(
        &mut run,
        early,
        vec![
            RunEvent::SpawnFailed("No such file or directory (os error 2)".to_string()),
            RunEvent::Stdout("late".to_string()),
            RunEvent::Exited(status(0)),
        ],
    );
    assert_eq!(
        log,
        "env[1]          -> A=1\nfailed[1]       -> could not start /no/such/tool -v x y: No such file or directory (os error 2)\n"
    );
    assert_eq!(last, RunAction::Continue);
    assert_eq!(run.phase, RunPhase::Finished);

    let (mut run, _) = runner.run_command("/no/such/tool", &Vec::new(), None);
    assert_eq!(run.run_id, 2);
    let step = run.on_event(RunEvent::SpawnFailed("denied".to_string()));
    let record = step.record.unwrap();
    assert_eq!(record.tag, LogTag::Failed);
    assert_eq!(record.run_id, 2);
    assert_eq!(record.payload, "could not start /no/such/tool : denied");
    assert_eq!(step.action, RunAction::Finish(Err(RunError::SpawnFailed("denied".to_string()))));
    assert_eq!(runner.run_command("next", &Vec::new(), None).0.run_id, 3);
}

#[test]
fn wait_failure_is_logged_and_is_its_own_error() {
    let mut runner = LoggedCmd::new();
    let (mut run, early) = runner.run_command("tool", &words(&["a", "b"]), None);
    let (log, last) = drive(
        &mut run,
        early,
        vec![RunEvent::Spawned, RunEvent::WaitFailed("no child".to_string())],
    );
    assert_eq!(
        log,
        "started[1]      -> tool a b\nexited[1]       -> failed to wait on child process: = no child\n"
    );
    assert_eq!(last, RunAction::Finish(Err(RunError::WaitFailed("no child".to_string()))));
}

#[test]
fn events_out_of_turn_change_nothing() {
    let mut runner = LoggedCmd::new();
    let (mut run, _) = runner.run_command("tool", &Vec::new(), None);
    for event in vec![
        RunEvent::Stdout("x".to_string()),
        RunEvent::Stderr("y".to_string()),
        RunEvent::Exited(status(0)),
        RunEvent::WaitFailed("z".to_string()),
    ] {
        let step = run.on_event(event);
        assert!(step.record.is_none());
        assert_eq!(step.action, RunAction::Continue);
        assert_eq!(run.phase, RunPhase::Created);
    }
    assert_eq!(run.on_event(RunEvent::Spawned).action, RunAction::Supervise);
    let again = run.on_event(RunEvent::Spawned);
    assert!(again.record.is_none());
    assert_eq!(again.action, RunAction::Continue);
    assert_eq!(run.phase, RunPhase::Running);
    run.on_event(RunEvent::Exited(status(0)));
    let after = run.on_event(RunEvent::Exited(status(1)));
    assert!(after.record.is_none());
    assert_eq!(after.action, RunAction::Continue);
}

#[test]
fn one_started_then_streams_then_one_exited() {
    let mut runner = LoggedCmd::new();
    let (mut run, early) = runner.run_command("tool", &Vec::new(), None);
    let mut tags = Vec::new();
    for record in &early {
        tags.push(record.tag);
    }
    for event in vec![
        RunEvent::Stdout("too early".to_string()),
        RunEvent::Spawned,
        RunEvent::Stderr("e1".to_string()),
        RunEvent::Stdout("o1".to_string()),
        RunEvent::Spawned,
        RunEvent::Stdout("o2".to_string()),
        RunEvent::Exited(status(0)),
        RunEvent::Stderr("too late".to_string()),
        RunEvent::Exited(status(3)),
    ] {
        if let Some(record) = run.on_event(event).record {
            assert_eq!(record.run_id, 1);
            assert_eq!(record.to_line().matches('\n').count(), 1);
            tags.push(record.tag);
        }
    }
    assert_eq!(
        tags,
        vec![LogTag::Started, LogTag::Stderr, LogTag::Stdout, LogTag::Stdout, LogTag::Exited]
    );
}

#[test]
fn tag_field_is_padded_to_fifteen() {
    let line = |tag: LogTag, run_id: i32| LogRecord { tag, run_id, payload: "p".to_string() }.to_line();
    assert_eq!(line(LogTag::Env, 7), "env[7]          -> p\n");
    assert_eq!(line(LogTag::Stdout, 123456), "stdout[123456]  -> p\n");
    assert_eq!(line(LogTag::Started, 123456), "started[123456] -> p\n");
    assert_eq!(line(LogTag::Started, 1234567), "started[1234567] -> p\n");
    assert_eq!(line(LogTag::Exited, i32::MIN), "exited[-2147483648] -> p\n");
    assert_eq!(line(LogTag::Stderr, 0), "stderr[0]       -> p\n");
    assert_eq!(line(LogTag::Failed, 31), "failed[31]      -> p\n");
}

#[test]
fn stream_lines_are_logged_verbatim() {
    let record = LogRecord { tag: LogTag::Stdout, run_id: 2, payload: "   indented \t".to_string() };
    assert_eq!(record.to_line(), "stdout[2]       ->    indented \t\n");
    let empty = LogRecord { tag: LogTag::Stderr, run_id: 2, payload: String::new() };
    assert_eq!(empty.to_line(), "stderr[2]       -> \n");
}

#[test]
fn decimal_text_of_integers() {
    assert_eq!(decimal_string(0), "0");
    assert_eq!(decimal_string(7), "7");
    assert_eq!(decimal_string(10), "10");
    assert_eq!(decimal_string(-1), "-1");
    assert_eq!(decimal_string(9007199254740993), "9007199254740993");
    assert_eq!(decimal_string(i64::MAX), "9223372036854775807");
    assert_eq!(decimal_string(i64::MIN), "-9223372036854775808");
}

#[test]
fn padding_and_joining() {
    let mut s = "ab".to_string();
    pad_to(&mut s, 5);
    assert_eq!(s, "ab   ");
    pad_to(&mut s, 3);
    assert_eq!(s, "ab   ");
    let mut out = "x:".to_string();
    push_joined(&mut out, &words(&["a", "", "c"]), ", ");
    assert_eq!(out, "x:a, , c");
    push_joined(&mut out, &Vec::new(), ", ");
    assert_eq!(out, "x:a, , c");
}

#[test]
fn options_override_each_name_once() {
    let mut options = RunOptions::default();
    assert!(options.is_well_formed());
    options.set_env("A".to_string(), "1".to_string());
    options.set_env("B".to_string(), "2".to_string());
    options.set_env("A".to_string(), "3".to_string());
    options.set_env("C".to_string(), "4".to_string());
    assert_eq!(
        options.env,
        vec![
            ("A".to_string(), "3".to_string()),
            ("B".to_string(), "2".to_string()),
            ("C".to_string(), "4".to_string()),
        ]
    );
    assert!(options.is_well_formed());
    assert_eq!(options.allow_failure, None);
    let twice = RunOptions {
        env: vec![
            ("A".to_string(), "1".to_string()),
            ("B".to_string(), "2".to_string()),
            ("A".to_string(), "1".to_string()),
        ],
        allow_failure: Some(true),
    };
    assert!(!twice.is_well_formed());
    let mut mended = twice.clone();
    mended.set_env("A".to_string(), "9".to_string());
    assert_eq!(mended.env[0], ("A".to_string(), "9".to_string()));
    assert_eq!(mended.env.len(), 3);
    assert_eq!(mended.allow_failure, Some(true));
}

#[test]
fn each_stream_keeps_its_lines_in_order() {
    let mut runner = LoggedCmd::new();
    let (mut run, _) = runner.run_command("tool", &Vec::new(), None);
    run.on_event(RunEvent::Spawned);
    let mut out = Vec::new();
    let mut err = Vec::new();
    for event in vec![
        RunEvent::Stdout("o1".to_string()),
        RunEvent::Stderr(" e1".to_string()),
        RunEvent::Stderr("e2".to_string()),
        RunEvent::Stdout("".to_string()),
        RunEvent::Stdout("o1".to_string()),
        RunEvent::Stderr("e3 ".to_string()),
    ] {
        let record = run.on_event(event).record.unwrap();
        match record.tag {
            LogTag::Stdout => out.push(record.payload),
            LogTag::Stderr => err.push(record.payload),
            _ => panic!("a stream line gave another record"),
        }
    }
    assert_eq!(out, vec!["o1", "", "o1"]);
    assert_eq!(err, vec![" e1", "e2", "e3 "]);
}

use sqlness::runner::{
    filter_names, keep_names, Command, Event, Input, Phase, ReconciliationRecord, Run,
};
use sqlness::{Config, ConfigBuilder, Runner, SqlnessError};

fn runner(fail_fast: bool) -> Runner {
    Runner::new(
        ConfigBuilder::default()
            .case_dir("cases".to_string())
            .fail_fast(fail_fast)
            .build()
            .unwrap(),
    )
}

fn names(list: &[&str]) -> Vec<String> {
    list.iter().map(|s| s.to_string()).collect()
}

/// What the host would do for each command, by name.
fn label(command: &Command) -> String {
    match command {
        Command::Discover { case_dir } => format!("discover {case_dir}"),
        Command::Start { env, config } => format!("start {env} {config}"),
        Command::Collect { root, follow_links } => format!("collect {root} {follow_links}"),
        Command::RunCase { case, case_file, result_file } => {
            format!("run {case} {case_file} {result_file}")
        }
        Command::Stop { env } => format!("stop {env}"),
        Command::Done(Ok(())) => "done ok".to_string(),
        Command::Done(Err(e)) => format!("done {}", e.message()),
    }
}

/// Drives a run over the environments and the outcome of each of their
/// cases; gives every command in order.
fn drive(runner: &Runner, environments: &[(&str, &[(&str, Option<bool>)])]) -> Vec<String> {
    let mut run = runner.start();
    let mut log = Vec::new();
    let mut event = Event::Begin;
    loop {
        let command = runner.advance(&mut run, event);
        log.push(label(&command));
        event = match command {
            Command::Discover { .. } => {
                Event::Environments(environments.iter().map(|e| e.0.to_string()).collect())
            }
            Command::Start { .. } => Event::Started,
            Command::Collect { root, .. } => {
                let env = root.rsplit('/').next().unwrap().to_string();
                let cases = environments.iter().find(|e| e.0 == env).unwrap().1;
                Event::Files(cases.iter().map(|c| format!("{root}/{}.sql", c.0)).collect())
            }
            Command::RunCase { case, .. } => {
                let mut parts = case.rsplit('/');
                let name = parts.next().unwrap();
                let env = parts.next().unwrap();
                let cases = environments.iter().find(|e| e.0 == env).unwrap().1;
                match cases.iter().find(|c| c.0 == name).unwrap().1 {
                    Some(true) => Event::Passed,
                    Some(false) => Event::Differed,
                    None => Event::Failed(SqlnessError::IOFailure { reason: name.to_string() }),
                }
            }
            Command::Stop { .. } => Event::Stopped,
            Command::Done(_) => return log,
        }
    }
}

#[test]
fn run_that_passes() {
    let log = drive(
        &runner(true),
        &[("local", &[("b", Some(true)), ("a", Some(true))]), ("remote", &[("c", Some(true))])],
    );
    assert_eq!(
        log,
        vec![
            "discover cases",
            "start local cases/local/config.toml",
            "collect cases/local true",
            "run cases/local/a cases/local/a.sql cases/local/a.result",
            "run cases/local/b cases/local/b.sql cases/local/b.result",
            "stop local",
            "start remote cases/remote/config.toml",
            "collect cases/remote true",
            "run cases/remote/c cases/remote/c.sql cases/remote/c.result",
            "stop remote",
            "done ok",
        ]
    );
}

#[test]
fn fail_fast_never_starts_the_next_environment() {
    let log = drive(
        &runner(true),
        &[("local", &[("a", None), ("b", Some(true))]), ("remote", &[("c", Some(true))])],
    );
    assert_eq!(
        log,
        vec![
            "discover cases",
            "start local cases/local/config.toml",
            "collect cases/local true",
            "run cases/local/a cases/local/a.sql cases/local/a.result",
            "stop local",
            "done IO operation failed, source error: a",
        ]
    );
}

#[test]
fn fail_fast_on_a_difference() {
    let log = drive(
        &runner(true),
        &[("local", &[("a", Some(false)), ("b", Some(true))]), ("remote", &[("c", Some(true))])],
    );
    assert_eq!(log.len(), 6);
    assert_eq!(log[4], "stop local");
    assert_eq!(log[5], "done Run failed. 1 cases can't pass");
}

#[test]
fn collect_all_counts_the_failures() {
    let log = drive(
        &runner(false),
        &[("local", &[("a", Some(true)), ("b", Some(false)), ("c", Some(true))])],
    );
    assert_eq!(
        log,
        vec![
            "discover cases",
            "start local cases/local/config.toml",
            "collect cases/local true",
            "run cases/local/a cases/local/a.sql cases/local/a.result",
            "run cases/local/b cases/local/b.sql cases/local/b.result",
            "run cases/local/c cases/local/c.sql cases/local/c.result",
            "stop local",
            "done Run failed. 1 cases can't pass",
        ]
    );
}

#[test]
fn collect_all_runs_every_environment() {
    let log = drive(
        &runner(false),
        &[
            ("local", &[("a", None), ("b", Some(false))]),
            ("empty", &[]),
            ("remote", &[("c", Some(true)), ("d", Some(false))]),
        ],
    );
    assert_eq!(log.iter().filter(|l| l.starts_with("run ")).count(), 4);
    assert_eq!(log.iter().filter(|l| l.starts_with("start ")).count(), 3);
    assert_eq!(log.iter().filter(|l| l.starts_with("stop ")).count(), 3);
    assert_eq!(log.last().unwrap(), "done Run failed. 3 cases can't pass");
}

#[test]
fn environments_are_filtered() {
    let runner = Runner::new(
        ConfigBuilder::default()
            .case_dir("cases".to_string())
            .env_filter("^re".to_string())
            .test_filter("remote:.*[ac]$".to_string())
            .follow_links(false)
            .env_config_file("env.toml".to_string())
            .test_case_extension("test".to_string())
            .result_extension("out".to_string())
            .build()
            .unwrap(),
    );
    let mut run = runner.start();
    assert!(matches!(runner.advance(&mut run, Event::Begin), Command::Discover { .. }));
    let command = runner.advance(&mut run, Event::Environments(names(&["local", "remote", "rest"])));
    assert_eq!(run.environments, names(&["remote", "rest"]));
    assert_eq!(label(&command), "start remote cases/remote/env.toml");
    let command = runner.advance(&mut run, Event::Started);
    assert_eq!(label(&command), "collect cases/remote false");
    let files = names(&[
        "cases/remote/c.test",
        "cases/remote/b.test",
        "cases/remote/a.sql",
        "cases/remote/sub/a.test",
        "cases/remote/sub/a.out",
    ]);
    let command = runner.advance(&mut run, Event::Files(files));
    assert_eq!(run.cases, names(&["cases/remote/c", "cases/remote/sub/a"]));
    assert_eq!(label(&command), "run cases/remote/c cases/remote/c.test cases/remote/c.out");
}

#[test]
fn filter_that_is_no_regular_expression() {
    let runner = Runner::new(
        ConfigBuilder::default()
            .case_dir("cases".to_string())
            .env_filter("(".to_string())
            .fail_fast(false)
            .build()
            .unwrap(),
    );
    let mut run = runner.start();
    assert_eq!(label(&runner.advance(&mut run, Event::Begin)), "discover cases");
    match runner.advance(&mut run, Event::Environments(names(&["local"]))) {
        Command::Done(Err(SqlnessError::ParseConfig { reason })) => {
            assert!(reason.starts_with("Invalid filter `(`, err:"));
        }
        other => panic!("unexpected: {:?}", other),
    }
    assert_eq!(run.phase, Phase::Finished);
    let runner = Runner::new(
        ConfigBuilder::default()
            .case_dir("cases".to_string())
            .test_filter("[".to_string())
            .build()
            .unwrap(),
    );
    let mut run = runner.start();
    runner.advance(&mut run, Event::Begin);
    runner.advance(&mut run, Event::Environments(names(&["local", "remote"])));
    runner.advance(&mut run, Event::Started);
    let command = runner.advance(&mut run, Event::Files(names(&["cases/local/a.sql"])));
    assert_eq!(label(&command), "stop local");
    assert!(matches!(
        runner.advance(&mut run, Event::Stopped),
        Command::Done(Err(SqlnessError::ParseConfig { .. }))
    ));
}

#[test]
fn decisions_on_what_the_filters_let_through() {
    let runner = runner(false);
    let mut run = runner.start();
    assert_eq!(label(&runner.decide(&mut run, Input::Unexpected)), "discover cases");
    let command = runner.decide(&mut run, Input::Environments(names(&["b", "a"])));
    assert_eq!(label(&command), "start b cases/b/config.toml");
    assert_eq!(label(&runner.decide(&mut run, Input::Started)), "collect cases/b true");
    let command = runner.decide(&mut run, Input::Cases(names(&["cases/b/y", "cases/b/x"])));
    assert_eq!(label(&command), "run cases/b/y cases/b/y.sql cases/b/y.result");
    let command = runner.decide(&mut run, Input::Differed);
    assert_eq!(label(&command), "run cases/b/x cases/b/x.sql cases/b/x.result");
    assert_eq!(label(&runner.decide(&mut run, Input::Passed)), "stop b");
    assert_eq!(label(&runner.decide(&mut run, Input::Cases(Vec::new()))), "stop b");
    assert_eq!(label(&runner.decide(&mut run, Input::Stopped)), "start a cases/a/config.toml");
    let e = SqlnessError::IOFailure { reason: "down".to_string() };
    match runner.decide(&mut run, Input::Failed(e)) {
        Command::Done(Err(SqlnessError::RunFailed { count })) => assert_eq!(count, 2),
        other => panic!("unexpected: {:?}", other),
    }
    assert_eq!(run.offenders, names(&["cases/b/y", "a"]));
}

#[test]
fn events_are_resolved() {
    let runner = Runner::new(
        ConfigBuilder::default()
            .case_dir("cases".to_string())
            .env_filter("a".to_string())
            .test_filter("x".to_string())
            .build()
            .unwrap(),
    );
    let mut run = runner.start();
    assert!(matches!(runner.resolve(&run, Event::Begin), Input::Unexpected));
    assert!(matches!(
        runner.resolve(&run, Event::Environments(names(&["a"]))),
        Input::Unexpected
    ));
    runner.advance(&mut run, Event::Begin);
    match runner.resolve(&run, Event::Environments(names(&["b", "ab", "c", "a"]))) {
        Input::Environments(found) => assert_eq!(found, names(&["ab", "a"])),
        other => panic!("unexpected: {:?}", other),
    }
    assert!(matches!(runner.resolve(&run, Event::Started), Input::Unexpected));
    runner.advance(&mut run, Event::Environments(names(&["ab"])));
    assert!(matches!(runner.resolve(&run, Event::Started), Input::Started));
    runner.advance(&mut run, Event::Started);
    match runner.resolve(&run, Event::Files(names(&["cases/ab/y.sql", "cases/ab/x.sql"]))) {
        Input::Cases(found) => assert_eq!(found, names(&["cases/ab/x"])),
        other => panic!("unexpected: {:?}", other),
    }
    assert_eq!(
        keep_names(&names(&["a", "b", "c", "d"]), &vec![true, false, true]),
        names(&["a", "c"])
    );
    assert_eq!(filter_names(&names(&["a1", "b", "a2"]), "^a").unwrap(), names(&["a1", "a2"]));
    assert!(filter_names(&names(&["a"]), "(").is_err());
}

#[test]
fn discovery_that_fails() {
    let runner = runner(false);
    let mut run = runner.start();
    runner.advance(&mut run, Event::Begin);
    let e = SqlnessError::ReadPath { path: "cases".to_string(), reason: "gone".to_string() };
    match runner.advance(&mut run, Event::Failed(e)) {
        Command::Done(Err(SqlnessError::ReadPath { path, reason })) => {
            assert_eq!(path, "cases");
            assert_eq!(reason, "gone");
        }
        other => panic!("unexpected: {:?}", other),
    }
}

#[test]
fn no_environment_is_a_run_that_passes() {
    let runner = runner(true);
    let mut run = runner.start();
    runner.advance(&mut run, Event::Begin);
    assert!(matches!(
        runner.advance(&mut run, Event::Environments(Vec::new())),
        Command::Done(Ok(()))
    ));
}

#[test]
fn adapter_that_does_not_start() {
    let io = || SqlnessError::IOFailure { reason: "refused".to_string() };
    // failing fast, the run is over: there is nothing to stop
    let fast = runner(true);
    let mut run = fast.start();
    fast.advance(&mut run, Event::Begin);
    fast.advance(&mut run, Event::Environments(names(&["local", "remote"])));
    assert!(matches!(
        fast.advance(&mut run, Event::Failed(io())),
        Command::Done(Err(SqlnessError::IOFailure { .. }))
    ));
    // else the next environment is started
    let all = runner(false);
    let mut run = all.start();
    all.advance(&mut run, Event::Begin);
    all.advance(&mut run, Event::Environments(names(&["local", "remote"])));
    let command = all.advance(&mut run, Event::Failed(io()));
    assert_eq!(label(&command), "start remote cases/remote/config.toml");
    all.advance(&mut run, Event::Started);
    assert_eq!(label(&all.advance(&mut run, Event::Files(Vec::new()))), "stop remote");
    match all.advance(&mut run, Event::Stopped) {
        Command::Done(Err(SqlnessError::RunFailed { count })) => assert_eq!(count, 1),
        other => panic!("unexpected: {:?}", other),
    }
    assert_eq!(run.offenders, names(&["local"]));
}

#[test]
fn files_that_cannot_be_listed() {
    let runner = runner(true);
    let mut run = runner.start();
    runner.advance(&mut run, Event::Begin);
    runner.advance(&mut run, Event::Environments(names(&["local", "remote"])));
    runner.advance(&mut run, Event::Started);
    let e = SqlnessError::IOFailure { reason: "walk".to_string() };
    assert_eq!(label(&runner.advance(&mut run, Event::Failed(e))), "stop local");
    assert_eq!(
        label(&runner.advance(&mut run, Event::Stopped)),
        "done IO operation failed, source error: walk"
    );
}

#[test]
fn what_was_not_asked_for_is_asked_again() {
    let runner = runner(true);
    let mut run = runner.start();
    assert_eq!(label(&runner.advance(&mut run, Event::Stopped)), "discover cases");
    assert_eq!(label(&runner.advance(&mut run, Event::Passed)), "discover cases");
    runner.advance(&mut run, Event::Environments(names(&["local"])));
    assert_eq!(
        label(&runner.advance(&mut run, Event::Passed)),
        "start local cases/local/config.toml"
    );
    runner.advance(&mut run, Event::Started);
    assert_eq!(label(&runner.advance(&mut run, Event::Started)), "collect cases/local true");
    runner.advance(&mut run, Event::Files(names(&["cases/local/a.sql"])));
    assert_eq!(
        label(&runner.advance(&mut run, Event::Stopped)),
        "run cases/local/a cases/local/a.sql cases/local/a.result"
    );
    assert_eq!(label(&runner.advance(&mut run, Event::Passed)), "stop local");
    assert_eq!(label(&runner.advance(&mut run, Event::Passed)), "stop local");
    assert_eq!(label(&runner.advance(&mut run, Event::Stopped)), "done ok");
    assert_eq!(label(&runner.advance(&mut run, Event::Begin)), "done ok");
}

#[test]
fn start_of_a_run() {
    let config: Config = ConfigBuilder::default().case_dir("x".to_string()).build().unwrap();
    let runner = Runner::new(config);
    let run: Run = runner.start();
    assert_eq!(run.phase, Phase::Idle);
    assert!(run.environments.is_empty() && run.cases.is_empty() && run.offenders.is_empty());
    assert!(run.cause.is_none());
    assert_eq!(runner.read_env_config("local"), "x/local/config.toml");
}

#[test]
fn compare_results() {
    let runner = runner(true);
    assert_eq!(runner.compare("a\nb\n", "a\nb\n"), None);
    assert_eq!(runner.compare("", ""), None);
    let diff = runner.compare("a\nb\n", "a\nc\n").unwrap();
    assert!(diff.contains('b') && diff.contains('c'));
    assert!(runner.compare("a", "a\n").is_some());
    assert_ne!(runner.compare("a\nb", "a\nc"), runner.compare("a\nb", "a\nd"));
}

#[test]
fn reconciliation() {
    let same = ReconciliationRecord::new("a\n\n1\n\n".to_string(), "a\n\n1\n\n".to_string());
    assert!(same.passed());
    assert_eq!(same.diff(), None);
    assert!(matches!(same.outcome(), Event::Passed));
    assert_eq!(same.persisted(), "a\n\n1\n\n");
    let other = ReconciliationRecord::new("a\n\n1\n\n".to_string(), "a\n\n2\n\n".to_string());
    assert!(!other.passed());
    assert!(other.diff().is_some());
    assert!(matches!(other.outcome(), Event::Differed));
    assert_eq!(other.persisted(), "a\n\n2\n\n");
    let first = ReconciliationRecord::new(String::new(), "a\n".to_string());
    assert!(matches!(first.outcome(), Event::Differed));
    assert_eq!(first.persisted(), "a\n");
}

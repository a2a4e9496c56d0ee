use sqlness::case::{Action, Query, TestCase};
use sqlness::interceptor::env::EnvInterceptorFactory;
use sqlness::interceptor::{Delay, InterceptorFactoryRef, Registry};
use sqlness::{Config, ConfigBuilder, QueryContext, SqlnessError};

fn config() -> Config {
    ConfigBuilder::default().case_dir("cases".to_string()).build().unwrap()
}

/// Runs a statement against an adapter; gives what was written, what was
/// sent and the pauses that were asked for.
fn run(
    query: &mut Query,
    adapter: &dyn Fn(&QueryContext, &str) -> String,
) -> (String, Vec<String>, Vec<Delay>) {
    let mut execution = query.begin();
    let mut sent = Vec::new();
    let mut pauses = Vec::new();
    let mut answer = None;
    loop {
        match query.step(&mut execution, answer.take()) {
            Action::Pause(delay) => {
                assert!(sent.is_empty());
                pauses.push(delay);
            }
            Action::Submit(context, statement) => {
                answer = Some(adapter(&context, &statement));
                sent.push(statement);
            }
            Action::Finished => return (execution.output, sent, pauses),
        }
    }
}

fn echo(_: &QueryContext, statement: &str) -> String {
    statement.to_string()
}

fn run_case(text: &str, cfg: &Config, adapter: &dyn Fn(&QueryContext, &str) -> String) -> String {
    let mut case = TestCase::from_text("case", text, cfg).unwrap();
    let mut output = String::new();
    for query in case.queries.iter_mut() {
        output.push_str(&run(query, adapter).0);
    }
    output
}

#[test]
fn parse_statements() {
    let cfg = config();
    let case = TestCase::from_text("dir/basic.sql", "SELECT 1;\n\nSELECT\n  2\n;\n", &cfg).unwrap();
    assert_eq!(case.name, "dir/basic.sql");
    assert_eq!(case.queries.len(), 2);
    assert_eq!(case.queries[0].display_query, vec!["SELECT 1;"]);
    assert_eq!(case.queries[0].execute_query, vec!["SELECT 1;"]);
    assert!(case.queries[0].comment_lines.is_empty());
    assert!(case.queries[0].interceptors.is_empty());
    assert_eq!(case.queries[1].display_query, vec!["SELECT", "\n", "  2", "\n", ";"]);
    assert_eq!(case.queries[1].execute_query, vec!["SELECT", "\n", "  2", "\n", ";"]);
}

#[test]
fn parse_comments_and_directives() {
    let cfg = config();
    let text = "-- a comment\n-- SQLNESS SORT_RESULT 1\n-- SQLNESS ARG a=b\nSELECT 1;\n--x\nSELECT 2;";
    let case = TestCase::from_text("c", text, &cfg).unwrap();
    assert_eq!(case.queries.len(), 2);
    assert_eq!(
        case.queries[0].comment_lines,
        vec!["-- a comment", "-- SQLNESS SORT_RESULT 1", "-- SQLNESS ARG a=b"]
    );
    assert_eq!(case.queries[0].interceptors.len(), 2);
    assert_eq!(case.queries[1].comment_lines, vec!["--x"]);
    assert!(case.queries[1].interceptors.is_empty());
}

#[test]
fn parse_drops_what_has_no_delimiter() {
    let cfg = config();
    let case = TestCase::from_text("c", "SELECT 1;\nSELECT 2\n-- SQLNESS ARG a=b\n", &cfg).unwrap();
    assert_eq!(case.queries.len(), 1);
    let none = TestCase::from_text("c", "", &cfg).unwrap();
    assert!(none.queries.is_empty());
}

#[test]
fn parse_takes_carriage_returns_off() {
    let cfg = config();
    let case = TestCase::from_text("c", "SELECT\r\n1;\r\n", &cfg).unwrap();
    assert_eq!(case.queries.len(), 1);
    assert_eq!(case.queries[0].display_query, vec!["SELECT", "\n", "1;"]);
}

#[test]
fn parse_fails_with_the_directive() {
    let cfg = config();
    match TestCase::from_text("c", "-- SQLNESS WHAT 1\nSELECT 1;", &cfg) {
        Err(SqlnessError::UnknownInterceptor { prefix }) => assert_eq!(prefix, "WHAT"),
        _ => panic!("unexpected"),
    }
    match TestCase::from_text("c", "SELECT 1;\n-- SQLNESS\nSELECT 2;", &cfg) {
        Err(SqlnessError::MissingPrefix { line }) => assert_eq!(line, ""),
        _ => panic!("unexpected"),
    }
    match TestCase::from_text("c", "-- SQLNESS SLEEP never\nSELECT 1;", &cfg) {
        Err(SqlnessError::InvalidContext { prefix, .. }) => assert_eq!(prefix, "SLEEP"),
        _ => panic!("unexpected"),
    }
}

#[test]
fn parse_with_another_marker() {
    let cfg = ConfigBuilder::default()
        .case_dir("cases".to_string())
        .interceptor_prefix("#!".to_string())
        .build()
        .unwrap();
    let case = TestCase::from_text("c", "#! SORT_RESULT\n-- SQLNESS ARG a=b\nSELECT 1;", &cfg).unwrap();
    assert_eq!(case.queries.len(), 1);
    assert_eq!(case.queries[0].interceptors.len(), 1);
    assert_eq!(case.queries[0].comment_lines, vec!["#! SORT_RESULT", "-- SQLNESS ARG a=b"]);
}

#[test]
fn push_interceptor_wants_the_prefix() {
    let registry = Registry::default();
    let mut query = Query::with_interceptor_factories(&registry);
    match query.push_interceptor("-- SQLNESS", "SELECT 1;") {
        Err(SqlnessError::MissingPrefix { line }) => assert_eq!(line, "SELECT 1;"),
        _ => panic!("unexpected"),
    }
    assert!(query.push_interceptor("-- SQLNESS", "-- SQLNESS ARG a=b").is_ok());
    assert_eq!(query.interceptors.len(), 1);
}

#[test]
fn echo_reproduces_the_statements() {
    let cfg = config();
    let text = "SELECT 1;\nSELECT a,\n  b\nFROM t;\nINSERT INTO t VALUES (1); SELECT 2;";
    let output = run_case(text, &cfg, &echo);
    assert_eq!(
        output,
        "SELECT 1;\n\nSELECT 1;\n\n\
         SELECT a,\n  b\nFROM t;\n\nSELECT a,\n  b\nFROM t;\n\n\
         INSERT INTO t VALUES (1); SELECT 2;\n\nINSERT INTO t VALUES (1);\n\n SELECT 2;\n\n"
    );
}

#[test]
fn output_of_a_statement() {
    let cfg = config();
    let text = "-- first\n-- SQLNESS REPLACE \\d+ N\nSELECT 42;\n";
    let output = run_case(text, &cfg, &|_, statement| format!("got {statement} 7"));
    assert_eq!(
        output,
        "-- first\n-- SQLNESS REPLACE \\d+ N\nSELECT 42;\n\ngot SELECT N; N\n\n"
    );
}

#[test]
fn fragments_go_one_by_one() {
    let registry = Registry::default();
    let mut query = Query::with_interceptor_factories(&registry);
    query.append_query_line("  a; ;b");
    query.append_query_line("\n");
    query.append_query_line(";;c ;");
    let (output, sent, pauses) = run(&mut query, &|_, statement| statement.trim().to_uppercase());
    assert_eq!(sent, vec!["a;", "b\n;", "c ;"]);
    assert!(pauses.is_empty());
    assert_eq!(output, "  a; ;b\n;;c ;\n\nA;\n\nB\n;\n\nC ;\n\n");
    assert_eq!(query.concat_query_lines(), "a; ;b\n;;c ;");
}

#[test]
fn statement_of_delimiters_sends_nothing() {
    let registry = Registry::default();
    let mut query = Query::with_interceptor_factories(&registry);
    query.append_query_line(" ; ;");
    let (output, sent, _) = run(&mut query, &echo);
    assert!(sent.is_empty());
    assert_eq!(output, " ; ;\n\n");
}

#[test]
fn sleep_comes_before_the_statement() {
    let cfg = config();
    let mut case = TestCase::from_text("c", "-- SQLNESS SLEEP 200\nSELECT 1;", &cfg).unwrap();
    let query = &mut case.queries[0];
    let mut execution = query.begin();
    match query.step(&mut execution, None) {
        Action::Pause(delay) => assert!(delay.as_millis() >= 200),
        other => panic!("unexpected: {:?}", other),
    }
    assert_eq!(execution.output, "");
    match query.step(&mut execution, None) {
        Action::Submit(_, statement) => assert_eq!(statement, "SELECT 1;"),
        other => panic!("unexpected: {:?}", other),
    }
    assert_eq!(execution.output, "-- SQLNESS SLEEP 200\nSELECT 1;\n\n");
    assert!(matches!(query.step(&mut execution, Some("1".to_string())), Action::Finished));
    assert_eq!(execution.output, "-- SQLNESS SLEEP 200\nSELECT 1;\n\n1\n\n");
}

#[test]
fn pauses_come_in_the_order_of_the_directives() {
    let cfg = config();
    let text = "-- SQLNESS SLEEP 2ms\n-- SQLNESS ARG a=b\n-- SQLNESS SLEEP 1s\nSELECT 1;";
    let mut case = TestCase::from_text("c", text, &cfg).unwrap();
    let (_, sent, pauses) = run(&mut case.queries[0], &echo);
    assert_eq!(sent, vec!["SELECT 1;"]);
    assert_eq!(
        pauses,
        vec![Delay { secs: 0, nanos: 2_000_000 }, Delay { secs: 1, nanos: 0 }]
    );
}

#[test]
fn a_missing_answer_is_asked_for_again() {
    let registry = Registry::default();
    let mut query = Query::with_interceptor_factories(&registry);
    query.append_query_line("SELECT 1; SELECT 2;");
    let mut execution = query.begin();
    assert!(matches!(query.step(&mut execution, Some("early".to_string())), Action::Submit(..)));
    match query.step(&mut execution, None) {
        Action::Submit(_, statement) => assert_eq!(statement, "SELECT 1;"),
        other => panic!("unexpected: {:?}", other),
    }
    match query.step(&mut execution, Some("one".to_string())) {
        Action::Submit(_, statement) => assert_eq!(statement, " SELECT 2;"),
        other => panic!("unexpected: {:?}", other),
    }
    assert!(matches!(query.step(&mut execution, Some("two".to_string())), Action::Finished));
    assert!(matches!(query.step(&mut execution, Some("late".to_string())), Action::Finished));
    assert_eq!(execution.output, "SELECT 1; SELECT 2;\n\none\n\ntwo\n\n");
}

#[test]
fn context_goes_with_every_fragment() {
    let cfg = config();
    let text = "-- SQLNESS ARG db=public mode=fast\n-- SQLNESS ARG mode=slow\nSELECT 1; SELECT 2;";
    let output = run_case(text, &cfg, &|context, _| {
        format!(
            "{}/{}",
            context.get("db").unwrap(),
            context.get("mode").unwrap()
        )
    });
    assert!(output.ends_with("SELECT 1; SELECT 2;\n\npublic/slow\n\npublic/slow\n\n"));
}

#[test]
fn interceptors_run_in_the_order_of_the_directives() {
    let cfg = config();
    let text = "-- SQLNESS REPLACE b a\n-- SQLNESS SORT_RESULT\nSELECT 1;";
    let output = run_case(text, &cfg, &|_, _| "c\nb\na".to_string());
    assert!(output.ends_with("SELECT 1;\n\na\na\nc\n\n"));
    let text = "-- SQLNESS SORT_RESULT\n-- SQLNESS REPLACE a z\nSELECT 1;";
    let output = run_case(text, &cfg, &|_, _| "c\nb\na".to_string());
    assert!(output.ends_with("SELECT 1;\n\nz\nb\nc\n\n"));
}

#[test]
fn env_is_sent_and_not_shown() {
    let mut registry = Registry::default();
    registry.register(
        "ENV",
        InterceptorFactoryRef::Env(EnvInterceptorFactory::with_variables(vec![(
            "SECRET".to_string(),
            "2333".to_string(),
        )])),
    );
    let cfg = ConfigBuilder::default()
        .case_dir("cases".to_string())
        .interceptor_registry(registry)
        .build()
        .unwrap();
    let output = run_case("-- SQLNESS ENV SECRET\nSELECT $SECRET;", &cfg, &echo);
    assert_eq!(output, "-- SQLNESS ENV SECRET\nSELECT $SECRET;\n\nSELECT 2333;\n\n");
}

#[test]
fn template_makes_several_statements() {
    let cfg = config();
    let text = "-- SQLNESS TEMPLATE {\"t\": [\"a\", \"b\"]}\n{% for x in t %}SELECT {{x}}{{ sql_delimiter() }}{% endfor %};";
    let mut case = TestCase::from_text("c", text, &cfg).unwrap();
    let (output, sent, _) = run(&mut case.queries[0], &echo);
    assert_eq!(sent, vec!["SELECT a;", "SELECT b;"]);
    assert!(output.starts_with("-- SQLNESS TEMPLATE {\"t\": [\"a\", \"b\"]}\n{% for x in t %}"));
    assert!(output.ends_with("\n\nSELECT a;\n\nSELECT b;\n\n"));
}

#[test]
fn write_header_and_result() {
    let registry = Registry::default();
    let mut query = Query::with_interceptor_factories(&registry);
    query.push_comment("-- one".to_string());
    query.push_comment("-- two".to_string());
    query.append_query_line("SELECT");
    query.append_query_line("\n");
    query.append_query_line("1;");
    let mut writer = "before|".to_string();
    query.write_header(&mut writer);
    assert_eq!(writer, "before|-- one\n-- two\nSELECT\n1;\n\n");
    query.write_result(&mut writer, "result".to_string());
    assert_eq!(writer, "before|-- one\n-- two\nSELECT\n1;\n\nresult\n\n");
}

#[test]
fn hooks_of_a_statement() {
    let cfg = config();
    let text = "-- SQLNESS ARG a=1\n-- SQLNESS SLEEP 3ms\n-- SQLNESS REPLACE 1 one\n-- SQLNESS ARG a=2 b=3\nSELECT 1;";
    let mut case = TestCase::from_text("c", text, &cfg).unwrap();
    let query = &mut case.queries[0];
    let context = query.before_execute_intercept();
    assert_eq!(context.get("a"), Some(&"2".to_string()));
    assert_eq!(context.get("b"), Some(&"3".to_string()));
    assert_eq!(query.execute_query, vec!["SELECT 1;"]);
    assert_eq!(query.display_query, vec!["SELECT 1;"]);
    assert_eq!(query.pauses(), vec![Delay { secs: 0, nanos: 3_000_000 }]);
    let mut result = "1, 11".to_string();
    query.after_execute_intercept(&mut result);
    assert_eq!(result, "one, oneone");
}

#[test]
fn statements_in_a_text() {
    let split = |text: &str, from: usize| {
        sqlness::case::split_statements(&text.chars().collect(), from)
    };
    assert_eq!(split("a;b;", 0), vec!["a;", "b;"]);
    assert_eq!(split("a;b", 0), vec!["a;", "b;"]);
    assert_eq!(split("a;b;", 2), vec!["b;"]);
    assert_eq!(split(" \n; \t;", 0), Vec::<String>::new());
    assert_eq!(split("", 0), Vec::<String>::new());
    assert_eq!(split(" a ", 0), vec![" a ;"]);
}

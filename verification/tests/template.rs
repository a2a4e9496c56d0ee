use sqlness::interceptor::template::{
    sql_delimiter, TemplateInterceptor, TemplateInterceptorFactory,
};
use sqlness::interceptor::{Interceptor, InterceptorFactory};
use sqlness::{QueryContext, SqlnessError};

#[test]
fn basic_template() {
    let interceptor = TemplateInterceptorFactory
        .try_new(r#"{"name": "test"}"#)
        .unwrap();

    let mut input = vec!["SELECT * FROM table where name = '{{name}}'".to_string()];
    interceptor.before_execute(&mut input, &mut QueryContext::default());

    assert_eq!(input, vec!["SELECT * FROM table where name = 'test'"]);
}

#[test]
fn vector_template() {
    let interceptor = TemplateInterceptorFactory
        .try_new(r#"{"aggr": ["sum", "count", "avg"]}"#)
        .unwrap();

    let mut input = [
        "{%- for item in aggr %}",
        "SELECT {{item}}(c) from t;",
        "{%- endfor %}",
    ]
    .map(|v| v.to_string())
    .to_vec();
    interceptor.before_execute(&mut input, &mut QueryContext::default());

    assert_eq!(
        input,
        [
            "",
            "SELECT sum(c) from t;",
            "SELECT count(c) from t;",
            "SELECT avg(c) from t;"
        ]
        .map(|v| v.to_string())
        .to_vec()
    );
}

#[test]
fn range_template() {
    let interceptor = TemplateInterceptorFactory.try_new(r#""#).unwrap();

    let mut input = [
        "INSERT INTO t (c) VALUES",
        "{%- for num in range(1, 5) %}",
        "({{ num }}){%if not loop.last %}, {% endif %}",
        "{%- endfor %}",
        ";",
    ]
    .map(|v| v.to_string())
    .to_vec();
    interceptor.before_execute(&mut input, &mut QueryContext::default());

    assert_eq!(
        input,
        [
            "INSERT INTO t (c) VALUES",
            "(1), ",
            "(2), ",
            "(3), ",
            "(4)",
            ";"
        ]
        .map(|v| v.to_string())
        .to_vec()
    );
}

#[test]
fn template_knows_the_delimiter() {
    assert_eq!(sql_delimiter(), ";");
    let interceptor = TemplateInterceptorFactory.try_new("{}").unwrap();
    let mut input = vec!["SELECT 1{{ sql_delimiter() }} SELECT 2;".to_string()];
    interceptor.before_execute(&mut input, &mut QueryContext::default());
    assert_eq!(input, vec!["SELECT 1; SELECT 2;".to_string()]);
}

#[test]
fn template_refuses_what_is_no_json() {
    match TemplateInterceptorFactory.try_new("{name: test") {
        Err(SqlnessError::InvalidContext { prefix, msg }) => {
            assert_eq!(prefix, "TEMPLATE");
            assert!(msg.starts_with("Expect json, err:"));
        }
        other => panic!("unexpected: {:?}", other),
    }
}

#[test]
fn template_that_fails_leaves_the_lines() {
    let interceptor = TemplateInterceptorFactory.try_new("{}").unwrap();
    let mut input = vec!["SELECT {% if %}".to_string(), "1;".to_string()];
    let expected = input.clone();
    interceptor.before_execute(&mut input, &mut QueryContext::default());
    assert_eq!(input, expected);
}

#[test]
fn template_once_it_is_rendered() {
    let mut lines = vec!["a".to_string(), "b".to_string()];
    TemplateInterceptor::settle(&mut lines, None);
    assert_eq!(lines, vec!["a", "b"]);
    TemplateInterceptor::settle(&mut lines, Some("x\n\ny\n".to_string()));
    assert_eq!(lines, vec!["x", "", "y", ""]);
    TemplateInterceptor::settle(&mut lines, Some(String::new()));
    assert_eq!(lines, vec![""]);
    let made = TemplateInterceptorFactory::checked("{}".to_string(), None).unwrap();
    assert_eq!(made.data_bindings, "{}");
    match TemplateInterceptorFactory::checked("{".to_string(), Some("eof".to_string())) {
        Err(SqlnessError::InvalidContext { prefix, msg }) => {
            assert_eq!(prefix, "TEMPLATE");
            assert_eq!(msg, "Expect json, err:eof");
        }
        other => panic!("unexpected: {:?}", other),
    }
}

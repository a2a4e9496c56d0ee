use sqlness::interceptor::env::EnvInterceptorFactory;
use sqlness::interceptor::{Interceptor, InterceptorFactory};
use sqlness::QueryContext;

#[test]
fn cut_env_string() {
    let input = "SECRET NONEXISTENT";
    let factory =
        EnvInterceptorFactory::with_variables(vec![("SECRET".to_string(), "2333".to_string())]);

    let expected = vec![("$SECRET".to_string(), "2333".to_string())];

    let interceptor = factory.create(input);
    assert_eq!(interceptor.data, expected);
}

#[test]
fn env_fills_the_lines_that_are_sent() {
    let factory = EnvInterceptorFactory::with_variables(vec![
        ("A".to_string(), "1".to_string()),
        ("B".to_string(), "two".to_string()),
    ]);
    let interceptor = factory.try_new(" A B ").unwrap();
    let mut lines = vec!["SELECT $A, $B,".to_string(), "\n".to_string(), "$A$A$C;".to_string()];
    let mut context = QueryContext::new();
    interceptor.before_execute(&mut lines, &mut context);
    assert_eq!(
        lines,
        vec!["SELECT 1, two,".to_string(), "\n".to_string(), "11$C;".to_string()]
    );
    assert!(context.context.is_empty());
}

#[test]
fn env_without_variables_changes_nothing() {
    let interceptor = EnvInterceptorFactory::new().try_new("SECRET").unwrap();
    let mut lines = vec!["SELECT $SECRET;".to_string()];
    interceptor.before_execute(&mut lines, &mut QueryContext::new());
    assert_eq!(lines, vec!["SELECT $SECRET;".to_string()]);
}

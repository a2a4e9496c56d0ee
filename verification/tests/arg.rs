use sqlness::interceptor::arg::ArgInterceptorFactory;
use sqlness::interceptor::{Interceptor, InterceptorFactory, Registry};
use sqlness::QueryContext;

#[test]
fn cut_arg_string() {
    let input = "ARG arg1=value1 arg2=value2 arg3=a=b=c arg4= arg5=,,,";
    let expected = vec![
        ("arg1".to_string(), "value1".to_string()),
        ("arg2".to_string(), "value2".to_string()),
        ("arg3".to_string(), "a=b=c".to_string()),
        ("arg4".to_string(), "".to_string()),
        ("arg5".to_string(), ",,,".to_string()),
    ];

    let args = ArgInterceptorFactory::separate_key_value_pairs(input);
    assert_eq!(args, expected);
}

#[test]
fn arg_fills_the_context() {
    let interceptor = ArgInterceptorFactory.try_new("k1=v1 k2=v2").unwrap();
    let mut lines = vec!["SELECT 1;".to_string()];
    let mut context = QueryContext::new();
    interceptor.before_execute(&mut lines, &mut context);
    assert_eq!(lines, vec!["SELECT 1;".to_string()]);
    assert_eq!(context.get("k1"), Some(&"v1".to_string()));
    assert_eq!(context.get("k2"), Some(&"v2".to_string()));
    assert_eq!(context.get("k3"), None);
    assert_eq!(context.context.len(), 2);
}

#[test]
fn arg_repeated_key_keeps_the_last_value() {
    let interceptor = ArgInterceptorFactory.try_new("k=first other=x k=last").unwrap();
    let mut lines = Vec::new();
    let mut context = QueryContext::new();
    context.insert("k".to_string(), "before".to_string());
    interceptor.before_execute(&mut lines, &mut context);
    assert_eq!(context.get("k"), Some(&"last".to_string()));
    assert_eq!(context.get("other"), Some(&"x".to_string()));
}

#[test]
fn arg_through_the_registry() {
    let registry = Registry::default();
    let interceptor = registry.create("  ARG   a=1  b=2 ").unwrap();
    let mut lines = Vec::new();
    let mut context = QueryContext::new();
    interceptor.before_execute(&mut lines, &mut context);
    assert_eq!(context.get("a"), Some(&"1".to_string()));
    assert_eq!(context.get("b"), Some(&"2".to_string()));
}

#[test]
fn arg_without_pairs_binds_nothing() {
    assert_eq!(ArgInterceptorFactory::separate_key_value_pairs(""), vec![]);
    assert_eq!(ArgInterceptorFactory::separate_key_value_pairs("a b c"), vec![]);
    assert_eq!(
        ArgInterceptorFactory::separate_key_value_pairs("=v"),
        vec![("".to_string(), "v".to_string())]
    );
}

use sqlness::interceptor::arg::ArgInterceptorFactory;
use sqlness::interceptor::env::EnvInterceptorFactory;
use sqlness::interceptor::sort_result::SortResultInterceptorFactory;
use sqlness::interceptor::{
    builtin_interceptors, Interceptor, InterceptorFactoryRef, InterceptorRef, Registry,
};
use sqlness::{QueryContext, SqlnessError};

#[test]
fn unregistered_prefix_is_unknown() {
    let registry = Registry::default();
    match registry.create("NOPE some arguments") {
        Err(SqlnessError::UnknownInterceptor { prefix }) => assert_eq!(prefix, "NOPE"),
        other => panic!("unexpected: {:?}", other),
    }
    match registry.create("arg k=v") {
        Err(SqlnessError::UnknownInterceptor { prefix }) => assert_eq!(prefix, "arg"),
        other => panic!("unexpected: {:?}", other),
    }
}

#[test]
fn empty_registry_knows_nothing() {
    let registry = Registry { factories: Vec::new() };
    for text in ["ARG a=b", "SORT_RESULT", "X"] {
        assert!(matches!(
            registry.create(text),
            Err(SqlnessError::UnknownInterceptor { .. })
        ));
    }
}

#[test]
fn blank_directive_misses_its_prefix() {
    let registry = Registry::default();
    match registry.create("") {
        Err(SqlnessError::MissingPrefix { line }) => assert_eq!(line, ""),
        other => panic!("unexpected: {:?}", other),
    }
    match registry.create(" \t ") {
        Err(SqlnessError::MissingPrefix { line }) => assert_eq!(line, " \t "),
        other => panic!("unexpected: {:?}", other),
    }
}

#[test]
fn builtin_prefixes() {
    let builtin = builtin_interceptors();
    let mut prefixes: Vec<String> = builtin.iter().map(|entry| entry.0.clone()).collect();
    prefixes.sort();
    assert_eq!(
        prefixes,
        vec!["ARG", "ENV", "REPLACE", "SLEEP", "SORT_RESULT", "TEMPLATE"]
    );
    let registry = Registry::default();
    assert!(matches!(registry.create("ARG a=b"), Ok(InterceptorRef::Arg(_))));
    assert!(matches!(registry.create("ENV A"), Ok(InterceptorRef::Env(_))));
    assert!(matches!(registry.create("REPLACE a b"), Ok(InterceptorRef::Replace(_))));
    assert!(matches!(registry.create("SLEEP 1s"), Ok(InterceptorRef::Sleep(_))));
    assert!(matches!(registry.create("SORT_RESULT"), Ok(InterceptorRef::SortResult(_))));
    assert!(matches!(registry.create("TEMPLATE"), Ok(InterceptorRef::Template(_))));
}

#[test]
fn prefix_ends_at_the_first_whitespace() {
    let registry = Registry::default();
    match registry.create("SORT_RESULT\t1 2") {
        Ok(InterceptorRef::SortResult(i)) => {
            assert_eq!(i.ignore_head, 1);
            assert_eq!(i.ignore_tail, 2);
        }
        other => panic!("unexpected: {:?}", other),
    }
}

#[test]
fn arguments_are_trimmed() {
    let registry = Registry::default();
    match registry.create("   SORT_RESULT    3   ") {
        Ok(InterceptorRef::SortResult(i)) => {
            assert_eq!(i.ignore_head, 3);
            assert_eq!(i.ignore_tail, 0);
        }
        other => panic!("unexpected: {:?}", other),
    }
}

#[test]
fn factory_refuses_its_arguments() {
    let registry = Registry::default();
    match registry.create("SORT_RESULT one") {
        Err(SqlnessError::InvalidContext { prefix, msg }) => {
            assert_eq!(prefix, "SORT_RESULT");
            assert_eq!(msg, "Expect number, err:invalid digit found in string");
        }
        other => panic!("unexpected: {:?}", other),
    }
    match registry.create("SORT_RESULT 1 2 3") {
        Err(SqlnessError::InvalidContext { prefix, msg }) => {
            assert_eq!(prefix, "SORT_RESULT");
            assert_eq!(msg, "Expect number, err:invalid digit found in string");
        }
        other => panic!("unexpected: {:?}", other),
    }
    match registry.create("SORT_RESULT 99999999999999999999999999") {
        Err(SqlnessError::InvalidContext { msg, .. }) => {
            assert_eq!(msg, "Expect number, err:number too large to fit in target type");
        }
        other => panic!("unexpected: {:?}", other),
    }
}

#[test]
fn later_registration_replaces_the_earlier() {
    let mut registry = Registry::default();
    registry.register("ARG", InterceptorFactoryRef::SortResult(SortResultInterceptorFactory));
    assert!(matches!(registry.create("ARG 1"), Ok(InterceptorRef::SortResult(_))));
    registry.register("ARG", InterceptorFactoryRef::Arg(ArgInterceptorFactory));
    assert!(matches!(registry.create("ARG a=b"), Ok(InterceptorRef::Arg(_))));
}

#[test]
fn registration_under_a_new_prefix() {
    let mut registry = Registry::default();
    assert!(registry.get("ORDER").is_none());
    registry.register("ORDER", InterceptorFactoryRef::SortResult(SortResultInterceptorFactory));
    assert!(registry.get("ORDER").is_some());
    let interceptor = registry.create("ORDER 1").unwrap();
    let mut result = "z\nb\na".to_string();
    interceptor.after_execute(&mut result);
    assert_eq!(result, "z\na\nb");
}

#[test]
fn env_with_variables_replaces_the_builtin() {
    let mut registry = Registry::default();
    registry.register(
        "ENV",
        InterceptorFactoryRef::Env(EnvInterceptorFactory::with_variables(vec![(
            "HOST".to_string(),
            "db".to_string(),
        )])),
    );
    let copy = registry.duplicate();
    let interceptor = copy.create("ENV HOST PORT").unwrap();
    let mut lines = vec!["connect $HOST:$PORT;".to_string()];
    interceptor.before_execute(&mut lines, &mut QueryContext::new());
    assert_eq!(lines, vec!["connect db:$PORT;".to_string()]);
}

#[test]
fn registry_with_variables() {
    let registry = Registry::with_variables(vec![("USER".to_string(), "me".to_string())]);
    assert_eq!(registry.factories.len(), 7);
    let interceptor = registry.create("ENV USER").unwrap();
    let mut lines = vec!["SELECT '$USER';".to_string()];
    interceptor.before_execute(&mut lines, &mut QueryContext::new());
    assert_eq!(lines, vec!["SELECT 'me';".to_string()]);
    assert!(matches!(registry.create("ARG a=b"), Ok(InterceptorRef::Arg(_))));
}

use sqlness::interceptor::replace::ReplaceInterceptorFactory;
use sqlness::interceptor::{Interceptor, InterceptorFactory};
use sqlness::SqlnessError;

#[test]
fn construct_replace_with_empty_string() {
    let interceptor = ReplaceInterceptorFactory {}.try_new("");
    assert!(interceptor.is_err());
}

#[test]
fn replace_without_replacement() {
    let interceptor = ReplaceInterceptorFactory {}.try_new("0").unwrap();

    let mut exec_result = "000010101".to_string();
    interceptor.after_execute(&mut exec_result);
    assert_eq!(exec_result, "111".to_string());
}

#[test]
fn simple_replace() {
    let interceptor = ReplaceInterceptorFactory {}.try_new("00 2").unwrap();

    let mut exec_result = "0000010101".to_string();
    interceptor.after_execute(&mut exec_result);
    assert_eq!(exec_result, "22010101".to_string());
}

#[test]
fn replace_with_a_pattern_of_several_characters() {
    let interceptor = ReplaceInterceptorFactory.try_new(r"\d+ N").unwrap();
    let mut exec_result = "a1b22c333".to_string();
    interceptor.after_execute(&mut exec_result);
    assert_eq!(exec_result, "aNbNcN");
}

#[test]
fn replace_keeps_blanks_in_the_replacement() {
    let interceptor = ReplaceInterceptorFactory.try_new("x a b").unwrap();
    let mut exec_result = "x-x".to_string();
    interceptor.after_execute(&mut exec_result);
    assert_eq!(exec_result, "a b-a b");
}

#[test]
fn replace_refuses_an_empty_pattern() {
    match ReplaceInterceptorFactory.try_new(" replacement") {
        Err(SqlnessError::InvalidContext { prefix, msg }) => {
            assert_eq!(prefix, "REPLACE");
            assert_eq!(msg, "Pattern shouldn't be empty");
        }
        other => panic!("unexpected: {:?}", other),
    }
}

#[test]
fn replace_refuses_what_is_no_regular_expression() {
    match ReplaceInterceptorFactory.try_new("(unclosed") {
        Err(SqlnessError::InvalidContext { prefix, msg }) => {
            assert_eq!(prefix, "REPLACE");
            assert!(msg.starts_with("Invalid pattern, err:"));
        }
        other => panic!("unexpected: {:?}", other),
    }
}

#[test]
fn replace_once_the_pattern_is_checked() {
    let made = ReplaceInterceptorFactory::checked("a+".to_string(), "b".to_string(), None).unwrap();
    assert_eq!(made.pattern, "a+");
    assert_eq!(made.replacement, "b");
    match ReplaceInterceptorFactory::checked("a".to_string(), "b".to_string(), Some("bad".to_string())) {
        Err(SqlnessError::InvalidContext { prefix, msg }) => {
            assert_eq!(prefix, "REPLACE");
            assert_eq!(msg, "Invalid pattern, err:bad");
        }
        other => panic!("unexpected: {:?}", other),
    }
    assert!(ReplaceInterceptorFactory::checked(String::new(), "b".to_string(), None).is_err());
    assert_eq!(
        ReplaceInterceptorFactory::split_arguments("a b c"),
        ("a".to_string(), "b c".to_string())
    );
    assert_eq!(
        ReplaceInterceptorFactory::split_arguments("abc"),
        ("abc".to_string(), String::new())
    );
    assert_eq!(
        ReplaceInterceptorFactory::split_arguments(" x"),
        (String::new(), "x".to_string())
    );
}

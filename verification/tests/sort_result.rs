use sqlness::interceptor::sort_result::SortResultInterceptorFactory;
use sqlness::interceptor::{Interceptor, InterceptorFactory};

#[test]
fn construct_with_negative() {
    let interceptor = SortResultInterceptorFactory.try_new("-1");
    assert!(interceptor.is_err());
}

#[test]
fn sort_result_full() {
    let interceptor = SortResultInterceptorFactory.try_new("").unwrap();

    let cases = [
        (
            String::from(
                "abc\
                \ncde\
                \nefg",
            ),
            String::from(
                "abc\
                \ncde\
                \nefg",
            ),
        ),
        (
            String::from(
                "efg\
                \ncde\
                \nabc",
            ),
            String::from(
                "abc\
                \ncde\
                \nefg",
            ),
        ),
    ];

    for (mut input, expected) in cases {
        interceptor.after_execute(&mut input);
        assert_eq!(input, expected);
    }
}

#[test]
fn ignore_head_exceeds_length() {
    let interceptor = SortResultInterceptorFactory.try_new("10000").unwrap();

    let mut exec_result = String::from(
        "3\
        \n2\
        \n1",
    );
    let expected = exec_result.clone();
    interceptor.after_execute(&mut exec_result);
    assert_eq!(exec_result, expected);
}

#[test]
fn ignore_tail_exceeds_length() {
    let interceptor = SortResultInterceptorFactory.try_new("0 10000").unwrap();

    let mut exec_result = String::from(
        "3\
        \n2\
        \n1",
    );
    let expected = exec_result.clone();
    interceptor.after_execute(&mut exec_result);
    assert_eq!(exec_result, expected);
}

#[test]
fn sort_result_twice() {
    for args in ["", "1", "0 1", "1 1", "2 5"] {
        let interceptor = SortResultInterceptorFactory.try_new(args).unwrap();
        for input in ["d\nb\nc\na", "b\na\n", "x", "", "b\r\na\r\nc", "beta\nalpha\ngamma\nalpha"] {
            let mut once = input.to_string();
            interceptor.after_execute(&mut once);
            let mut twice = once.clone();
            interceptor.after_execute(&mut twice);
            assert_eq!(twice, once, "SORT_RESULT {args} on {input:?}");
        }
    }
}

#[test]
fn sort_result_keeps_head_and_tail() {
    let interceptor = SortResultInterceptorFactory.try_new("1 2").unwrap();
    let mut result = "header\nd\nb\nc\na\nfooter 2\nfooter 1\n".to_string();
    interceptor.after_execute(&mut result);
    assert_eq!(result, "header\na\nb\nc\nd\nfooter 2\nfooter 1");
}

#[test]
fn sort_result_joins_by_line_feeds() {
    let interceptor = SortResultInterceptorFactory.try_new("").unwrap();
    let mut result = "b\r\na\r\n".to_string();
    interceptor.after_execute(&mut result);
    assert_eq!(result, "a\nb");
    let mut result = "b\n\na".to_string();
    interceptor.after_execute(&mut result);
    assert_eq!(result, "\na\nb");
}

#[test]
fn sort_result_on_a_result_that_ends_with_an_empty_line() {
    // the empty line is the tail that stays; joined, it is a line ending, and
    // the result has one line less when it is read again
    let interceptor = SortResultInterceptorFactory.try_new("0 1").unwrap();
    let mut result = "a\n\n".to_string();
    interceptor.after_execute(&mut result);
    assert_eq!(result, "a\n");
    interceptor.after_execute(&mut result);
    assert_eq!(result, "a");
}

#[test]
fn sort_result_arguments() {
    let made = |args: &str| SortResultInterceptorFactory::create(args).map(|i| (i.ignore_head, i.ignore_tail));
    assert_eq!(made("").unwrap(), (0, 0));
    assert_eq!(made("4").unwrap(), (4, 0));
    assert_eq!(made("4 2").unwrap(), (4, 2));
    assert_eq!(made(" 5").unwrap(), (5, 0));
    assert_eq!(made("5 ").unwrap(), (5, 0));
    assert_eq!(made("+5 +6").unwrap(), (5, 6));
    assert!(made("4  2").is_err());
    assert!(made("a 2").is_err());
    assert!(made("4 b").is_err());
    assert!(made("-1").is_err());
}

use sqlness::interceptor::sleep::SleepInterceptorFactory;
use sqlness::interceptor::{Delay, Interceptor, InterceptorFactory};
use sqlness::{QueryContext, SqlnessError};

#[test]
fn wait_1500ms() {
    let input = "1s500ms";
    let interceptor = SleepInterceptorFactory {}.try_new(input).unwrap();
    let mut lines = vec![];
    interceptor.before_execute(&mut lines, &mut QueryContext::default());
    let delay = interceptor.delay();
    assert!(delay.as_millis() >= 1500);
    assert_eq!(delay, Delay { secs: 1, nanos: 500_000_000 });
    assert!(lines.is_empty());
}

#[test]
fn sleep_of_milliseconds() {
    let interceptor = SleepInterceptorFactory.try_new("200ms").unwrap();
    assert_eq!(interceptor.delay().as_millis(), 200);
    assert!(!interceptor.delay().is_zero());
}

#[test]
fn sleep_refuses_what_is_no_duration() {
    match SleepInterceptorFactory.try_new("soon") {
        Err(SqlnessError::InvalidContext { prefix, msg }) => {
            assert_eq!(prefix, "SLEEP");
            assert!(msg.starts_with("Failed to parse duration: "));
        }
        other => panic!("unexpected: {:?}", other),
    }
}

#[test]
fn sleep_once_the_duration_is_read() {
    let made = SleepInterceptorFactory::from_parsed(Ok((2, 5))).unwrap();
    assert_eq!(made.duration, Delay { secs: 2, nanos: 5 });
    assert_eq!(made.duration.as_millis(), 2000);
    assert_eq!(Delay { secs: u64::MAX, nanos: 999_999_999 }.as_millis(), u64::MAX as u128 * 1000 + 999);
    assert!(Delay::none().is_zero());
    match SleepInterceptorFactory::from_parsed(Err("why".to_string())) {
        Err(SqlnessError::InvalidContext { prefix, msg }) => {
            assert_eq!(prefix, "SLEEP");
            assert_eq!(msg, "Failed to parse duration: why");
        }
        other => panic!("unexpected: {:?}", other),
    }
}

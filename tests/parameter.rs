use grade_p::processor_base::parameter::{Parameter, ParameterError};

fn bounded() -> Parameter<i32> {
    Parameter::new(
        "gain".to_string(),
        "amplifier gain".to_string(),
        5,
        Some(0),
        Some(10),
        None,
    )
}

#[test]
fn new_stages_current_value() {
    let p = bounded();
    assert_eq!(p.current_value, 5);
    assert_eq!(p.next_value, 5);
    assert_eq!(*p.get_current_value(), 5);
    assert_eq!(p.name, "gain");
}

#[test]
fn set_next_value_within_limits_is_staged_then_committed() {
    let mut p = bounded();
    assert_eq!(p.set_next_value(7), Ok(()));
    assert_eq!(p.next_value, 7);
    assert_eq!(p.current_value, 5);
    p.update_value();
    assert_eq!(p.current_value, 7);
    assert_eq!(*p.get_current_value(), 7);
}

#[test]
fn set_next_value_limits_are_inclusive() {
    let mut p = bounded();
    assert_eq!(p.set_next_value(0), Ok(()));
    assert_eq!(p.set_next_value(10), Ok(()));
    assert_eq!(p.next_value, 10);
}

#[test]
fn set_next_value_below_min_is_refused_and_changes_nothing() {
    let mut p = bounded();
    assert_eq!(p.set_next_value(-1), Err(ParameterError::OutOfLimits));
    assert_eq!(p.next_value, 5);
    assert_eq!(p.current_value, 5);
}

#[test]
fn set_next_value_above_max_is_refused_and_changes_nothing() {
    let mut p = bounded();
    assert_eq!(p.set_next_value(3), Ok(()));
    assert_eq!(p.set_next_value(11), Err(ParameterError::OutOfLimits));
    assert_eq!(p.next_value, 3);
}

#[test]
fn set_next_value_outside_allowed_set_is_refused() {
    let mut p: Parameter<u8> = Parameter::new(
        "rate".to_string(),
        "sample rate code".to_string(),
        1,
        None,
        None,
        Some(vec![1, 2, 4, 8]),
    );
    assert_eq!(p.set_next_value(3), Err(ParameterError::NotAllowed));
    assert_eq!(p.next_value, 1);
    assert_eq!(p.set_next_value(4), Ok(()));
    p.update_value();
    assert_eq!(p.current_value, 4);
}

#[test]
fn limits_are_checked_before_allowed_values() {
    let mut p: Parameter<u64> =
        Parameter::new("n".to_string(), "".to_string(), 2, Some(1), Some(3), Some(vec![2, 9]));
    assert_eq!(p.set_next_value(9), Err(ParameterError::OutOfLimits));
    assert_eq!(p.set_next_value(3), Err(ParameterError::NotAllowed));
    assert_eq!(p.next_value, 2);
}

#[test]
fn check_limits_and_allowed_values() {
    let p = bounded();
    assert!(p.check_limits(0));
    assert!(p.check_limits(10));
    assert!(!p.check_limits(11));
    assert!(!p.check_limits(-5));
    assert!(p.check_allowed_values(12345));
    let q: Parameter<i64> =
        Parameter::new("q".to_string(), "".to_string(), 0, None, None, Some(vec![-3, 0, 7]));
    assert!(q.check_limits(i64::MIN));
    assert!(q.check_allowed_values(-3));
    assert!(q.check_allowed_values(7));
    assert!(!q.check_allowed_values(1));
    let empty: Parameter<i64> =
        Parameter::new("e".to_string(), "".to_string(), 0, None, None, Some(vec![]));
    assert!(!empty.check_allowed_values(0));
}

#[test]
fn update_without_staging_keeps_value() {
    let mut p = bounded();
    p.update_value();
    assert_eq!(p.current_value, 5);
}

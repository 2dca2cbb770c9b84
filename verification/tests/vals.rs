use stl_base::lang::vals::{ExpVal, ExpValError};

#[test]
fn num_constructor_extracts_number() {
    assert_eq!(ExpVal::num(42).as_num().unwrap(), 42);
}

#[test]
fn boolean_constructor_extracts_boolean() {
    assert!(ExpVal::boolean(true).as_bool().unwrap());
}

#[test]
fn wrong_extractor_reports_actual_value() {
    assert_eq!(
        ExpVal::boolean(false).as_num().unwrap_err(),
        ExpValError::NumValExpected {
            actual: Box::new(ExpVal::boolean(false))
        }
    );
}

use stl_base::lang::vals::ExpVal;
use stl_base::testing::{check, error, value};

#[test]
fn simple_let() {
    check(
        r#"
        let (
            x = 3
        ) x
        "#,
        value(ExpVal::num(3)),
    )
    .unwrap_or_else(|failure| panic!("{}", failure.report));
}

#[test]
fn unbound_variable_errors() {
    check(
        r#"
        foo
        "#,
        error(),
    )
    .unwrap_or_else(|failure| panic!("{}", failure.report));
}

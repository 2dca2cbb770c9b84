use stl_base::lang::ast::{Expr, LetRecBinding};
use stl_base::lang::envs::{Env, EnvError};
use stl_base::lang::vals::{ExpVal, Procedure};

#[test]
fn empty_env_has_no_bindings() {
    assert_eq!(
        Env::empty().apply("x").unwrap_err(),
        EnvError::UnboundVariable {
            var: "x".to_string()
        }
    );
}

#[test]
fn apply_env_finds_nearest_binding() {
    let env = Env::empty()
        .extend("x", ExpVal::num(10))
        .extend("x", ExpVal::boolean(true));

    assert_eq!(env.apply("x").unwrap(), ExpVal::boolean(true));
}

#[test]
fn apply_env_searches_saved_environment() {
    let env = Env::empty()
        .extend("x", ExpVal::num(10))
        .extend("y", ExpVal::boolean(false));

    assert_eq!(env.apply("x").unwrap(), ExpVal::num(10));
    assert_eq!(env.apply("y").unwrap(), ExpVal::boolean(false));
}

#[test]
fn apply_env_builds_late_bound_recursive_proc() {
    let env = Env::empty().extend_rec(vec![LetRecBinding::new(
        "f",
        vec!["x".to_string()],
        Expr::VarExp("x".to_string()),
    )]);

    assert!(matches!(
        env.apply("f").unwrap(),
        ExpVal::ProcVal(Procedure::Closure { .. })
    ));
}

use lana::interpreter::eval;
use lana::interpreter::lana_env::LanaEnv;
use lana::lana_err::LanaErr;
use lana::lana_expr::{LanaExpr, NativeFn};

const FUEL: u64 = 1_000_000;

fn no_host(_op: &NativeFn, _args: &Vec<LanaExpr>) -> Result<LanaExpr, LanaErr> {
    Err(LanaErr::Reason("no native functions in this test".into()))
}

#[test]
fn it_expect_macro_do_to_return_nil_if_no_args_are_given() {
    let expr = LanaExpr::List(vec![LanaExpr::Symbol("do".into())]);
    let mut env = LanaEnv::default();

    let result = eval(&expr, &mut env, &no_host, FUEL);

    assert_eq!(Ok(LanaExpr::Nil), result)
}

#[test]
fn it_expect_do_macro_to_eval_multiple_exprs() {
    let expr = LanaExpr::List(vec![
        LanaExpr::Symbol("do".into()),
        LanaExpr::List(vec![
            LanaExpr::Symbol("def".into()),
            LanaExpr::Symbol("var1".into()),
            LanaExpr::Number(1.0f64.to_bits()),
        ]),
        LanaExpr::List(vec![
            LanaExpr::Symbol("def".into()),
            LanaExpr::Symbol("var2".into()),
            LanaExpr::Number(2.0f64.to_bits()),
        ]),
    ]);
    let mut env = LanaEnv::default();
    env.insert("var1".into(), LanaExpr::Number(0.0f64.to_bits()));
    env.insert("var2".into(), LanaExpr::Number(0.0f64.to_bits()));

    eval(&expr, &mut env, &no_host, FUEL).ok();

    assert_eq!(
        LanaExpr::Number(1.0f64.to_bits()),
        env.get("var1").unwrap()
    );
    assert_eq!(
        LanaExpr::Number(2.0f64.to_bits()),
        env.get("var2").unwrap()
    );
}

#[test]
fn it_expect_do_macro_to_return_last_eval() {
    let expr = LanaExpr::List(vec![
        LanaExpr::Symbol("do".into()),
        LanaExpr::Bool(true),
        LanaExpr::Bool(false),
    ]);
    let mut env = LanaEnv::default();

    let result = eval(&expr, &mut env, &no_host, FUEL).expect("Could not eval do macro");

    assert_eq!(LanaExpr::Bool(false), result);
}

#[test]
fn it_expect_nil_to_be_falsey() {
    let expr = LanaExpr::List(vec![
        LanaExpr::Symbol("if".into()),
        LanaExpr::Nil,
        LanaExpr::Number(1.0f64.to_bits()),
        LanaExpr::Number(2.0f64.to_bits()),
    ]);
    let mut env = LanaEnv::default();

    let result = eval(&expr, &mut env, &no_host, FUEL).expect("Could not eval if macro");

    assert_eq!(LanaExpr::Number(2.0f64.to_bits()), result);
}

#[test]
fn it_expect_false_to_be_falsey() {
    let expr = LanaExpr::List(vec![
        LanaExpr::Symbol("if".into()),
        LanaExpr::Bool(false),
        LanaExpr::Number(1.0f64.to_bits()),
        LanaExpr::Number(2.0f64.to_bits()),
    ]);
    let mut env = LanaEnv::default();

    let result = eval(&expr, &mut env, &no_host, FUEL).expect("Could not eval if macro");

    assert_eq!(LanaExpr::Number(2.0f64.to_bits()), result);
}

#[test]
fn it_expect_true_to_be_truthy() {
    let expr = LanaExpr::List(vec![
        LanaExpr::Symbol("if".into()),
        LanaExpr::Bool(true),
        LanaExpr::Number(1.0f64.to_bits()),
        LanaExpr::Number(2.0f64.to_bits()),
    ]);
    let mut env = LanaEnv::default();

    let result = eval(&expr, &mut env, &no_host, FUEL).expect("Could not eval if macro");

    assert_eq!(LanaExpr::Number(1.0f64.to_bits()), result);
}

#[test]
fn it_expect_numbers_to_be_truthy() {
    let expr = LanaExpr::List(vec![
        LanaExpr::Symbol("if".into()),
        LanaExpr::Number(0.0f64.to_bits()),
        LanaExpr::Number(1.0f64.to_bits()),
        LanaExpr::Number(2.0f64.to_bits()),
    ]);
    let mut env = LanaEnv::default();

    let result = eval(&expr, &mut env, &no_host, FUEL).expect("Could not eval if macro");

    assert_eq!(LanaExpr::Number(1.0f64.to_bits()), result);
}

use lana::interpreter::eval;
use lana::interpreter::lana_env::LanaEnv;
use lana::lana_err::LanaErr;
use lana::lana_expr::{LanaExpr, NativeFn};
use lana::lexer::{SrcLocation, Token, TokenKind, Tokenizer};
use lana::parser::parse_all;
use lana::prelude::{
    gets_args_check, parse_list_of_numbers, print_result, require_first, sleep_arg, tonicity_check,
};

const FUEL: u64 = 1_000_000;

fn floats(args: &Vec<LanaExpr>) -> Result<Vec<f64>, LanaErr> {
    let bits = parse_list_of_numbers(args)?;
    Ok(bits.into_iter().map(f64::from_bits).collect())
}

fn num(x: f64) -> LanaExpr {
    LanaExpr::Number(x.to_bits())
}

fn chain(args: &Vec<LanaExpr>, rel: fn(f64, f64) -> bool) -> Result<LanaExpr, LanaErr> {
    let bits = parse_list_of_numbers(args)?;
    let pairs: Vec<bool> = bits
        .windows(2)
        .map(|w| rel(f64::from_bits(w[0]), f64::from_bits(w[1])))
        .collect();
    tonicity_check(&bits, &pairs)
}

fn host(op: &NativeFn, args: &Vec<LanaExpr>) -> Result<LanaExpr, LanaErr> {
    match op {
        NativeFn::Add => Ok(num(floats(args)?.iter().sum())),
        NativeFn::Sub => {
            let bits = parse_list_of_numbers(args)?;
            let first = f64::from_bits(require_first(&bits)?);
            let rest: f64 = bits[1..].iter().copied().map(f64::from_bits).sum();
            Ok(num(first - rest))
        }
        NativeFn::Mul => Ok(num(floats(args)?.iter().fold(1.0, |acc, n| acc * n))),
        NativeFn::Div => {
            let bits = parse_list_of_numbers(args)?;
            let first = f64::from_bits(require_first(&bits)?);
            let rest = bits[1..]
                .iter()
                .copied()
                .map(f64::from_bits)
                .fold(1.0, |acc, n| acc * n);
            Ok(num(first / rest))
        }
        NativeFn::NumEq => chain(args, |a, b| (a - b).abs() < f64::EPSILON),
        NativeFn::Gt => chain(args, |a, b| a > b),
        NativeFn::Ge => chain(args, |a, b| a >= b),
        NativeFn::Lt => chain(args, |a, b| a < b),
        NativeFn::Le => chain(args, |a, b| a <= b),
        NativeFn::Print | NativeFn::Println => print_result(args),
        NativeFn::Gets => {
            gets_args_check(args)?;
            Err(LanaErr::Reason("no standard input in this test".into()))
        }
        NativeFn::Sleep => {
            let bits = sleep_arg(args)?;
            let seconds = f64::from_bits(bits) as u64;
            Ok(num(seconds as f64))
        }
    }
}

fn classify(t: Token) -> Token {
    let bits = match &t.kind {
        TokenKind::Id(s) => s.parse::<f64>().ok().map(f64::to_bits),
        _ => None,
    };
    t.classified(bits)
}

/// Tokenize, classify, parse, and evaluate every top-level form of `src`,
/// returning the last form's value.
fn run(src: &str, env: &mut LanaEnv) -> Result<LanaExpr, LanaErr> {
    let tokens: Vec<Token> = Tokenizer::new(src).tokens().into_iter().map(classify).collect();
    let exprs = parse_all(&tokens)?;
    let mut last = LanaExpr::Nil;
    for expr in &exprs {
        last = eval(expr, env, &host, FUEL)?;
    }
    Ok(last)
}

fn reason(msg: &str) -> LanaErr {
    LanaErr::Reason(msg.to_string())
}

#[test]
fn tokenizing_an_addition_form() {
    let tokens: Vec<Token> = Tokenizer::new("(+ 1 2)")
        .tokens()
        .into_iter()
        .map(classify)
        .collect();

    assert_eq!(
        vec![
            Token::new(TokenKind::LParen, SrcLocation::new(1, 1)),
            Token::new(TokenKind::Id("+".to_string()), SrcLocation::new(1, 2)),
            Token::new(TokenKind::Number(1.0f64.to_bits()), SrcLocation::new(1, 4)),
            Token::new(TokenKind::Number(2.0f64.to_bits()), SrcLocation::new(1, 6)),
            Token::new(TokenKind::RParen, SrcLocation::new(1, 7)),
        ],
        tokens
    );
}

#[test]
fn if_treats_nil_as_falsy_and_zero_as_truthy() {
    let mut env = LanaEnv::default();

    assert_eq!(Ok(num(2.0)), run("(if nil 1 2)", &mut env));
    assert_eq!(Ok(num(1.0)), run("(if 0 1 2)", &mut env));
}

#[test]
fn a_missing_branch_is_only_an_error_when_selected() {
    let mut env = LanaEnv::default();

    assert_eq!(Ok(num(1.0)), run("(if true 1)", &mut env));
    assert_eq!(
        Err(reason("Expected if's else branch")),
        run("(if false 1)", &mut env)
    );
    assert_eq!(
        Err(reason("Expected 2-3 arguments, got 4")),
        run("(if 1 2 3 4)", &mut env)
    );
}

#[test]
fn a_symbol_condition_is_resolved_before_selection() {
    let mut env = LanaEnv::default();

    run("(def flag false)", &mut env).expect("def failed");
    assert_eq!(Ok(num(2.0)), run("(if flag 1 2)", &mut env));
    run("(def flag 0)", &mut env).expect("def failed");
    assert_eq!(Ok(num(1.0)), run("(if flag 1 2)", &mut env));
}

#[test]
fn def_evaluates_a_symbol_value_before_binding() {
    let mut env = LanaEnv::default();

    run("(def a 5)", &mut env).expect("def failed");
    let result = run("(def b a)", &mut env);

    assert_eq!(Ok(num(5.0)), result);
    assert_eq!(Some(num(5.0)), env.get("b"));
}

#[test]
fn do_with_no_forms_yields_nil() {
    let mut env = LanaEnv::default();

    assert_eq!(Ok(LanaExpr::Nil), run("(do)", &mut env));
}

#[test]
fn do_returns_last_value_and_keeps_definitions() {
    let mut env = LanaEnv::default();

    let result = run("(do (def a 1) (def b 2))", &mut env);

    assert_eq!(Ok(num(2.0)), result);
    assert_eq!(Some(num(1.0)), env.get("a"));
    assert_eq!(Some(num(2.0)), env.get("b"));
}

#[test]
fn defn_defines_a_callable_function() {
    let mut env = LanaEnv::default();

    run("(defn add (a b) (+ a b))", &mut env).expect("defn failed");
    let result = run("(add 2 3)", &mut env);

    assert_eq!(Ok(num(5.0)), result);
}

#[test]
fn less_than_chain_checks_every_consecutive_pair() {
    let mut env = LanaEnv::default();

    assert_eq!(Ok(LanaExpr::Bool(true)), run("(< 1 2 3)", &mut env));
    assert_eq!(Ok(LanaExpr::Bool(false)), run("(< 1 3 2)", &mut env));
}

#[test]
fn undefined_symbol_is_an_error() {
    let mut env = LanaEnv::default();

    let result = run("some-unknown-symbol", &mut env);

    assert_eq!(Err(reason("Undefined symbol 'some-unknown-symbol'")), result);
}

#[test]
fn calling_a_one_parameter_lambda_with_zero_or_two_arguments_is_an_error() {
    let mut env = LanaEnv::default();

    assert_eq!(
        Err(reason("Expected 1 argument(s), got 0")),
        run("((fn (a) a))", &mut env)
    );
    assert_eq!(
        Err(reason("Expected 1 argument(s), got 2")),
        run("((fn (a) a) 1 2)", &mut env)
    );
}

#[test]
fn numeric_equality_is_pairwise_and_epsilon_tolerant() {
    let mut env = LanaEnv::default();

    assert_eq!(Ok(LanaExpr::Bool(true)), run("(= 5)", &mut env));
    assert_eq!(Ok(LanaExpr::Bool(true)), run("(= 1 1 1.0)", &mut env));
    assert_eq!(Ok(LanaExpr::Bool(false)), run("(= 1 2 2)", &mut env));
    assert_eq!(
        Ok(LanaExpr::Bool(true)),
        run("(= (+ 0.1 0.2) 0.3)", &mut env)
    );
    assert_eq!(
        Err(reason("Expected at least one number")),
        run("(=)", &mut env)
    );
}

#[test]
fn arithmetic_folds_subtract_and_divide_from_the_first_argument() {
    let mut env = LanaEnv::default();

    assert_eq!(Ok(num(7.0)), run("(- 10 1 2)", &mut env));
    assert_eq!(Ok(num(2.0)), run("(/ 12 2 3)", &mut env));
    assert_eq!(Ok(num(6.0)), run("(* 1 2 3)", &mut env));
    let empty_sum: f64 = Vec::<f64>::new().iter().sum();
    assert_eq!(Ok(num(empty_sum)), run("(+)", &mut env));
}

#[test]
fn non_numeric_operands_are_a_type_mismatch() {
    let mut env = LanaEnv::default();

    assert_eq!(
        Err(reason("Expected a number, got string")),
        run("(+ 1 \"x\")", &mut env)
    );
    assert_eq!(
        Err(reason("Expected a number, got boolean")),
        run("(< 1 true)", &mut env)
    );
}

#[test]
fn applying_a_non_function_is_an_error() {
    let mut env = LanaEnv::default();

    assert_eq!(
        Err(reason("First form must be a function, got number")),
        run("(1 2)", &mut env)
    );
}

#[test]
fn an_empty_application_is_an_error() {
    let mut env = LanaEnv::default();

    assert_eq!(Err(reason("Expected a non-empty list")), run("()", &mut env));
}

#[test]
fn println_requires_an_argument_and_returns_the_first() {
    let mut env = LanaEnv::default();

    assert_eq!(Ok(num(7.0)), run("(println 7 8)", &mut env));
    assert_eq!(
        Err(reason("Expected at least one argument")),
        run("(println)", &mut env)
    );
}

#[test]
fn gets_takes_no_arguments() {
    let mut env = LanaEnv::default();

    assert_eq!(
        Err(reason("Expected no arguments, got 1")),
        run("(gets 1)", &mut env)
    );
}

#[test]
fn sleep_takes_exactly_one_number() {
    let mut env = LanaEnv::default();

    assert_eq!(
        Err(reason("Expected 1 argument, got 0")),
        run("(sleep)", &mut env)
    );
    assert_eq!(
        Err(reason("Invalid argument: expected number, got keyword")),
        run("(sleep :now)", &mut env)
    );
    assert_eq!(Ok(num(1.0)), run("(sleep 1.7)", &mut env));
}

#[test]
fn lambda_frames_enclose_the_callers_environment() {
    let mut env = LanaEnv::default();

    run("(defn inner () y)", &mut env).expect("defn failed");
    run("(defn outer (y) (inner))", &mut env).expect("defn failed");
    let result = run("(outer 42)", &mut env);

    assert_eq!(Ok(num(42.0)), result);
}

#[test]
fn runaway_recursion_burns_out_the_nesting_budget() {
    let mut env = LanaEnv::default();

    run("(defn spin (x) (spin x))", &mut env).expect("defn failed");
    let tokens: Vec<Token> = Tokenizer::new("(spin 1)")
        .tokens()
        .into_iter()
        .map(classify)
        .collect();
    let exprs = parse_all(&tokens).expect("parse failed");
    let result = eval(&exprs[0], &mut env, &host, 50);

    assert_eq!(Err(reason("Evaluation is nested too deeply")), result);
}

#[test]
fn unterminated_lists_report_the_opening_token() {
    let mut env = LanaEnv::default();

    let result = run("(+ 1 2", &mut env);

    assert_eq!(
        Err(LanaErr::UnterminatedExpr(
            ')',
            Token::new(TokenKind::LParen, SrcLocation::new(1, 1)),
        )),
        result
    );
}

#[test]
fn string_escapes_reach_the_evaluated_value() {
    let mut env = LanaEnv::default();

    let result = run("\"a\\tb\\nc\"", &mut env);

    assert_eq!(Ok(LanaExpr::String("a\tb\nc".to_string())), result);
}

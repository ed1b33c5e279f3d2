use miniml::environment::Environment;
use miniml::eval::apply_prim;
use miniml::eval::EvalError;
use miniml::eval::Evaluator;
use miniml::eval::ExpressedValue;
use miniml::syntax::BinOp;
use miniml::syntax::Exp;
use miniml::syntax::Program;

fn empty_evaluator() -> Evaluator {
    Evaluator::new(Environment::empty())
}

#[test]
fn plus_on_integer_literals_adds() {
    let ev = empty_evaluator();
    let r = ev.eval_exp(Exp::BinOp(
        BinOp::Plus,
        Box::new(Exp::ILit(2)),
        Box::new(Exp::ILit(3)),
    ));
    assert_eq!(r.unwrap(), ExpressedValue::IntValue(5));
}

#[test]
fn mult_on_integer_literals_multiplies() {
    let ev = empty_evaluator();
    let r = ev.eval_exp(Exp::BinOp(
        BinOp::Mult,
        Box::new(Exp::ILit(6)),
        Box::new(Exp::ILit(7)),
    ));
    assert_eq!(r.unwrap(), ExpressedValue::IntValue(42));
}

#[test]
fn lt_on_integer_literals_compares() {
    let ev = empty_evaluator();
    let r = ev.eval_exp(Exp::BinOp(
        BinOp::Lt,
        Box::new(Exp::ILit(2)),
        Box::new(Exp::ILit(3)),
    ));
    assert_eq!(r.unwrap(), ExpressedValue::BoolValue(true));
    let r = ev.eval_exp(Exp::BinOp(
        BinOp::Lt,
        Box::new(Exp::ILit(3)),
        Box::new(Exp::ILit(3)),
    ));
    assert_eq!(r.unwrap(), ExpressedValue::BoolValue(false));
}

#[test]
fn plus_wraps_on_overflow() {
    let ev = empty_evaluator();
    let r = ev.eval_exp(Exp::BinOp(
        BinOp::Plus,
        Box::new(Exp::ILit(i64::MAX)),
        Box::new(Exp::ILit(1)),
    ));
    assert_eq!(r.unwrap(), ExpressedValue::IntValue(i64::MIN));
}

#[test]
fn mult_wraps_on_overflow() {
    let ev = empty_evaluator();
    let r = ev.eval_exp(Exp::BinOp(
        BinOp::Mult,
        Box::new(Exp::ILit(i64::MAX)),
        Box::new(Exp::ILit(2)),
    ));
    assert_eq!(r.unwrap(), ExpressedValue::IntValue(i64::MAX.wrapping_mul(2)));
}

#[test]
fn unbound_variable_reports_its_name() {
    let ev = empty_evaluator();
    let r = ev.eval_exp(Exp::Var(String::from("x")));
    assert_eq!(r.unwrap_err(), EvalError::UnboundVariable(String::from("x")));
}

#[test]
fn bound_variable_evaluates_to_its_value() {
    let mut env = Environment::empty();
    env.extend("x", ExpressedValue::IntValue(9));
    let ev = Evaluator::new(env);
    let r = ev.eval_exp(Exp::Var(String::from("x")));
    assert_eq!(r.unwrap(), ExpressedValue::IntValue(9));
}

#[test]
fn if_true_never_evaluates_the_else_branch() {
    let ev = empty_evaluator();
    let r = ev.eval_exp(Exp::IfExp(
        Box::new(Exp::BLit(true)),
        Box::new(Exp::ILit(1)),
        Box::new(Exp::Var(String::from("zzz"))),
    ));
    assert_eq!(r.unwrap(), ExpressedValue::IntValue(1));
}

#[test]
fn if_false_never_evaluates_the_then_branch() {
    let ev = empty_evaluator();
    let r = ev.eval_exp(Exp::IfExp(
        Box::new(Exp::BLit(false)),
        Box::new(Exp::Var(String::from("zzz"))),
        Box::new(Exp::ILit(2)),
    ));
    assert_eq!(r.unwrap(), ExpressedValue::IntValue(2));
}

#[test]
fn if_on_integer_condition_is_a_type_mismatch() {
    let ev = empty_evaluator();
    let r = ev.eval_exp(Exp::IfExp(
        Box::new(Exp::ILit(1)),
        Box::new(Exp::ILit(1)),
        Box::new(Exp::ILit(2)),
    ));
    assert_eq!(
        r.unwrap_err(),
        EvalError::TypeMismatch(String::from("Test expression must be boolean: if"))
    );
}

#[test]
fn plus_on_a_boolean_is_a_type_mismatch() {
    let r = apply_prim(
        BinOp::Plus,
        ExpressedValue::BoolValue(true),
        ExpressedValue::IntValue(1),
    );
    assert_eq!(
        r.unwrap_err(),
        EvalError::TypeMismatch(String::from("Both arguments must be integer: +"))
    );
}

#[test]
fn mult_on_a_boolean_is_a_type_mismatch() {
    let r = apply_prim(
        BinOp::Mult,
        ExpressedValue::IntValue(1),
        ExpressedValue::BoolValue(false),
    );
    assert_eq!(
        r.unwrap_err(),
        EvalError::TypeMismatch(String::from("Both arguments must be integer: *"))
    );
}

#[test]
fn lt_on_a_boolean_is_a_type_mismatch() {
    let r = apply_prim(
        BinOp::Lt,
        ExpressedValue::BoolValue(true),
        ExpressedValue::BoolValue(false),
    );
    assert_eq!(
        r.unwrap_err(),
        EvalError::TypeMismatch(String::from("Both arguments must be integer: <"))
    );
}

#[test]
fn narrowing_accessors_fail_on_the_wrong_tag() {
    assert!(ExpressedValue::IntValue(1).is_int());
    assert!(!ExpressedValue::IntValue(1).is_bool());
    assert!(ExpressedValue::BoolValue(true).is_bool());
    assert!(!ExpressedValue::BoolValue(true).is_int());
    assert_eq!(ExpressedValue::IntValue(3).to_int().unwrap(), 3);
    assert_eq!(ExpressedValue::BoolValue(true).to_bool().unwrap(), true);
    assert_eq!(
        ExpressedValue::BoolValue(true).to_int().unwrap_err(),
        EvalError::TypeMismatch(String::from("fail to cast as int"))
    );
    assert_eq!(
        ExpressedValue::IntValue(0).to_bool().unwrap_err(),
        EvalError::TypeMismatch(String::from("fail to cast as bool"))
    );
}

#[test]
fn stringify_renders_decimal_and_boolean_forms() {
    assert_eq!(ExpressedValue::IntValue(0).stringify(), "0");
    assert_eq!(ExpressedValue::IntValue(42).stringify(), "42");
    assert_eq!(ExpressedValue::IntValue(-42).stringify(), "-42");
    assert_eq!(ExpressedValue::IntValue(1000).stringify(), "1000");
    assert_eq!(
        ExpressedValue::IntValue(i64::MAX).stringify(),
        "9223372036854775807"
    );
    assert_eq!(
        ExpressedValue::IntValue(i64::MIN).stringify(),
        "-9223372036854775808"
    );
    assert_eq!(ExpressedValue::BoolValue(true).stringify(), "true");
    assert_eq!(ExpressedValue::BoolValue(false).stringify(), "false");
}

#[test]
fn eval_decl_yields_value_and_unchanged_environment() {
    let ev = empty_evaluator();
    let prog = Program::Exp(Exp::BinOp(
        BinOp::Plus,
        Box::new(Exp::ILit(23)),
        Box::new(Exp::ILit(19)),
    ));
    let (id, newenv, v) = ev.eval_decl(prog).unwrap();
    assert_eq!(id, String::from("-"));
    assert_eq!(v, ExpressedValue::IntValue(42));
    assert!(newenv.lookup("x").is_err());
    let count: i64 = newenv.fold_right(|acc: i64, _v: &ExpressedValue| acc + 1, 0);
    assert_eq!(count, 0);
}

#[test]
fn failed_declaration_propagates_the_first_error() {
    let ev = empty_evaluator();
    let prog = Program::Exp(Exp::BinOp(
        BinOp::Plus,
        Box::new(Exp::Var(String::from("a"))),
        Box::new(Exp::Var(String::from("b"))),
    ));
    let e = ev.eval_decl(prog).unwrap_err();
    assert_eq!(e, EvalError::UnboundVariable(String::from("a")));
}

//! The value model and the tree-walking evaluator. Evaluation is a pure
//! function of an environment and an expression; its result is pinned down
//! by the specification interpreter `eval_exp_spec`. Integer addition and
//! multiplication wrap on overflow, as the two's-complement wrapping
//! operations of the host integer width.

use crate::environment::Environment;
use crate::environment::lookup_spec;
use crate::syntax::BinOp;
use crate::syntax::Exp;
use crate::syntax::Program;
use vstd::prelude::*;
use vstd::string::StringExecFns;
use vstd::wrapping::i64_specs;

verus! {

/// A runtime value: exactly one of an integer or a boolean, never coerced.
#[derive(Debug, Clone, Copy, PartialEq, Eq, Structural)]
pub enum ExpressedValue {
    IntValue(i64),
    BoolValue(bool),
}

/// Values bound in an environment are the same runtime values that
/// expressions reduce to.
pub type DenotedValue = ExpressedValue;

/// An environment whose payloads are runtime values.
pub type ExpEnvironment = Environment<ExpressedValue>;

/// Why an evaluation failed: a variable reference with no binding, or an
/// operand of the wrong kind (the payload carries the context message).
#[derive(Debug, PartialEq, Eq)]
pub enum EvalError {
    UnboundVariable(String),
    TypeMismatch(String),
}

/// The mathematical shape of an evaluation failure, over character
/// sequences rather than heap-allocated strings.
pub enum ErrorSpec {
    Unbound(Seq<char>),
    Mismatch(Seq<char>),
}

/// Whether the runtime error `e` carries exactly the failure `m`.
pub open spec fn error_matches(e: EvalError, m: ErrorSpec) -> bool {
    match (e, m) {
        (EvalError::UnboundVariable(x), ErrorSpec::Unbound(y)) => x@ == y,
        (EvalError::TypeMismatch(c), ErrorSpec::Mismatch(d)) => c@ == d,
        _ => false,
    }
}

/// Whether the runtime result `r` is exactly the specified result `s`:
/// the same value on success, a matching error on failure.
pub open spec fn result_matches(
    r: Result<ExpressedValue, EvalError>,
    s: Result<ExpressedValue, ErrorSpec>,
) -> bool {
    match (r, s) {
        (Ok(v), Ok(w)) => v == w,
        (Err(e), Err(m)) => error_matches(e, m),
        _ => false,
    }
}

impl ExpressedValue {
    /// Whether the value carries the integer tag.
    pub fn is_int(self) -> (r: bool)
        ensures
            r == (self matches ExpressedValue::IntValue(_)),
    {
        matches!(self, ExpressedValue::IntValue(_))
    }

    /// The integer payload; a type mismatch for a boolean.
    pub fn to_int(self) -> (r: Result<i64, EvalError>)
        ensures
            match r {
                Ok(i) => self == ExpressedValue::IntValue(i),
                Err(e) => self matches ExpressedValue::BoolValue(_) && error_matches(
                    e,
                    ErrorSpec::Mismatch("fail to cast as int"@),
                ),
            },
    {
        match self {
            ExpressedValue::IntValue(x) => Ok(x),
            _ => Err(error("fail to cast as int")),
        }
    }

    /// Whether the value carries the boolean tag.
    pub fn is_bool(self) -> (r: bool)
        ensures
            r == (self matches ExpressedValue::BoolValue(_)),
    {
        matches!(self, ExpressedValue::BoolValue(_))
    }

    /// The boolean payload; a type mismatch for an integer.
    pub fn to_bool(self) -> (r: Result<bool, EvalError>)
        ensures
            match r {
                Ok(b) => self == ExpressedValue::BoolValue(b),
                Err(e) => self matches ExpressedValue::IntValue(_) && error_matches(
                    e,
                    ErrorSpec::Mismatch("fail to cast as bool"@),
                ),
            },
    {
        match self {
            ExpressedValue::BoolValue(x) => Ok(x),
            _ => Err(error("fail to cast as bool")),
        }
    }

    /// Renders the value as text: the decimal form of an integer, or
    /// `true` / `false` for a boolean.
    pub fn stringify(self) -> (r: String)
        ensures
            r@ == value_text(self),
    {
        match self {
            ExpressedValue::BoolValue(b) => {
                if b {
                    let r = String::from_str("true");
                    proof {
                        reveal_strlit("true");
                        assert(r@ =~= value_text(self));
                    }
                    r
                } else {
                    let r = String::from_str("false");
                    proof {
                        reveal_strlit("false");
                        assert(r@ =~= value_text(self));
                    }
                    r
                }
            },
            ExpressedValue::IntValue(i) => {
                let neg = i < 0;
                let mut m: u64 = if i < 0 {
                    ((-(i + 1)) as u64) + 1
                } else {
                    i as u64
                };
                let ghost m0: nat = m as nat;
                let mut chars: Vec<char> = Vec::new();
                if m == 0 {
                    chars.push(digit(0));
                } else {
                    while m > 0
                        invariant
                            dec_chars(m0) == (if m > 0 {
                                dec_chars(m as nat)
                            } else {
                                Seq::<char>::empty()
                            }) + chars@,
                        decreases m,
                    {
                        let ghost before = chars@;
                        let ghost mb: nat = m as nat;
                        let d: u64 = m % 10;
                        chars.insert(0, digit(d));
                        m = m / 10;
                        proof {
                            assert(chars@ =~= seq![digit_char(d as int)] + before);
                            if mb >= 10 {
                                assert(dec_chars(mb) == dec_chars(mb / 10).push(
                                    digit_char((mb % 10) as int),
                                ));
                                assert(dec_chars(mb / 10) + (seq![digit_char(d as int)] + before)
                                    =~= dec_chars(mb) + before);
                            } else {
                                assert(dec_chars(mb) == seq![digit_char(mb as int)]);
                                assert(Seq::<char>::empty() + (seq![digit_char(d as int)] + before)
                                    =~= dec_chars(mb) + before);
                            }
                        }
                    }
                }
                if neg {
                    chars.insert(0, '-');
                }
                let r = chars_to_string(&chars);
                proof {
                    if m0 == 0 {
                        assert(chars@ =~= dec_chars(m0));
                    }
                    assert(dec_chars(m0) + Seq::<char>::empty() =~= dec_chars(m0));
                    if neg {
                        assert(chars@ =~= seq!['-'] + dec_chars(m0));
                    }
                    assert(r@ =~= value_text(self));
                }
                r
            },
        }
    }
}

/// The character for one decimal digit.
pub open spec fn digit_char(d: int) -> char {
    if d == 0 {
        '0'
    } else if d == 1 {
        '1'
    } else if d == 2 {
        '2'
    } else if d == 3 {
        '3'
    } else if d == 4 {
        '4'
    } else if d == 5 {
        '5'
    } else if d == 6 {
        '6'
    } else if d == 7 {
        '7'
    } else if d == 8 {
        '8'
    } else {
        '9'
    }
}

/// The decimal digits of `n`, most significant first, with no leading
/// zeros (a lone zero for zero itself).
pub open spec fn dec_chars(n: nat) -> Seq<char>
    decreases n,
{
    if n < 10 {
        seq![digit_char(n as int)]
    } else {
        dec_chars(n / 10).push(digit_char((n % 10) as int))
    }
}

/// The text a value renders to: the decimal form of an integer, with a
/// leading minus sign when negative, or `true` / `false` for a boolean.
pub open spec fn value_text(v: ExpressedValue) -> Seq<char> {
    match v {
        ExpressedValue::IntValue(i) => if i < 0 {
            seq!['-'] + dec_chars((-(i as int)) as nat)
        } else {
            dec_chars(i as nat)
        },
        ExpressedValue::BoolValue(b) => if b {
            seq!['t', 'r', 'u', 'e']
        } else {
            seq!['f', 'a', 'l', 's', 'e']
        },
    }
}

/// The character for one decimal digit.
fn digit(d: u64) -> (c: char)
    requires
        d < 10,
    ensures
        c == digit_char(d as int),
{
    match d {
        0 => '0',
        1 => '1',
        2 => '2',
        3 => '3',
        4 => '4',
        5 => '5',
        6 => '6',
        7 => '7',
        8 => '8',
        _ => '9',
    }
}

/// Relies on `String`'s `FromIterator<char>` impl, through `collect`: the
/// collected string holds exactly the characters handed to it, in order.
#[verifier::external_body]
fn chars_to_string(cs: &Vec<char>) -> (r: String)
    ensures
        r@ == cs@,
{
    cs.iter().collect()
}

/// A type-mismatch error carrying `s` as its context message.
pub fn error(s: &str) -> (e: EvalError)
    ensures
        e matches EvalError::TypeMismatch(m) && m@ == s@,
{
    EvalError::TypeMismatch(String::from_str(s))
}

/// What applying a primitive operator to two already-evaluated values
/// yields: the wrapped sum or product, or the comparison, when both are
/// integers; a type mismatch naming the operator otherwise.
pub open spec fn apply_prim_spec(op: BinOp, a1: ExpressedValue, a2: ExpressedValue) -> Result<
    ExpressedValue,
    ErrorSpec,
> {
    match op {
        BinOp::Plus => match (a1, a2) {
            (
                ExpressedValue::IntValue(i1),
                ExpressedValue::IntValue(i2),
            ) => Ok(ExpressedValue::IntValue(i64_specs::wrapping_add(i1, i2))),
            _ => Err(ErrorSpec::Mismatch("Both arguments must be integer: +"@)),
        },
        BinOp::Mult => match (a1, a2) {
            (
                ExpressedValue::IntValue(i1),
                ExpressedValue::IntValue(i2),
            ) => Ok(ExpressedValue::IntValue(i64_specs::wrapping_mul(i1, i2))),
            _ => Err(ErrorSpec::Mismatch("Both arguments must be integer: *"@)),
        },
        BinOp::Lt => match (a1, a2) {
            (
                ExpressedValue::IntValue(i1),
                ExpressedValue::IntValue(i2),
            ) => Ok(ExpressedValue::BoolValue(i1 < i2)),
            _ => Err(ErrorSpec::Mismatch("Both arguments must be integer: <"@)),
        },
    }
}

/// Applies a primitive operator to two evaluated values. Addition and
/// multiplication wrap on overflow.
pub fn apply_prim(op: BinOp, arg1: ExpressedValue, arg2: ExpressedValue) -> (r: Result<
    ExpressedValue,
    EvalError,
>)
    ensures
        result_matches(r, apply_prim_spec(op, arg1, arg2)),
{
    match op {
        BinOp::Plus => {
            if let Ok(i1) = arg1.to_int() {
                if let Ok(i2) = arg2.to_int() {
                    return Ok(ExpressedValue::IntValue(i1.wrapping_add(i2)));
                }
            }
            Err(error("Both arguments must be integer: +"))
        },
        BinOp::Mult => {
            if let Ok(i1) = arg1.to_int() {
                if let Ok(i2) = arg2.to_int() {
                    return Ok(ExpressedValue::IntValue(i1.wrapping_mul(i2)));
                }
            }
            Err(error("Both arguments must be integer: *"))
        },
        BinOp::Lt => {
            if let Ok(i1) = arg1.to_int() {
                if let Ok(i2) = arg2.to_int() {
                    return Ok(ExpressedValue::BoolValue(i1 < i2));
                }
            }
            Err(error("Both arguments must be integer: <"))
        },
    }
}

/// The specification interpreter: the result of reducing `e` under the
/// bindings `env`. Exactly one branch of a conditional contributes to the
/// result; the other is never consulted.
pub open spec fn eval_exp_spec(env: Seq<(Seq<char>, ExpressedValue)>, e: Exp) -> Result<
    ExpressedValue,
    ErrorSpec,
>
    decreases e,
{
    match e {
        Exp::Var(x) => match lookup_spec(env, x@) {
            Some(v) => Ok(v),
            None => Err(ErrorSpec::Unbound(x@)),
        },
        Exp::ILit(i) => Ok(ExpressedValue::IntValue(i)),
        Exp::BLit(b) => Ok(ExpressedValue::BoolValue(b)),
        Exp::BinOp(op, e1, e2) => match eval_exp_spec(env, *e1) {
            Ok(a1) => match eval_exp_spec(env, *e2) {
                Ok(a2) => apply_prim_spec(op, a1, a2),
                Err(m) => Err(m),
            },
            Err(m) => Err(m),
        },
        Exp::IfExp(c, t, f) => match eval_exp_spec(env, *c) {
            Ok(ExpressedValue::BoolValue(true)) => eval_exp_spec(env, *t),
            Ok(ExpressedValue::BoolValue(false)) => eval_exp_spec(env, *f),
            Ok(_) => Err(ErrorSpec::Mismatch("Test expression must be boolean: if"@)),
            Err(m) => Err(m),
        },
    }
}

/// Adding two integer literals evaluates to their sum, in any environment,
/// whenever the sum fits the host integer width.
pub proof fn lemma_eval_plus_literals(env: Seq<(Seq<char>, ExpressedValue)>, a: i64, b: i64)
    requires
        i64::MIN <= a + b <= i64::MAX,
    ensures
        eval_exp_spec(
            env,
            Exp::BinOp(BinOp::Plus, Box::new(Exp::ILit(a)), Box::new(Exp::ILit(b))),
        ) == Result::<ExpressedValue, ErrorSpec>::Ok(ExpressedValue::IntValue((a + b) as i64)),
{
    assert(eval_exp_spec(env, Exp::ILit(a)) == Result::<ExpressedValue, ErrorSpec>::Ok(
        ExpressedValue::IntValue(a),
    ));
    assert(eval_exp_spec(env, Exp::ILit(b)) == Result::<ExpressedValue, ErrorSpec>::Ok(
        ExpressedValue::IntValue(b),
    ));
}

/// Multiplying two integer literals evaluates to their product, in any
/// environment, whenever the product fits the host integer width.
pub proof fn lemma_eval_mult_literals(env: Seq<(Seq<char>, ExpressedValue)>, a: i64, b: i64)
    requires
        i64::MIN <= a * b <= i64::MAX,
    ensures
        eval_exp_spec(
            env,
            Exp::BinOp(BinOp::Mult, Box::new(Exp::ILit(a)), Box::new(Exp::ILit(b))),
        ) == Result::<ExpressedValue, ErrorSpec>::Ok(ExpressedValue::IntValue((a * b) as i64)),
{
    assert(eval_exp_spec(env, Exp::ILit(a)) == Result::<ExpressedValue, ErrorSpec>::Ok(
        ExpressedValue::IntValue(a),
    ));
    assert(eval_exp_spec(env, Exp::ILit(b)) == Result::<ExpressedValue, ErrorSpec>::Ok(
        ExpressedValue::IntValue(b),
    ));
    let x: int = a as int * b as int;
    assert(i64_specs::signed_crop(x) == x);
}

/// Comparing two integer literals evaluates to the boolean of their order,
/// in any environment.
pub proof fn lemma_eval_lt_literals(env: Seq<(Seq<char>, ExpressedValue)>, a: i64, b: i64)
    ensures
        eval_exp_spec(
            env,
            Exp::BinOp(BinOp::Lt, Box::new(Exp::ILit(a)), Box::new(Exp::ILit(b))),
        ) == Result::<ExpressedValue, ErrorSpec>::Ok(ExpressedValue::BoolValue(a < b)),
{
    assert(eval_exp_spec(env, Exp::ILit(a)) == Result::<ExpressedValue, ErrorSpec>::Ok(
        ExpressedValue::IntValue(a),
    ));
    assert(eval_exp_spec(env, Exp::ILit(b)) == Result::<ExpressedValue, ErrorSpec>::Ok(
        ExpressedValue::IntValue(b),
    ));
}

/// A variable reference fails as unbound in every environment that holds
/// no binding for the name.
pub proof fn lemma_eval_unbound(env: Seq<(Seq<char>, ExpressedValue)>, x: String)
    requires
        forall|i: int| 0 <= i < env.len() ==> env[i].0 != x@,
    ensures
        eval_exp_spec(env, Exp::Var(x)) == Result::<ExpressedValue, ErrorSpec>::Err(
            ErrorSpec::Unbound(x@),
        ),
{
    crate::environment::lemma_lookup_spec_none(env, x@);
}

/// A conditional on a boolean literal evaluates exactly its chosen branch:
/// the result is that branch's result alone, whatever the other branch
/// holds, so an unchosen branch that would fail is never consulted.
pub proof fn lemma_eval_if_literal(
    env: Seq<(Seq<char>, ExpressedValue)>,
    c: bool,
    a: Exp,
    b: Exp,
)
    ensures
        eval_exp_spec(
            env,
            Exp::IfExp(Box::new(Exp::BLit(c)), Box::new(a), Box::new(b)),
        ) == if c {
            eval_exp_spec(env, a)
        } else {
            eval_exp_spec(env, b)
        },
{
    assert(eval_exp_spec(env, Exp::BLit(c)) == Result::<ExpressedValue, ErrorSpec>::Ok(
        ExpressedValue::BoolValue(c),
    ));
}

/// A conditional whose condition evaluates to an integer fails with the
/// type mismatch naming the conditional, whatever its branches hold.
pub proof fn lemma_eval_if_int_condition(
    env: Seq<(Seq<char>, ExpressedValue)>,
    i: i64,
    a: Exp,
    b: Exp,
)
    ensures
        eval_exp_spec(
            env,
            Exp::IfExp(Box::new(Exp::ILit(i)), Box::new(a), Box::new(b)),
        ) == Result::<ExpressedValue, ErrorSpec>::Err(
            ErrorSpec::Mismatch("Test expression must be boolean: if"@),
        ),
{
    assert(eval_exp_spec(env, Exp::ILit(i)) == Result::<ExpressedValue, ErrorSpec>::Ok(
        ExpressedValue::IntValue(i),
    ));
}

/// A tree-walking evaluator closed over one environment snapshot.
pub struct Evaluator {
    env: ExpEnvironment,
}

impl View for Evaluator {
    type V = Seq<(Seq<char>, ExpressedValue)>;

    closed spec fn view(&self) -> Seq<(Seq<char>, ExpressedValue)> {
        self.env@
    }
}

impl Evaluator {
    /// An evaluator closed over `env`.
    pub fn new(env: ExpEnvironment) -> (r: Self)
        ensures
            r@ == env@,
    {
        Self { env }
    }

    /// Reduces `exp` to a value under the evaluator's environment. The
    /// result is exactly `eval_exp_spec(self@, exp)`: sub-expressions of a
    /// binary operation are evaluated left to right, and only the chosen
    /// branch of a conditional is evaluated.
    pub fn eval_exp(&self, exp: Exp) -> (r: Result<ExpressedValue, EvalError>)
        ensures
            result_matches(r, eval_exp_spec(self@, exp)),
        decreases exp,
    {
        match exp {
            Exp::Var(x) => match self.env.lookup(x.as_str()) {
                Ok(v) => Ok(*v),
                Err(_) => Err(EvalError::UnboundVariable(x)),
            },
            Exp::ILit(i) => Ok(ExpressedValue::IntValue(i)),
            Exp::BLit(b) => Ok(ExpressedValue::BoolValue(b)),
            Exp::BinOp(op, exp1, exp2) => {
                let arg1 = match self.eval_exp(*exp1) {
                    Ok(v) => v,
                    Err(e) => {
                        return Err(e);
                    },
                };
                let arg2 = match self.eval_exp(*exp2) {
                    Ok(v) => v,
                    Err(e) => {
                        return Err(e);
                    },
                };
                apply_prim(op, arg1, arg2)
            },
            Exp::IfExp(exp1, exp2, exp3) => match self.eval_exp(*exp1) {
                Ok(ExpressedValue::BoolValue(b)) => {
                    if b {
                        self.eval_exp(*exp2)
                    } else {
                        self.eval_exp(*exp3)
                    }
                },
                Ok(_) => Err(error("Test expression must be boolean: if")),
                Err(e) => Err(e),
            },
        }
    }

    /// Evaluates a top-level declaration: reduces the wrapped expression
    /// and, on success, yields the placeholder binding name `-`, an
    /// unchanged copy of the evaluator's environment, and the value.
    pub fn eval_decl(&self, prog: Program) -> (r: Result<
        (String, ExpEnvironment, ExpressedValue),
        EvalError,
    >)
        ensures
            match prog {
                Program::Exp(e) => match (r, eval_exp_spec(self@, e)) {
                    (Ok(t), Ok(v)) => t.0@ == "-"@ && t.1@ == self@ && t.2 == v,
                    (Err(err), Err(m)) => error_matches(err, m),
                    _ => false,
                },
            },
    {
        match prog {
            Program::Exp(e) => {
                let v = match self.eval_exp(e) {
                    Ok(v) => v,
                    Err(err) => {
                        return Err(err);
                    },
                };
                Ok((String::from_str("-"), self.env.duplicate(), v))
            },
        }
    }
}

} // verus!

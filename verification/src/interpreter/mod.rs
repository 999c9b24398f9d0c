//! The evaluator: walks the syntax tree against a scope chain, producing
//! printed lines and runtime errors.
//!
//! Every loop iteration spends one unit of a step budget, so evaluation
//! always ends: a program that loops too long stops with a budget error
//! instead of running forever. The budget is far beyond anything a real run
//! can spend.

use vstd::prelude::*;

use self::environment::{env_lookup, env_rfind, Environment, EnvironmentError};
use self::error::{rte_of, RtE, RuntimeError};
use crate::decimal::{add_spec, div_spec, mul_spec, sub_spec, Decimal};
use crate::parser::types::{
    binary_op_allowed, expr_wf, lemma_stmts_wf_index, stmt_wf, stringify_val, truthy, val_eq,
    val_of, Expr, Operator, OperatorType, Stmt, Val, Value,
};

pub mod environment;
pub mod error;

verus! {

/// How many loop iterations one statement may spend in all.
pub const STEP_BUDGET: u64 = 18_446_744_073_709_551_615;

/// What a unary operator yields on a value: negation of a number, logical
/// negation of anything by its truthiness.
pub open spec fn eval_unary_op(op: Operator, v: Val) -> Result<Val, RtE> {
    match op.operator_type {
        OperatorType::Minus => match v {
            Val::Num(d) => Ok(
                Val::Num(Decimal { mantissa: (-(d.mantissa as int)) as i128, scale: d.scale }),
            ),
            _ => Err(RtE::InvalidUnaryOperatorForValue { operator: op, value: v }),
        },
        OperatorType::Bang => Ok(Val::Bool(!truthy(v))),
        _ => Err(RtE::InvalidUnaryOperator(op)),
    }
}

/// An exact numeric result, or the error for one that has no in-bounds
/// representation.
pub open spec fn num_result(op: Operator, r: Option<Decimal>) -> Result<Val, RtE> {
    match r {
        Some(c) => Ok(Val::Num(c)),
        None => Err(
            RtE::InvalidOperands { operator: op, expected: "a representable numeric result"@ },
        ),
    }
}

/// The error for operands that are not two numbers.
pub open spec fn two_numbers_err(op: Operator) -> Result<Val, RtE> {
    Err(RtE::InvalidOperands { operator: op, expected: "two numbers"@ })
}

/// What a binary operator yields on two values: exact arithmetic and
/// comparisons on numbers, equality on anything, and `+` on any non-number
/// pair as stringified concatenation.
pub open spec fn eval_binary_op(op: Operator, l: Val, r: Val) -> Result<Val, RtE> {
    match op.operator_type {
        OperatorType::Minus => match (l, r) {
            (Val::Num(a), Val::Num(b)) => num_result(op, sub_spec(a, b)),
            _ => two_numbers_err(op),
        },
        OperatorType::Plus => match (l, r) {
            (Val::Num(a), Val::Num(b)) => num_result(op, add_spec(a, b)),
            (lv, rv) => Ok(Val::Text(stringify_val(lv) + stringify_val(rv))),
        },
        OperatorType::Slash => match (l, r) {
            (Val::Num(a), Val::Num(b)) => if b.mantissa == 0 {
                Err(RtE::InvalidOperands { operator: op, expected: "a non-zero divisor"@ })
            } else {
                num_result(op, div_spec(a, b))
            },
            _ => two_numbers_err(op),
        },
        OperatorType::Star => match (l, r) {
            (Val::Num(a), Val::Num(b)) => num_result(op, mul_spec(a, b)),
            _ => two_numbers_err(op),
        },
        OperatorType::BangEqual => Ok(Val::Bool(!val_eq(l, r))),
        OperatorType::EqualEqual => Ok(Val::Bool(val_eq(l, r))),
        OperatorType::Greater => match (l, r) {
            (Val::Num(a), Val::Num(b)) => Ok(Val::Bool(b.below(a))),
            _ => two_numbers_err(op),
        },
        OperatorType::GreaterEqual => match (l, r) {
            (Val::Num(a), Val::Num(b)) => Ok(Val::Bool(!a.below(b))),
            _ => two_numbers_err(op),
        },
        OperatorType::Less => match (l, r) {
            (Val::Num(a), Val::Num(b)) => Ok(Val::Bool(a.below(b))),
            _ => two_numbers_err(op),
        },
        OperatorType::LessEqual => match (l, r) {
            (Val::Num(a), Val::Num(b)) => Ok(Val::Bool(!b.below(a))),
            _ => two_numbers_err(op),
        },
        // Assignment, logical negation and field access never stand between
        // two evaluated operands.
        _ => two_numbers_err(op),
    }
}

/// The coercion law: on a pair that is not two numbers, `+` always
/// succeeds and yields the concatenation of the two printed forms, while
/// the other arithmetic operators refuse such a pair.
pub proof fn lemma_plus_coercion(op: Operator, l: Val, r: Val)
    requires
        !(l is Num && r is Num),
    ensures
        op.operator_type is Plus ==> eval_binary_op(op, l, r) == Ok::<Val, RtE>(
            Val::Text(stringify_val(l) + stringify_val(r)),
        ),
        op.operator_type is Minus || op.operator_type is Slash || op.operator_type is Star
            ==> eval_binary_op(op, l, r) == two_numbers_err(op),
{
}

/// What evaluating a unary expression does: `-` and `!` evaluate their
/// operand first; any other operator is refused before the operand runs.
pub open spec fn eval_unary_full(env: Seq<(Seq<char>, Val)>, op: Operator, rhs: Expr) -> (
    Seq<(Seq<char>, Val)>,
    Result<Val, RtE>,
)
    decreases rhs, 1nat,
{
    if op.operator_type is Minus || op.operator_type is Bang {
        let (env1, rv) = eval_expr(env, rhs);
        match rv {
            Ok(v) => (env1, eval_unary_op(op, v)),
            Err(se) => (env1, Err(se)),
        }
    } else {
        (env, Err(RtE::InvalidUnaryOperator(op)))
    }
}

/// What evaluating an expression does to the bindings, and what it yields:
/// operands run left before right, and an error stops evaluation at once.
pub open spec fn eval_expr(env: Seq<(Seq<char>, Val)>, e: Expr) -> (
    Seq<(Seq<char>, Val)>,
    Result<Val, RtE>,
)
    decreases e, 0nat,
{
    match e {
        Expr::Literal { value } => (env, Ok(val_of(value))),
        Expr::Grouping { inner } => eval_expr(env, *inner),
        Expr::Variable { name } => match name.token_type {
            crate::lexer::token::TokenType::Identifier(s) => match env_lookup(env, s@) {
                Some(v) => (env, Ok(v)),
                None => (
                    env,
                    Err(
                        RtE::UndefinedVariable {
                            name: s@,
                            line: name.line as nat,
                            col: name.col as nat,
                        },
                    ),
                ),
            },
            _ => (env, Ok(Val::Nil)),
        },
        Expr::Assign { name, value } => match name.token_type {
            crate::lexer::token::TokenType::Identifier(s) => {
                let (env1, rv) = eval_expr(env, *value);
                match rv {
                    Ok(v) => {
                        let k = env_rfind(env1, s@);
                        if k >= 0 {
                            (env1.update(k, (env1[k].0, v)), Ok(v))
                        } else {
                            (
                                env1,
                                Err(
                                    RtE::UndefinedVariable {
                                        name: s@,
                                        line: name.line as nat,
                                        col: name.col as nat,
                                    },
                                ),
                            )
                        }
                    },
                    Err(se) => (env1, Err(se)),
                }
            },
            _ => (env, Err(RtE::InvalidAssignTarget(name))),
        },
        Expr::Unary { operator, right } => eval_unary_full(env, operator, *right),
        Expr::Binary { left, operator, right } => {
            let (env1, rl) = eval_expr(env, *left);
            match rl {
                Ok(lv) => {
                    let (env2, rr) = eval_expr(env1, *right);
                    match rr {
                        Ok(rv) => (env2, eval_binary_op(operator, lv, rv)),
                        Err(se) => (env2, Err(se)),
                    }
                },
                Err(se) => (env1, Err(se)),
            }
        },
    }
}

/// What executing one statement does: `top` is where the innermost frame
/// begins, `out` the lines printed so far, `fuel` the remaining step budget.
pub open spec fn exec_stmt(
    env: Seq<(Seq<char>, Val)>,
    top: nat,
    out: Seq<Seq<char>>,
    s: Stmt,
    fuel: nat,
) -> (Seq<(Seq<char>, Val)>, Seq<Seq<char>>, Result<(), RtE>)
    decreases fuel, s, 1nat,
{
    match s {
        Stmt::Block(stmts) => {
            let (env1, out1, r) = exec_stmts(env, env.len(), out, stmts@, fuel);
            (env1.subrange(0, env.len() as int), out1, r)
        },
        Stmt::Expression(e) => {
            let (env1, rv) = eval_expr(env, e);
            match rv {
                Ok(_) => (env1, out, Ok(())),
                Err(se) => (env1, out, Err(se)),
            }
        },
        Stmt::Print(e) => {
            let (env1, rv) = eval_expr(env, e);
            match rv {
                Ok(v) => (env1, out.push(stringify_val(v)), Ok(())),
                Err(se) => (env1, out, Err(se)),
            }
        },
        Stmt::Var { name, initializer } => match name.token_type {
            crate::lexer::token::TokenType::Identifier(s2) => {
                let (env1, rv) = match initializer {
                    Some(e) => eval_expr(env, e),
                    None => (env, Ok(Val::Nil)),
                };
                match rv {
                    Ok(v) => {
                        if env_rfind(env1.subrange(top as int, env1.len() as int), s2@) >= 0 {
                            (
                                env1,
                                out,
                                Err(
                                    RtE::VariableAlreadyDefined {
                                        name: s2@,
                                        line: name.line as nat,
                                        col: name.col as nat,
                                    },
                                ),
                            )
                        } else {
                            (env1.push((s2@, v)), out, Ok(()))
                        }
                    },
                    Err(se) => (env1, out, Err(se)),
                }
            },
            _ => (env, out, Ok(())),
        },
        Stmt::If { condition, then_branch, else_branch } => {
            let (env1, rc) = eval_expr(env, condition);
            match rc {
                Ok(cv) => {
                    if truthy(cv) {
                        exec_stmt(env1, top, out, *then_branch, fuel)
                    } else {
                        match else_branch {
                            Some(b) => exec_stmt(env1, top, out, *b, fuel),
                            None => (env1, out, Ok(())),
                        }
                    }
                },
                Err(se) => (env1, out, Err(se)),
            }
        },
        Stmt::While { condition, body } => exec_while(env, top, out, condition, *body, fuel),
    }
}

/// What executing a sequence of statements does: in order, stopping at the
/// first error.
pub open spec fn exec_stmts(
    env: Seq<(Seq<char>, Val)>,
    top: nat,
    out: Seq<Seq<char>>,
    v: Seq<Stmt>,
    fuel: nat,
) -> (Seq<(Seq<char>, Val)>, Seq<Seq<char>>, Result<(), RtE>)
    decreases fuel, v, 0nat,
{
    if v.len() == 0 {
        (env, out, Ok(()))
    } else {
        let (env1, out1, r) = exec_stmt(env, top, out, v.first(), fuel);
        match r {
            Ok(_) => exec_stmts(env1, top, out1, v.drop_first(), fuel),
            Err(se) => (env1, out1, Err(se)),
        }
    }
}

/// What a while loop does: evaluate the condition, stop when it is false,
/// else spend one unit of budget on one pass of the body and go round again.
pub open spec fn exec_while(
    env: Seq<(Seq<char>, Val)>,
    top: nat,
    out: Seq<Seq<char>>,
    condition: Expr,
    body: Stmt,
    fuel: nat,
) -> (Seq<(Seq<char>, Val)>, Seq<Seq<char>>, Result<(), RtE>)
    decreases fuel, body, 2nat,
{
    let (env1, rc) = eval_expr(env, condition);
    match rc {
        Err(se) => (env1, out, Err(se)),
        Ok(cv) => {
            if !truthy(cv) {
                (env1, out, Ok(()))
            } else if fuel == 0 {
                (env1, out, Err(RtE::StepLimitExceeded))
            } else {
                let (env2, out2, rb) = exec_stmt(env1, top, out, body, (fuel - 1) as nat);
                match rb {
                    Ok(_) => exec_while(env2, top, out2, condition, body, (fuel - 1) as nat),
                    Err(se) => (env2, out2, Err(se)),
                }
            }
        },
    }
}

/// What interpreting a program does: each statement runs with the full
/// budget; a failing statement contributes its error and the next one still
/// runs.
pub open spec fn interpret_spec(
    env: Seq<(Seq<char>, Val)>,
    top: nat,
    out: Seq<Seq<char>>,
    v: Seq<Stmt>,
) -> (Seq<(Seq<char>, Val)>, Seq<Seq<char>>, Seq<RtE>)
    decreases v.len(),
{
    if v.len() == 0 {
        (env, out, Seq::empty())
    } else {
        let (env1, out1, r) = exec_stmt(env, top, out, v.first(), STEP_BUDGET as nat);
        let (env2, out2, errs) = interpret_spec(env1, top, out1, v.drop_first());
        match r {
            Ok(_) => (env2, out2, errs),
            Err(se) => (env2, out2, seq![se] + errs),
        }
    }
}

/// A value result agrees with its mathematical outcome, and a produced
/// value stays within bounds.
pub open spec fn value_result_matches(r: Result<Value, RuntimeError>, s: Result<Val, RtE>) -> bool {
    match (r, s) {
        (Ok(x), Ok(v)) => val_of(x) == v && x.wf(),
        (Err(e), Err(se)) => rte_of(e) == se,
        _ => false,
    }
}

/// A unit result agrees with its mathematical outcome.
pub open spec fn unit_result_matches(r: Result<(), RuntimeError>, s: Result<(), RtE>) -> bool {
    match (r, s) {
        (Ok(_), Ok(_)) => true,
        (Err(e), Err(se)) => rte_of(e) == se,
        _ => false,
    }
}

/// The evaluator: one environment that persists across runs, and the lines
/// printed so far.
pub struct Interpreter {
    environment: Environment,
    output: Vec<String>,
}

impl Interpreter {
    /// The bindings of the persistent environment.
    pub closed spec fn env_deep(&self) -> Seq<(Seq<char>, Val)> {
        self.environment.deep()
    }

    /// Where each open frame begins.
    pub closed spec fn env_starts(&self) -> Seq<usize> {
        self.environment.frame_starts()
    }

    /// The lines printed so far.
    pub closed spec fn out_lines(&self) -> Seq<Seq<char>> {
        self.output@.map_values(|s: String| s@)
    }

    pub closed spec fn wf(&self) -> bool {
        self.environment.wf()
    }

    /// A fresh evaluator with an empty global scope and no output.
    pub fn new() -> (r: Interpreter)
        ensures
            r.wf(),
            r.env_deep() =~= Seq::<(Seq<char>, Val)>::empty(),
            r.env_starts() =~= seq![0usize],
            r.out_lines() =~= Seq::<Seq<char>>::empty(),
    {
        let r = Interpreter { environment: Environment::new(), output: Vec::new() };
        proof {
            assert(r.out_lines() =~= Seq::<Seq<char>>::empty());
        }
        r
    }

    /// Whether two values are equal: numbers by their rational value,
    /// everything else structurally; different kinds are never equal.
    fn values_equal(left: &Value, right: &Value) -> (r: bool)
        requires
            left.wf(),
            right.wf(),
        ensures
            r == val_eq(val_of(*left), val_of(*right)),
    {
        match (left, right) {
            (Value::Boolean(a), Value::Boolean(b)) => *a == *b,
            (Value::Nil, Value::Nil) => true,
            (Value::Number(a), Value::Number(b)) => a.eq_value(*b),
            (Value::Str(a), Value::Str(b)) => *a == *b,
            _ => false,
        }
    }

    /// Applies a binary operator to two already-evaluated values: exact
    /// arithmetic and comparisons on numbers, equality on anything, and `+`
    /// on any non-number pair as stringified concatenation.
    fn evaluate_binary_expression(&self, left: Value, right: Value, operator: Operator) -> (r:
        Result<Value, RuntimeError>)
        requires
            left.wf(),
            right.wf(),
            binary_op_allowed(operator.operator_type),
        ensures
            value_result_matches(r, eval_binary_op(operator, val_of(left), val_of(right))),
    {
        match operator.operator_type {
            OperatorType::Minus => match (left, right) {
                (Value::Number(lhs), Value::Number(rhs)) => match lhs.checked_sub(rhs) {
                    Some(c) => Ok(Value::Number(c)),
                    None => Err(
                        RuntimeError::InvalidOperands {
                            operator,
                            expected: "a representable numeric result".to_owned(),
                        },
                    ),
                },
                _ => Err(
                    RuntimeError::InvalidOperands {
                        operator,
                        expected: "two numbers".to_owned(),
                    },
                ),
            },
            OperatorType::Plus => match (left, right) {
                (Value::Number(lhs), Value::Number(rhs)) => match lhs.checked_add(rhs) {
                    Some(c) => Ok(Value::Number(c)),
                    None => Err(
                        RuntimeError::InvalidOperands {
                            operator,
                            expected: "a representable numeric result".to_owned(),
                        },
                    ),
                },
                // Implicit text conversion: any other pair concatenates.
                (lhs, rhs) => {
                    let mut joined = lhs.stringify();
                    let rhs_text = rhs.stringify();
                    joined.append(rhs_text.as_str());
                    Ok(Value::Str(joined))
                },
            },
            OperatorType::Slash => match (left, right) {
                (Value::Number(lhs), Value::Number(rhs)) => {
                    if rhs.mantissa == 0 {
                        Err(
                            RuntimeError::InvalidOperands {
                                operator,
                                expected: "a non-zero divisor".to_owned(),
                            },
                        )
                    } else {
                        match lhs.checked_div(rhs) {
                            Some(c) => Ok(Value::Number(c)),
                            None => Err(
                                RuntimeError::InvalidOperands {
                                    operator,
                                    expected: "a representable numeric result".to_owned(),
                                },
                            ),
                        }
                    }
                },
                _ => Err(
                    RuntimeError::InvalidOperands {
                        operator,
                        expected: "two numbers".to_owned(),
                    },
                ),
            },
            OperatorType::Star => match (left, right) {
                (Value::Number(lhs), Value::Number(rhs)) => match lhs.checked_mul(rhs) {
                    Some(c) => Ok(Value::Number(c)),
                    None => Err(
                        RuntimeError::InvalidOperands {
                            operator,
                            expected: "a representable numeric result".to_owned(),
                        },
                    ),
                },
                _ => Err(
                    RuntimeError::InvalidOperands {
                        operator,
                        expected: "two numbers".to_owned(),
                    },
                ),
            },
            OperatorType::BangEqual => Ok(
                Value::Boolean(!Interpreter::values_equal(&left, &right)),
            ),
            OperatorType::EqualEqual => Ok(
                Value::Boolean(Interpreter::values_equal(&left, &right)),
            ),
            OperatorType::Greater => match (left, right) {
                (Value::Number(lhs), Value::Number(rhs)) => Ok(
                    Value::Boolean(rhs.lt_value(lhs)),
                ),
                _ => Err(
                    RuntimeError::InvalidOperands {
                        operator,
                        expected: "two numbers".to_owned(),
                    },
                ),
            },
            OperatorType::GreaterEqual => match (left, right) {
                (Value::Number(lhs), Value::Number(rhs)) => Ok(
                    Value::Boolean(!lhs.lt_value(rhs)),
                ),
                _ => Err(
                    RuntimeError::InvalidOperands {
                        operator,
                        expected: "two numbers".to_owned(),
                    },
                ),
            },
            OperatorType::Less => match (left, right) {
                (Value::Number(lhs), Value::Number(rhs)) => Ok(
                    Value::Boolean(lhs.lt_value(rhs)),
                ),
                _ => Err(
                    RuntimeError::InvalidOperands {
                        operator,
                        expected: "two numbers".to_owned(),
                    },
                ),
            },
            OperatorType::LessEqual => match (left, right) {
                (Value::Number(lhs), Value::Number(rhs)) => Ok(
                    Value::Boolean(!rhs.lt_value(lhs)),
                ),
                _ => Err(
                    RuntimeError::InvalidOperands {
                        operator,
                        expected: "two numbers".to_owned(),
                    },
                ),
            },
            _ => {
                proof {
                    assert(false);
                }
                Err(
                    RuntimeError::InvalidOperands {
                        operator,
                        expected: "two numbers".to_owned(),
                    },
                )
            },
        }
    }

    /// Applies a unary operator: `-` and `!` evaluate their operand first;
    /// any other operator is refused before the operand runs.
    fn evaluate_unary_expression(&mut self, operator: Operator, rhs: &Expr) -> (r: Result<
        Value,
        RuntimeError,
    >)
        requires
            old(self).wf(),
            expr_wf(*rhs),
        ensures
            final(self).wf(),
            final(self).env_starts() == old(self).env_starts(),
            final(self).out_lines() == old(self).out_lines(),
            ({
                let (env2, rv) = eval_unary_full(old(self).env_deep(), operator, *rhs);
                final(self).env_deep() == env2 && value_result_matches(r, rv)
            }),
        decreases *rhs, 1nat,
    {
        match operator.operator_type {
            OperatorType::Minus => {
                let v = match self.evaluate(rhs) {
                    Ok(v) => v,
                    Err(e) => {
                        return Err(e);
                    },
                };
                if let Value::Number(number) = v {
                    Ok(Value::Number(number.neg()))
                } else {
                    Err(RuntimeError::InvalidUnaryOperatorForValue { operator, value: v })
                }
            },
            OperatorType::Bang => {
                let v = match self.evaluate(rhs) {
                    Ok(v) => v,
                    Err(e) => {
                        return Err(e);
                    },
                };
                Ok(Value::Boolean(!v.is_truthy()))
            },
            _ => Err(RuntimeError::InvalidUnaryOperator(operator)),
        }
    }

    /// Evaluates one expression against the current bindings, mutating them
    /// on assignment; operands run left before right.
    fn evaluate(&mut self, expr: &Expr) -> (r: Result<Value, RuntimeError>)
        requires
            old(self).wf(),
            expr_wf(*expr),
        ensures
            final(self).wf(),
            final(self).env_starts() == old(self).env_starts(),
            final(self).out_lines() == old(self).out_lines(),
            ({
                let (env2, rv) = eval_expr(old(self).env_deep(), *expr);
                final(self).env_deep() == env2 && value_result_matches(r, rv)
            }),
        decreases *expr, 0nat,
    {
        match expr {
            Expr::Literal { value } => Ok(value.clone()),
            Expr::Grouping { inner } => self.evaluate(inner),
            Expr::Variable { name } => {
                match &name.token_type {
                    crate::lexer::token::TokenType::Identifier(s) => {
                        match self.environment.get(s) {
                            Ok(v) => Ok(v),
                            Err(env_err) => Err(
                                RuntimeError::from_env_err(env_err, name.clone()),
                            ),
                        }
                    },
                    _ => {
                        proof {
                            assert(false);
                        }
                        Ok(Value::Nil)
                    },
                }
            },
            Expr::Assign { name, value } => {
                match &name.token_type {
                    crate::lexer::token::TokenType::Identifier(s) => {
                        let v = match self.evaluate(value) {
                            Ok(v) => v,
                            Err(e) => {
                                return Err(e);
                            },
                        };
                        match self.environment.assign(s.clone(), v.clone()) {
                            Ok(_) => Ok(v),
                            Err(env_err) => Err(
                                RuntimeError::from_env_err(env_err, name.clone()),
                            ),
                        }
                    },
                    _ => Err(RuntimeError::InvalidAssignTarget(name.clone())),
                }
            },
            Expr::Unary { operator, right } => self.evaluate_unary_expression(*operator, right),
            Expr::Binary { left, operator, right } => {
                let lv = match self.evaluate(left) {
                    Ok(v) => v,
                    Err(e) => {
                        return Err(e);
                    },
                };
                let rv = match self.evaluate(right) {
                    Ok(v) => v,
                    Err(e) => {
                        return Err(e);
                    },
                };
                self.evaluate_binary_expression(lv, rv, *operator)
            },
        }
    }

    /// Executes one statement against the full step budget.
    pub fn execute(&mut self, stmt: &Stmt) -> (r: Result<(), RuntimeError>)
        requires
            old(self).wf(),
            stmt_wf(*stmt),
        ensures
            final(self).wf(),
            final(self).env_starts() == old(self).env_starts(),
            ({
                let (env2, out2, rs) = exec_stmt(
                    old(self).env_deep(),
                    old(self).env_starts().last() as nat,
                    old(self).out_lines(),
                    *stmt,
                    STEP_BUDGET as nat,
                );
                final(self).env_deep() == env2 && final(self).out_lines() == out2
                    && unit_result_matches(r, rs)
            }),
    {
        self.execute_with_fuel(stmt, STEP_BUDGET)
    }

    /// Executes one statement, spending at most `fuel` loop iterations.
    fn execute_with_fuel(&mut self, stmt: &Stmt, fuel: u64) -> (r: Result<(), RuntimeError>)
        requires
            old(self).wf(),
            stmt_wf(*stmt),
        ensures
            final(self).wf(),
            final(self).env_starts() == old(self).env_starts(),
            ({
                let (env2, out2, rs) = exec_stmt(
                    old(self).env_deep(),
                    old(self).env_starts().last() as nat,
                    old(self).out_lines(),
                    *stmt,
                    fuel as nat,
                );
                final(self).env_deep() == env2 && final(self).out_lines() == out2
                    && unit_result_matches(r, rs)
            }),
        decreases fuel, *stmt,
    {
        match stmt {
            Stmt::Block(stmts) => {
                let ghost env0 = self.env_deep();
                let ghost out0 = self.out_lines();
                let ghost starts0 = self.env_starts();
                let ghost top1 = env0.len();
                proof {
                    self.environment.lemma_deep_len();
                    self.environment.lemma_wf_starts();
                }
                self.environment.enter_new_scope();
                proof {
                    lemma_stmts_wf_index(stmts@);
                    assert(stmts@.subrange(0, stmts@.len() as int) =~= stmts@);
                    assert(self.env_starts().last() == top1 as usize);
                }
                let mut i: usize = 0;
                let mut result: Result<(), RuntimeError> = Ok(());
                loop
                    invariant_except_break
                        result is Ok,
                        exec_stmts(env0, top1, out0, stmts@, fuel as nat) == exec_stmts(
                            self.env_deep(),
                            top1,
                            self.out_lines(),
                            stmts@.subrange(i as int, stmts@.len() as int),
                            fuel as nat,
                        ),
                    invariant
                        self.wf(),
                        i <= stmts@.len(),
                        (*stmt) matches Stmt::Block(v) && v@ == stmts@,
                        forall|k: int| 0 <= k < stmts@.len() ==> #[trigger] stmt_wf(stmts@[k]),
                        self.env_starts() == starts0.push(top1 as usize),
                        self.env_starts().last() as nat == top1,
                        starts0.len() >= 1,
                    ensures
                        self.wf(),
                        self.env_starts() == starts0.push(top1 as usize),
                        ({
                            let (e2, o2, rr) = exec_stmts(env0, top1, out0, stmts@, fuel as nat);
                            self.env_deep() == e2 && self.out_lines() == o2
                                && unit_result_matches(result, rr)
                        }),
                    decreases stmts@.len() - i,
                {
                    if i >= stmts.len() {
                        proof {
                            assert(stmts@.subrange(i as int, stmts@.len() as int).len() == 0);
                        }
                        break ;
                    }
                    let ghost sub = stmts@.subrange(i as int, stmts@.len() as int);
                    proof {
                        assert(sub.first() == stmts@[i as int]);
                        assert(sub.drop_first() =~= stmts@.subrange(
                            i as int + 1,
                            stmts@.len() as int,
                        ));
                    }
                    match self.execute_with_fuel(&stmts[i], fuel) {
                        Ok(_) => {
                            i = i + 1;
                        },
                        Err(e) => {
                            result = Err(e);
                            break ;
                        },
                    }
                }
                let ghost starts_before_exit = self.env_starts();
                match self.environment.exit_current_scope() {
                    Ok(_) => {},
                    Err(_) => {
                        proof {
                            assert(false);
                        }
                    },
                }
                proof {
                    assert(starts_before_exit.drop_last() =~= starts0);
                }
                result
            },
            Stmt::Expression(e) => {
                match self.evaluate(e) {
                    Ok(_) => Ok(()),
                    Err(err) => Err(err),
                }
            },
            Stmt::Print(e) => {
                match self.evaluate(e) {
                    Ok(v) => {
                        let ghost out_before = self.out_lines();
                        let line = v.stringify();
                        let ghost line_ghost = line;
                        self.output.push(line);
                        proof {
                            assert(self.out_lines() =~= out_before.push(line_ghost@));
                        }
                        Ok(())
                    },
                    Err(err) => Err(err),
                }
            },
            Stmt::Var { name, initializer } => {
                match &name.token_type {
                    crate::lexer::token::TokenType::Identifier(s) => {
                        let initial_value = match initializer {
                            Some(e) => match self.evaluate(e) {
                                Ok(v) => v,
                                Err(err) => {
                                    return Err(err);
                                },
                            },
                            None => Value::Nil,
                        };
                        match self.environment.define(s.clone(), initial_value) {
                            Ok(_) => Ok(()),
                            Err(env_err) => Err(
                                RuntimeError::from_env_err(env_err, name.clone()),
                            ),
                        }
                    },
                    _ => {
                        proof {
                            assert(false);
                        }
                        Ok(())
                    },
                }
            },
            Stmt::If { condition, then_branch, else_branch } => {
                let cv = match self.evaluate(condition) {
                    Ok(v) => v,
                    Err(err) => {
                        return Err(err);
                    },
                };
                if cv.is_truthy() {
                    self.execute_with_fuel(then_branch, fuel)
                } else {
                    match else_branch {
                        Some(b) => self.execute_with_fuel(b, fuel),
                        None => Ok(()),
                    }
                }
            },
            Stmt::While { condition, body } => {
                let ghost top0 = self.env_starts().last() as nat;
                let mut fuel_left: u64 = fuel;
                loop
                    invariant_except_break
                        exec_stmt(
                            old(self).env_deep(),
                            old(self).env_starts().last() as nat,
                            old(self).out_lines(),
                            *stmt,
                            fuel as nat,
                        ) == exec_while(
                            self.env_deep(),
                            top0,
                            self.out_lines(),
                            *condition,
                            **body,
                            fuel_left as nat,
                        ),
                    invariant
                        self.wf(),
                        expr_wf(*condition),
                        stmt_wf(**body),
                        fuel_left <= fuel,
                        self.env_starts() == old(self).env_starts(),
                        top0 == old(self).env_starts().last() as nat,
                    ensures
                        self.wf(),
                        self.env_starts() == old(self).env_starts(),
                        ({
                            let (e2, o2, rr) = exec_stmt(
                                old(self).env_deep(),
                                old(self).env_starts().last() as nat,
                                old(self).out_lines(),
                                *stmt,
                                fuel as nat,
                            );
                            self.env_deep() == e2 && self.out_lines() == o2 && rr == Ok::<
                                (),
                                RtE,
                            >(())
                        }),
                    decreases fuel_left,
                {
                    let cv = match self.evaluate(condition) {
                        Ok(v) => v,
                        Err(err) => {
                            return Err(err);
                        },
                    };
                    if !cv.is_truthy() {
                        break ;
                    }
                    if fuel_left == 0 {
                        return Err(RuntimeError::StepLimitExceeded);
                    }
                    fuel_left = fuel_left - 1;
                    match self.execute_with_fuel(body, fuel_left) {
                        Ok(_) => {},
                        Err(err) => {
                            return Err(err);
                        },
                    }
                }
                Ok(())
            },
        }
    }

    /// Runs a whole program: each statement in order, collecting the errors
    /// of the statements that failed; a failing statement never stops the
    /// ones after it.
    pub fn interpret(&mut self, statements: Vec<Stmt>) -> (errors: Vec<RuntimeError>)
        requires
            old(self).wf(),
            forall|k: int|
                0 <= k < statements@.len() ==> #[trigger] stmt_wf(statements@[k]),
        ensures
            final(self).wf(),
            final(self).env_starts() == old(self).env_starts(),
            ({
                let (env2, out2, errs) = interpret_spec(
                    old(self).env_deep(),
                    old(self).env_starts().last() as nat,
                    old(self).out_lines(),
                    statements@,
                );
                final(self).env_deep() == env2 && final(self).out_lines() == out2
                    && errors@.map_values(|e: RuntimeError| rte_of(e)) == errs
            }),
    {
        let mut errors: Vec<RuntimeError> = Vec::new();
        let mut i: usize = 0;
        proof {
            assert(statements@.subrange(0, statements@.len() as int) =~= statements@);
            assert(errors@.map_values(|e: RuntimeError| rte_of(e)) =~= Seq::<RtE>::empty());
        }
        loop
            invariant
                self.wf(),
                i <= statements@.len(),
                forall|k: int|
                    0 <= k < statements@.len() ==> #[trigger] stmt_wf(statements@[k]),
                self.env_starts() == old(self).env_starts(),
                ({
                    let (env2, out2, errs) = interpret_spec(
                        old(self).env_deep(),
                        old(self).env_starts().last() as nat,
                        old(self).out_lines(),
                        statements@,
                    );
                    let (env3, out3, errs3) = interpret_spec(
                        self.env_deep(),
                        old(self).env_starts().last() as nat,
                        self.out_lines(),
                        statements@.subrange(i as int, statements@.len() as int),
                    );
                    env2 == env3 && out2 == out3 && errs == errors@.map_values(
                        |e: RuntimeError| rte_of(e),
                    ) + errs3
                }),
            ensures
                self.wf(),
                self.env_starts() == old(self).env_starts(),
                ({
                    let (env2, out2, errs) = interpret_spec(
                        old(self).env_deep(),
                        old(self).env_starts().last() as nat,
                        old(self).out_lines(),
                        statements@,
                    );
                    self.env_deep() == env2 && self.out_lines() == out2 && errs
                        == errors@.map_values(|e: RuntimeError| rte_of(e))
                }),
            decreases statements@.len() - i,
        {
            if i >= statements.len() {
                proof {
                    let sub = statements@.subrange(i as int, statements@.len() as int);
                    assert(sub.len() == 0);
                    let (env2, out2, errs) = interpret_spec(
                        old(self).env_deep(),
                        old(self).env_starts().last() as nat,
                        old(self).out_lines(),
                        statements@,
                    );
                    assert(errs =~= errors@.map_values(|e: RuntimeError| rte_of(e)));
                }
                break ;
            }
            let ghost sub = statements@.subrange(i as int, statements@.len() as int);
            let ghost errs_pre = errors@.map_values(|e: RuntimeError| rte_of(e));
            proof {
                assert(sub.first() == statements@[i as int]);
                assert(sub.drop_first() =~= statements@.subrange(
                    i as int + 1,
                    statements@.len() as int,
                ));
            }
            match self.execute(&statements[i]) {
                Ok(_) => {},
                Err(e) => {
                    let ghost e_ghost = e;
                    errors.push(e);
                    proof {
                        assert(errors@.map_values(|e2: RuntimeError| rte_of(e2)) =~= errs_pre.push(
                            rte_of(e_ghost),
                        ));
                        assert forall|rest: Seq<RtE>|
                            true implies errs_pre + (seq![rte_of(e_ghost)] + rest) =~= errs_pre.push(
                            rte_of(e_ghost),
                        ) + rest by {}
                    }
                },
            }
            i = i + 1;
        }
        errors
    }

    /// Hands over the lines printed so far and starts afresh.
    pub fn take_output(&mut self) -> (r: Vec<String>)
        requires
            old(self).wf(),
        ensures
            final(self).wf(),
            r@.map_values(|s: String| s@) == old(self).out_lines(),
            final(self).out_lines() =~= Seq::<Seq<char>>::empty(),
            final(self).env_deep() == old(self).env_deep(),
            final(self).env_starts() == old(self).env_starts(),
    {
        let mut out: Vec<String> = Vec::new();
        core::mem::swap(&mut out, &mut self.output);
        proof {
            assert(final(self).out_lines() =~= Seq::<Seq<char>>::empty());
        }
        out
    }
}

} // verus!

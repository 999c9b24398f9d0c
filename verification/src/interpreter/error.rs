//! What can stop one statement at run time.

use vstd::prelude::*;
use vstd::string::StringExecFns;

use crate::interpreter::environment::EnvironmentError;
use crate::lexer::token::{token_type_name, Token};
use crate::parser::types::{operator_text, stringify_val, val_of, value_text, Operator, Val, Value};
use crate::strutil::{nat_chars, usize_string};

verus! {

/// A runtime error: fatal to the one statement it stops, never to the
/// whole program.
#[derive(Debug, PartialEq)]
pub enum RuntimeError {
    /// The declared name is already bound in the same scope.
    VariableAlreadyDefined { name: String, line: usize, col: usize },
    /// The referenced name is bound in no reachable scope.
    UndefinedVariable { name: String, line: usize, col: usize },
    /// The target of an assignment is not a plain variable.
    InvalidAssignTarget(Token),
    /// The operands do not fit the operator, or the exact result has no
    /// representation.
    InvalidOperands { operator: Operator, expected: String },
    /// An operator that has no unary meaning.
    InvalidUnaryOperator(Operator),
    /// A unary operator applied to a value of the wrong kind.
    InvalidUnaryOperatorForValue { operator: Operator, value: Value },
    /// A loop ran past the evaluator's step budget.
    StepLimitExceeded,
}

/// The mathematical shape of a runtime error.
pub enum RtE {
    VariableAlreadyDefined { name: Seq<char>, line: nat, col: nat },
    UndefinedVariable { name: Seq<char>, line: nat, col: nat },
    InvalidAssignTarget(Token),
    InvalidOperands { operator: Operator, expected: Seq<char> },
    InvalidUnaryOperator(Operator),
    InvalidUnaryOperatorForValue { operator: Operator, value: Val },
    StepLimitExceeded,
}

/// The mathematical shape a runtime error value stands for.
pub open spec fn rte_of(e: RuntimeError) -> RtE {
    match e {
        RuntimeError::VariableAlreadyDefined { name, line, col } => RtE::VariableAlreadyDefined {
            name: name@,
            line: line as nat,
            col: col as nat,
        },
        RuntimeError::UndefinedVariable { name, line, col } => RtE::UndefinedVariable {
            name: name@,
            line: line as nat,
            col: col as nat,
        },
        RuntimeError::InvalidAssignTarget(t) => RtE::InvalidAssignTarget(t),
        RuntimeError::InvalidOperands { operator, expected } => RtE::InvalidOperands {
            operator,
            expected: expected@,
        },
        RuntimeError::InvalidUnaryOperator(op) => RtE::InvalidUnaryOperator(op),
        RuntimeError::InvalidUnaryOperatorForValue { operator, value } => RtE::InvalidUnaryOperatorForValue {
            operator,
            value: val_of(value),
        },
        RuntimeError::StepLimitExceeded => RtE::StepLimitExceeded,
    }
}

impl RuntimeError {
    /// Lifts a scope-chain error at a name token into a runtime error. The
    /// scope-exit error is a defect of the evaluator, never of the program
    /// run, so it is not accepted here.
    pub fn from_env_err(env_err: EnvironmentError, name_token: Token) -> (r: RuntimeError)
        requires
            !(env_err is ExitingGlobalScope),
        ensures
            match env_err {
                EnvironmentError::VariableAlreadyDefined(n) => r
                    == (RuntimeError::VariableAlreadyDefined {
                    name: n,
                    line: name_token.line,
                    col: name_token.col,
                }),
                EnvironmentError::UndefinedVariable(n) => r == (RuntimeError::UndefinedVariable {
                    name: n,
                    line: name_token.line,
                    col: name_token.col,
                }),
                EnvironmentError::ExitingGlobalScope => false,
            },
    {
        match env_err {
            EnvironmentError::VariableAlreadyDefined(name) => RuntimeError::VariableAlreadyDefined {
                name,
                line: name_token.line,
                col: name_token.col,
            },
            EnvironmentError::UndefinedVariable(name) => RuntimeError::UndefinedVariable {
                name,
                line: name_token.line,
                col: name_token.col,
            },
            EnvironmentError::ExitingGlobalScope => {
                proof {
                    assert(false);
                }
                RuntimeError::StepLimitExceeded
            },
        }
    }

    /// The rendered diagnostic line.
    pub fn message(&self) -> (r: String)
        requires
            self.wf(),
        ensures
            r@ == runtime_error_message(*self),
    {
        let mut s = String::new();
        match self {
            RuntimeError::VariableAlreadyDefined { name, .. } => {
                s.append("variable '");
                s.append(name.as_str());
                s.append("' is already defined.");
            },
            RuntimeError::UndefinedVariable { name, .. } => {
                s.append("undefined variable '");
                s.append(name.as_str());
                s.append("'");
            },
            RuntimeError::InvalidAssignTarget(t) => {
                s.append("cannot assign a value to ");
                s.append(t.token_type.name());
            },
            RuntimeError::InvalidOperands { operator, expected } => {
                s.append("invalid operands for '");
                s.append(operator.render());
                s.append("', expected ");
                s.append(expected.as_str());
            },
            RuntimeError::InvalidUnaryOperator(op) => {
                s.append("invalid operator '");
                s.append(op.render());
                s.append("'");
            },
            RuntimeError::InvalidUnaryOperatorForValue { operator, value } => {
                s.append("invalid operator '");
                s.append(operator.render());
                s.append("' for value ");
                s.append(value.render().as_str());
            },
            RuntimeError::StepLimitExceeded => {
                s.append("loop ran past the evaluator's step budget");
            },
        }
        proof {
            assert(s@ =~= runtime_error_message(*self));
        }
        s
    }

    /// Any value carried stays within the decimal bounds.
    pub open spec fn wf(self) -> bool {
        match self {
            RuntimeError::InvalidUnaryOperatorForValue { value, .. } => value.wf(),
            _ => true,
        }
    }
}

/// The rendered diagnostic of a runtime error.
pub open spec fn runtime_error_message(e: RuntimeError) -> Seq<char> {
    match e {
        RuntimeError::VariableAlreadyDefined { name, .. } => "variable '"@ + name@
            + "' is already defined."@,
        RuntimeError::UndefinedVariable { name, .. } => "undefined variable '"@ + name@ + "'"@,
        RuntimeError::InvalidAssignTarget(t) => "cannot assign a value to "@ + token_type_name(
            t.token_type,
        ),
        RuntimeError::InvalidOperands { operator, expected } => "invalid operands for '"@
            + operator_text(operator.operator_type) + "', expected "@ + expected@,
        RuntimeError::InvalidUnaryOperator(op) => "invalid operator '"@ + operator_text(
            op.operator_type,
        ) + "'"@,
        RuntimeError::InvalidUnaryOperatorForValue { operator, value } => "invalid operator '"@
            + operator_text(operator.operator_type) + "' for value "@ + value_text(val_of(value)),
        RuntimeError::StepLimitExceeded => "loop ran past the evaluator's step budget"@,
    }
}

} // verus!

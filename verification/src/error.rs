//! Errors that a running program can cause.

use vstd::prelude::*;
use vstd::string::*;
use crate::expr::Kind;
use crate::resolver::ResolveError;
use crate::number::{decimal, push_decimal};
use crate::token::TokenType;

verus! {

/// Why the evaluation of a program stopped.
#[derive(Debug)]
pub enum RuntimeError {
    /// A name was read or assigned that no frame of the chain binds.
    UndeclaredVariable { name: String },
    /// A local variable was read before the frame it belongs to bound it.
    UndeclaredLocal { name: String },
    /// A unary operator was applied to a value it is not defined for.
    InvalidUnaryOperand { operator: TokenType, operand: Kind },
    /// A token that is no unary operator stood in the place of one.
    InvalidUnaryOperator { operator: TokenType },
    /// A binary operator was applied to text and a number.
    StringAndNumber { operator: TokenType },
    /// A binary operator was applied to values it is not defined for.
    InvalidOperands { operator: TokenType, left: Kind, right: Kind },
    /// The result of an arithmetic operator cannot be represented.
    NumberOutOfRange { operator: TokenType },
    /// A number was divided by zero.
    DivisionByZero,
    /// A value that is not callable was called.
    NotCallable { kind: Kind },
    /// A function was called with the wrong number of arguments.
    ArityMismatch { expected: usize, found: usize },
    /// The name of a class was gone when the class was to be stored.
    ClassDefinition { name: String },
    /// Calls are nested deeper than the limit allows.
    CallDepthExceeded,
    /// One loop ran more iterations than the limit allows.
    LoopLimitExceeded,
    /// A literal holds a function or a class.
    ForeignLiteral,
}

impl RuntimeError {
    /// The message for the user.
    pub open spec fn text(self) -> Seq<char> {
        match self {
            RuntimeError::UndeclaredVariable { name } => "Variable '"@ + name@
                + "' has not been declared"@,
            RuntimeError::UndeclaredLocal { name } => "Local variable '"@ + name@
                + "' has not been declared"@,
            RuntimeError::InvalidUnaryOperand { operator, operand } => operator.name_spec()
                + " not implemented for "@ + operand.name_spec(),
            RuntimeError::InvalidUnaryOperator { operator } => operator.name_spec()
                + " is not a valid unary operator"@,
            RuntimeError::StringAndNumber { operator } => operator.name_spec()
                + " is not defined for string and number"@,
            RuntimeError::InvalidOperands { operator, left, right } => operator.name_spec()
                + " is not implemented for operands "@ + left.name_spec() + " and "@
                + right.name_spec(),
            RuntimeError::NumberOutOfRange { operator } => operator.name_spec()
                + " gives a number out of range"@,
            RuntimeError::DivisionByZero => "Division by zero"@,
            RuntimeError::NotCallable { kind } => "Can only call functions, not "@
                + kind.name_spec(),
            RuntimeError::ArityMismatch { expected, found } => "Expected "@ + decimal(
                expected as nat,
            ) + " arguments but got "@ + decimal(found as nat),
            RuntimeError::ClassDefinition { name } => "Class definition failed for "@ + name@,
            RuntimeError::CallDepthExceeded => "Call depth limit exceeded"@,
            RuntimeError::LoopLimitExceeded => "Loop iteration limit exceeded"@,
            RuntimeError::ForeignLiteral => "Literal is not a plain value"@,
        }
    }

    /// The message for the user.
    pub fn message(&self) -> (r: String)
        ensures
            r@ == self.text(),
    {
        match self {
            RuntimeError::UndeclaredVariable { name } => {
                let mut out = String::from_str("Variable '");
                out.append(name.as_str());
                out.append("' has not been declared");
                out
            },
            RuntimeError::UndeclaredLocal { name } => {
                let mut out = String::from_str("Local variable '");
                out.append(name.as_str());
                out.append("' has not been declared");
                out
            },
            RuntimeError::InvalidUnaryOperand { operator, operand } => {
                let mut out = String::from_str(operator.name());
                out.append(" not implemented for ");
                out.append(operand.name());
                out
            },
            RuntimeError::InvalidUnaryOperator { operator } => {
                let mut out = String::from_str(operator.name());
                out.append(" is not a valid unary operator");
                out
            },
            RuntimeError::StringAndNumber { operator } => {
                let mut out = String::from_str(operator.name());
                out.append(" is not defined for string and number");
                out
            },
            RuntimeError::InvalidOperands { operator, left, right } => {
                let mut out = String::from_str(operator.name());
                out.append(" is not implemented for operands ");
                out.append(left.name());
                out.append(" and ");
                out.append(right.name());
                out
            },
            RuntimeError::NumberOutOfRange { operator } => {
                let mut out = String::from_str(operator.name());
                out.append(" gives a number out of range");
                out
            },
            RuntimeError::DivisionByZero => String::from_str("Division by zero"),
            RuntimeError::NotCallable { kind } => {
                let mut out = String::from_str("Can only call functions, not ");
                out.append(kind.name());
                out
            },
            RuntimeError::ArityMismatch { expected, found } => {
                let mut out = String::from_str("Expected ");
                push_decimal(&mut out, *expected as u64);
                out.append(" arguments but got ");
                push_decimal(&mut out, *found as u64);
                out
            },
            RuntimeError::ClassDefinition { name } => {
                let mut out = String::from_str("Class definition failed for ");
                out.append(name.as_str());
                out
            },
            RuntimeError::CallDepthExceeded => String::from_str("Call depth limit exceeded"),
            RuntimeError::LoopLimitExceeded => String::from_str("Loop iteration limit exceeded"),
            RuntimeError::ForeignLiteral => String::from_str("Literal is not a plain value"),
        }
    }
}

/// Why a program could not be run to its end.
#[derive(Debug)]
pub enum Error {
    /// The program was rejected before it ran.
    Resolve(ResolveError),
    /// The program stopped while it ran.
    Runtime(RuntimeError),
}

impl Error {
    /// The message for the user.
    pub open spec fn text(self) -> Seq<char> {
        match self {
            Error::Resolve(err) => err.text(),
            Error::Runtime(err) => err.text(),
        }
    }

    /// The message for the user.
    pub fn message(&self) -> (r: String)
        ensures
            r@ == self.text(),
    {
        match self {
            Error::Resolve(err) => err.message(),
            Error::Runtime(err) => err.message(),
        }
    }
}

} // verus!

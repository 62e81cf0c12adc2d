//! The unary and binary operators on values.

use vstd::prelude::*;
use vstd::string::*;
use crate::error::RuntimeError;
use crate::expr::{str_less, text_less, values_equal, Kind, LiteralValue, ValueModel};
use crate::number::{number_of, quotient_of, quotient_toward_zero, Number};
use crate::token::TokenType;

verus! {

/// The view of the outcome of an evaluation.
pub open spec fn outcome_view(r: Result<LiteralValue, RuntimeError>) -> Result<
    ValueModel,
    RuntimeError,
> {
    match r {
        Ok(v) => Ok(v@),
        Err(err) => Err(err),
    }
}

/// The number that an arithmetic operator gives, or the error that says it
/// is out of range.
pub open spec fn in_range_or(n: Option<Number>, operator: TokenType) -> Result<
    ValueModel,
    RuntimeError,
> {
    match n {
        Some(x) => Ok(ValueModel::Number(x)),
        None => Err(RuntimeError::NumberOutOfRange { operator }),
    }
}

/// A binary operator on two numbers: arithmetic, which fails when the result
/// is out of range or the divisor is zero, and comparison.
pub open spec fn numeric(operator: TokenType, x: Number, y: Number) -> Result<
    ValueModel,
    RuntimeError,
> {
    match operator {
        TokenType::Plus => in_range_or(number_of(x.micros + y.micros), operator),
        TokenType::Minus => in_range_or(number_of(x.micros - y.micros), operator),
        TokenType::Star => in_range_or(
            number_of(quotient_toward_zero(x.micros * y.micros, 1_000_000)),
            operator,
        ),
        TokenType::Slash => if y.micros == 0 {
            Err(RuntimeError::DivisionByZero)
        } else {
            in_range_or(number_of(quotient_of(x.micros as int, y.micros as int)), operator)
        },
        TokenType::Greater => Ok(ValueModel::of_bool(x.micros > y.micros)),
        TokenType::GreaterEqual => Ok(ValueModel::of_bool(x.micros >= y.micros)),
        TokenType::Less => Ok(ValueModel::of_bool(x.micros < y.micros)),
        TokenType::LessEqual => Ok(ValueModel::of_bool(x.micros <= y.micros)),
        TokenType::BangEqual => Ok(ValueModel::of_bool(x != y)),
        TokenType::EqualEqual => Ok(ValueModel::of_bool(x == y)),
        _ => Err(
            RuntimeError::InvalidOperands { operator, left: Kind::Number, right: Kind::Number },
        ),
    }
}

/// A binary operator on two texts: concatenation, equality, and comparison
/// in lexicographic order.
pub open spec fn textual(operator: TokenType, x: Seq<char>, y: Seq<char>) -> Result<
    ValueModel,
    RuntimeError,
> {
    match operator {
        TokenType::Plus => Ok(ValueModel::Text(x + y)),
        TokenType::Greater => Ok(ValueModel::of_bool(text_less(y, x))),
        TokenType::GreaterEqual => Ok(ValueModel::of_bool(!text_less(x, y))),
        TokenType::Less => Ok(ValueModel::of_bool(text_less(x, y))),
        TokenType::LessEqual => Ok(ValueModel::of_bool(!text_less(y, x))),
        TokenType::BangEqual => Ok(ValueModel::of_bool(x != y)),
        TokenType::EqualEqual => Ok(ValueModel::of_bool(x == y)),
        _ => Err(
            RuntimeError::InvalidOperands { operator, left: Kind::String, right: Kind::String },
        ),
    }
}

/// A binary operator on two values. Text with a number is an error for
/// every operator; apart from that, equality and inequality take any two
/// values, and the other operators take two numbers or two texts.
pub open spec fn binary(a: ValueModel, operator: TokenType, b: ValueModel) -> Result<
    ValueModel,
    RuntimeError,
> {
    match (a, b) {
        (ValueModel::Number(x), ValueModel::Number(y)) => numeric(operator, x, y),
        (ValueModel::Text(x), ValueModel::Text(y)) => textual(operator, x, y),
        (ValueModel::Text(_), ValueModel::Number(_)) => Err(
            RuntimeError::StringAndNumber { operator },
        ),
        (ValueModel::Number(_), ValueModel::Text(_)) => Err(
            RuntimeError::StringAndNumber { operator },
        ),
        _ => match operator {
            TokenType::BangEqual => Ok(ValueModel::of_bool(!values_equal(a, b))),
            TokenType::EqualEqual => Ok(ValueModel::of_bool(values_equal(a, b))),
            _ => Err(RuntimeError::InvalidOperands { operator, left: a.kind(), right: b.kind() }),
        },
    }
}

/// A unary operator on a value: `Minus` negates a number, `Bang` says
/// whether the value counts as false.
pub open spec fn unary(operator: TokenType, v: ValueModel) -> Result<ValueModel, RuntimeError> {
    match operator {
        TokenType::Minus => match v {
            ValueModel::Number(x) => in_range_or(number_of(-x.micros), operator),
            _ => Err(RuntimeError::InvalidUnaryOperand { operator, operand: v.kind() }),
        },
        TokenType::Bang => Ok(ValueModel::of_bool(v.falsy())),
        _ => Err(RuntimeError::InvalidUnaryOperator { operator }),
    }
}

fn number_or(n: Option<Number>, operator: TokenType) -> (r: Result<LiteralValue, RuntimeError>)
    ensures
        outcome_view(r) == in_range_or(n, operator),
{
    match n {
        Some(x) => Ok(LiteralValue::Number(x)),
        None => Err(RuntimeError::NumberOutOfRange { operator }),
    }
}

fn apply_numeric(operator: TokenType, x: Number, y: Number) -> (r: Result<
    LiteralValue,
    RuntimeError,
>)
    ensures
        outcome_view(r) == numeric(operator, x, y),
{
    match operator {
        TokenType::Plus => number_or(x.plus(y), operator),
        TokenType::Minus => number_or(x.minus(y), operator),
        TokenType::Star => number_or(x.times(y), operator),
        TokenType::Slash => {
            if y.micros == 0 {
                Err(RuntimeError::DivisionByZero)
            } else {
                number_or(x.over(y), operator)
            }
        },
        TokenType::Greater => Ok(LiteralValue::from_bool(x.micros > y.micros)),
        TokenType::GreaterEqual => Ok(LiteralValue::from_bool(x.micros >= y.micros)),
        TokenType::Less => Ok(LiteralValue::from_bool(x.micros < y.micros)),
        TokenType::LessEqual => Ok(LiteralValue::from_bool(x.micros <= y.micros)),
        TokenType::BangEqual => Ok(LiteralValue::from_bool(x.micros != y.micros)),
        TokenType::EqualEqual => Ok(LiteralValue::from_bool(x.micros == y.micros)),
        _ => Err(
            RuntimeError::InvalidOperands { operator, left: Kind::Number, right: Kind::Number },
        ),
    }
}

fn apply_textual(operator: TokenType, x: &String, y: &String) -> (r: Result<
    LiteralValue,
    RuntimeError,
>)
    ensures
        outcome_view(r) == textual(operator, x@, y@),
{
    match operator {
        TokenType::Plus => {
            let mut joined = x.clone();
            joined.append(y.as_str());
            Ok(LiteralValue::StringValue(joined))
        },
        TokenType::Greater => Ok(LiteralValue::from_bool(str_less(y.as_str(), x.as_str()))),
        TokenType::GreaterEqual => Ok(LiteralValue::from_bool(!str_less(x.as_str(), y.as_str()))),
        TokenType::Less => Ok(LiteralValue::from_bool(str_less(x.as_str(), y.as_str()))),
        TokenType::LessEqual => Ok(LiteralValue::from_bool(!str_less(y.as_str(), x.as_str()))),
        TokenType::BangEqual => Ok(LiteralValue::from_bool(!(*x == *y))),
        TokenType::EqualEqual => Ok(LiteralValue::from_bool(*x == *y)),
        _ => Err(
            RuntimeError::InvalidOperands { operator, left: Kind::String, right: Kind::String },
        ),
    }
}

fn apply_general(a: &LiteralValue, operator: TokenType, b: &LiteralValue) -> (r: Result<
    LiteralValue,
    RuntimeError,
>)
    ensures
        outcome_view(r) == match operator {
            TokenType::BangEqual => Ok::<ValueModel, RuntimeError>(
                ValueModel::of_bool(!values_equal(a@, b@)),
            ),
            TokenType::EqualEqual => Ok(ValueModel::of_bool(values_equal(a@, b@))),
            _ => Err(
                RuntimeError::InvalidOperands { operator, left: a@.kind(), right: b@.kind() },
            ),
        },
{
    match operator {
        TokenType::BangEqual => Ok(LiteralValue::from_bool(!a.equals(b))),
        TokenType::EqualEqual => Ok(LiteralValue::from_bool(a.equals(b))),
        _ => Err(RuntimeError::InvalidOperands { operator, left: a.kind(), right: b.kind() }),
    }
}

/// Applies a binary operator to two values.
pub fn apply_binary(a: &LiteralValue, operator: TokenType, b: &LiteralValue) -> (r: Result<
    LiteralValue,
    RuntimeError,
>)
    ensures
        outcome_view(r) == binary(a@, operator, b@),
        r matches Ok(v) ==> v@.is_plain(),
{
    match a {
        LiteralValue::Number(x) => match b {
            LiteralValue::Number(y) => apply_numeric(operator, *x, *y),
            LiteralValue::StringValue(_) => Err(RuntimeError::StringAndNumber { operator }),
            _ => apply_general(a, operator, b),
        },
        LiteralValue::StringValue(x) => match b {
            LiteralValue::StringValue(y) => apply_textual(operator, x, y),
            LiteralValue::Number(_) => Err(RuntimeError::StringAndNumber { operator }),
            _ => apply_general(a, operator, b),
        },
        _ => apply_general(a, operator, b),
    }
}

/// Applies a unary operator to a value.
pub fn apply_unary(operator: TokenType, v: &LiteralValue) -> (r: Result<LiteralValue, RuntimeError>)
    ensures
        outcome_view(r) == unary(operator, v@),
        r matches Ok(x) ==> x@.is_plain(),
{
    match operator {
        TokenType::Minus => match v {
            LiteralValue::Number(x) => number_or(x.negated(), operator),
            _ => Err(RuntimeError::InvalidUnaryOperand { operator, operand: v.kind() }),
        },
        TokenType::Bang => Ok(v.is_falsy()),
        _ => Err(RuntimeError::InvalidUnaryOperator { operator }),
    }
}

} // verus!

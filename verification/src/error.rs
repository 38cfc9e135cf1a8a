//! The error taxonomy of the engine. Any failure aborts the whole
//! evaluation and is surfaced verbatim to the caller.

use vstd::prelude::*;

verus! {

/// Everything that can go wrong while tokenizing, converting or evaluating
/// an expression.
///
/// - `CalculationError`: the postfix evaluation ended with zero or more than
///   one residual value on the stack, or a result (an overflowing value, a
///   fractional exponent) cannot be represented as an exact rational.
/// - `ZeroDivision`: the divisor of `/` or `%` is exactly zero, or a zero
///   base is raised to a negative power.
/// - `BadExpression`: a malformed numeric literal, an operator in an invalid
///   arity position, or an empty operand stack mid-evaluation.
/// - `BadParenthesis`: an unmatched `)` during conversion, or an unmatched
///   `(` left over after conversion completes.
/// - `IncorrectNumberOfArgs`: a unary-only operator (`!`) applied to two
///   operands, or a binary-only operator applied to one.
/// - `UnsupportedValue(c)`: the tokenizer met the unrecognized character `c`.
#[derive(Debug, Clone, Copy, PartialEq, Eq)]
pub enum CalcError {
    CalculationError,
    ZeroDivision,
    BadExpression,
    BadParenthesis,
    IncorrectNumberOfArgs,
    UnsupportedValue(char),
}

impl CalcError {
    /// A human-readable description of the error kind; the character that an
    /// `UnsupportedValue` carries is reported separately by callers.
    pub fn message(&self) -> (r: &'static str)
        ensures
            r@ == spec_message(*self),
    {
        proof {
            reveal_strlit("Could not finish the calculation properly");
            reveal_strlit("Cannot divide by 0");
            reveal_strlit("Could not read the expression");
            reveal_strlit("Bad parenthesis");
            reveal_strlit("Incorrect number of arguments for this operator");
            reveal_strlit("A character was not recognized");
        }
        match self {
            CalcError::CalculationError => "Could not finish the calculation properly",
            CalcError::ZeroDivision => "Cannot divide by 0",
            CalcError::BadExpression => "Could not read the expression",
            CalcError::BadParenthesis => "Bad parenthesis",
            CalcError::IncorrectNumberOfArgs => "Incorrect number of arguments for this operator",
            CalcError::UnsupportedValue(_) => "A character was not recognized",
        }
    }
}

/// The character sequence that `CalcError::message` returns for each kind.
pub open spec fn spec_message(e: CalcError) -> Seq<char> {
    match e {
        CalcError::CalculationError => "Could not finish the calculation properly"@,
        CalcError::ZeroDivision => "Cannot divide by 0"@,
        CalcError::BadExpression => "Could not read the expression"@,
        CalcError::BadParenthesis => "Bad parenthesis"@,
        CalcError::IncorrectNumberOfArgs => "Incorrect number of arguments for this operator"@,
        CalcError::UnsupportedValue(_) => "A character was not recognized"@,
    }
}

} // verus!

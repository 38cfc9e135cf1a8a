//! An arithmetic-expression engine: it tokenizes a textual infix expression
//! (numbers, parentheses, the operators `+ - * / % ^ !`), reorders the token
//! stream into postfix (Reverse Polish) order with the shunting-yard
//! algorithm, and evaluates the postfix stream on a value stack.
//!
//! Numbers are held exactly, as rationals with a positive denominator, so
//! every stage carries a full functional specification. A result that does
//! not fit the rational range is reported as `CalcError::CalculationError`.

pub mod error;
pub mod rational;
pub mod token;
pub mod tokenizer;
pub mod converter;
pub mod evaluator;
pub mod expression;
pub mod calculator;
pub mod render;

use rpn_calc::error::CalcError;
use rpn_calc::expression::Expression;
use rpn_calc::rational::Rat;
use rpn_calc::token::Op;
use rpn_calc::token::Token;

#[test]
fn tokenizing_a_decimal_sum_yields_three_tokens() {
    let mut e = Expression::new();
    assert_eq!(e.set("12.5+3"), Ok(()));
    assert_eq!(
        e.get(),
        vec![
            Token::Number(Rat { num: 25, den: 2 }),
            Token::Operator(Op::Plus),
            Token::Number(Rat { num: 3, den: 1 }),
        ]
    );
}

#[test]
fn token_new_reads_numbers_and_symbols() {
    assert_eq!(Token::new("12.5"), Ok(Token::Number(Rat { num: 25, den: 2 })));
    assert_eq!(Token::new("007"), Ok(Token::Number(Rat { num: 7, den: 1 })));
    assert_eq!(Token::new("("), Ok(Token::LeftParen));
    assert_eq!(Token::new(")"), Ok(Token::RightParen));
    assert_eq!(Token::new("%"), Ok(Token::Operator(Op::Modulo)));
}

#[test]
fn token_new_rejects_foreign_text() {
    assert_eq!(Token::new("x"), Err(CalcError::UnsupportedValue('x')));
    assert_eq!(Token::new(""), Err(CalcError::BadExpression));
    assert_eq!(Token::new("1+2"), Err(CalcError::BadExpression));
}

#[test]
fn operator_weights_rank_precedence() {
    assert_eq!(Op::Plus.weight(), 1);
    assert_eq!(Op::Minus.weight(), 1);
    assert_eq!(Op::Multiply.weight(), 2);
    assert_eq!(Op::Divide.weight(), 2);
    assert_eq!(Op::Modulo.weight(), 2);
    assert_eq!(Op::Power.weight(), 3);
    assert_eq!(Op::Factorial.weight(), 3);
}

#[test]
fn operator_arities() {
    assert!(Op::Plus.is_unary() && Op::Plus.is_binary());
    assert!(Op::Minus.is_unary() && Op::Minus.is_binary());
    assert!(Op::Factorial.is_unary() && !Op::Factorial.is_binary());
    assert!(!Op::Multiply.is_unary() && Op::Multiply.is_binary());
    assert!(!Op::Divide.is_unary() && Op::Divide.is_binary());
    assert!(!Op::Power.is_unary() && Op::Power.is_binary());
    assert!(!Op::Modulo.is_unary() && Op::Modulo.is_binary());
}

#[test]
fn operator_symbols() {
    assert_eq!(Op::Plus.as_str(), "+");
    assert_eq!(Op::Minus.as_str(), "-");
    assert_eq!(Op::Factorial.as_str(), "!");
    assert_eq!(Op::Multiply.as_str(), "*");
    assert_eq!(Op::Divide.as_str(), "/");
    assert_eq!(Op::Power.as_str(), "^");
    assert_eq!(Op::Modulo.as_str(), "%");
}

#[test]
fn binary_only_operator_rejects_one_operand() {
    let five = Rat { num: 5, den: 1 };
    assert_eq!(Op::Multiply.call_single(five), Err(CalcError::IncorrectNumberOfArgs));
    assert_eq!(Op::Power.call_single(five), Err(CalcError::IncorrectNumberOfArgs));
}

#[test]
fn unary_only_operator_rejects_two_operands() {
    let a = Rat { num: 5, den: 1 };
    let b = Rat { num: 2, den: 1 };
    assert_eq!(Op::Factorial.call_double(a, b), Err(CalcError::IncorrectNumberOfArgs));
}

#[test]
fn operator_calls_compute() {
    let a = Rat { num: 5, den: 1 };
    let b = Rat { num: 2, den: 1 };
    assert_eq!(Op::Minus.call_single(a), Ok(Rat { num: -5, den: 1 }));
    assert_eq!(Op::Plus.call_single(a), Ok(a));
    assert_eq!(Op::Minus.call_double(a, b), Ok(Rat { num: 3, den: 1 }));
    assert_eq!(Op::Divide.call_double(a, b), Ok(Rat { num: 5, den: 2 }));
    assert_eq!(Op::Divide.call_double(a, Rat { num: 0, den: 1 }), Err(CalcError::ZeroDivision));
    assert_eq!(Op::Power.call_double(b, a), Ok(Rat { num: 32, den: 1 }));
}

#[test]
fn rationals_normalize_on_construction() {
    assert_eq!(Rat::new(50, 4), Some(Rat { num: 25, den: 2 }));
    assert_eq!(Rat::new(3, -6), Some(Rat { num: -1, den: 2 }));
    assert_eq!(Rat::new(0, 5), Some(Rat { num: 0, den: 1 }));
    assert_eq!(Rat::new(7, 0), None);
    assert_eq!(Rat::from_int(-9), Rat { num: -9, den: 1 });
}

#[test]
fn rational_arithmetic_normalizes_results() {
    let half = Rat { num: 1, den: 2 };
    let third = Rat { num: 1, den: 3 };
    assert_eq!(half.checked_add(third), Some(Rat { num: 5, den: 6 }));
    assert_eq!(half.checked_sub(third), Some(Rat { num: 1, den: 6 }));
    assert_eq!(half.checked_mul(third), Some(Rat { num: 1, den: 6 }));
    assert_eq!(half.checked_div(third), Some(Rat { num: 3, den: 2 }));
    let big = Rat { num: 9223372036854775807, den: 1 };
    assert_eq!(big.checked_add(Rat { num: 1, den: 1 }), None);
    assert_eq!(big.checked_mul(Rat { num: 0, den: 3 }), Some(Rat { num: 0, den: 1 }));
}

#[test]
fn rationals_render_with_their_denominator() {
    assert_eq!(Rat { num: 25, den: 2 }.to_str(), "25/2");
    assert_eq!(Rat { num: -3, den: 1 }.to_str(), "-3");
    assert_eq!(Rat { num: 0, den: 1 }.to_str(), "0");
    assert_eq!(Rat { num: 1234567890, den: 1 }.to_str(), "1234567890");
}

#[test]
fn expressions_render_with_spaces() {
    let mut e = Expression::new();
    assert_eq!(e.to_str(), "");
    assert_eq!(e.set("12.5+3"), Ok(()));
    assert_eq!(e.to_str(), "25/2 + 3");
    assert_eq!(e.dijkstrify(), Ok(()));
    assert_eq!(e.to_str(), "25/2 3 +");
}

#[test]
fn expression_editing() {
    let mut e = Expression::new();
    assert!(e.empty());
    assert_eq!(e.push("1+"), Ok(()));
    assert_eq!(e.push("2"), Ok(()));
    assert!(!e.empty());
    assert_eq!(e.get().len(), 3);
    assert_eq!(e.push("&"), Err(CalcError::UnsupportedValue('&')));
    assert_eq!(e.get().len(), 3);
    e.clear();
    assert!(e.empty());
    assert_eq!(e.set("#"), Err(CalcError::UnsupportedValue('#')));
    assert!(e.empty());
}

#[test]
fn error_messages_describe_each_kind() {
    assert_eq!(
        CalcError::CalculationError.message(),
        "Could not finish the calculation properly"
    );
    assert_eq!(CalcError::ZeroDivision.message(), "Cannot divide by 0");
    assert_eq!(CalcError::BadExpression.message(), "Could not read the expression");
    assert_eq!(CalcError::BadParenthesis.message(), "Bad parenthesis");
    assert_eq!(
        CalcError::IncorrectNumberOfArgs.message(),
        "Incorrect number of arguments for this operator"
    );
    assert_eq!(
        CalcError::UnsupportedValue('q').message(),
        "A character was not recognized"
    );
}

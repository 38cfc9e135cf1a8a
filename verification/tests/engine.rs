use rpn_calc::calculator::Calc;
use rpn_calc::error::CalcError;
use rpn_calc::expression::Expression;
use rpn_calc::rational::Rat;
use rpn_calc::token::Token;

fn eval(text: &str) -> Result<Rat, CalcError> {
    let mut c = Calc::new();
    c.evaluate(text)
}

#[test]
fn precedence_multiplication_binds_tighter() {
    assert_eq!(eval("3+4*2"), Ok(Rat { num: 11, den: 1 }));
}

#[test]
fn precedence_parentheses_group_first() {
    assert_eq!(eval("(3+4)*2"), Ok(Rat { num: 14, den: 1 }));
}

#[test]
fn power_groups_left_to_right() {
    assert_eq!(eval("2^3^2"), Ok(Rat { num: 64, den: 1 }));
}

#[test]
fn division_by_zero_is_reported() {
    assert_eq!(eval("10/0"), Err(CalcError::ZeroDivision));
}

#[test]
fn modulo_by_zero_is_reported() {
    assert_eq!(eval("10%0"), Err(CalcError::ZeroDivision));
}

#[test]
fn division_is_exact() {
    assert_eq!(eval("10/4"), Ok(Rat { num: 5, den: 2 }));
}

#[test]
fn factorial_of_five() {
    assert_eq!(eval("5!"), Ok(Rat { num: 120, den: 1 }));
}

#[test]
fn factorial_of_zero() {
    assert_eq!(eval("0!"), Ok(Rat { num: 1, den: 1 }));
}

#[test]
fn factorial_of_negative_truncates_to_one() {
    assert_eq!(eval("(-3)!"), Ok(Rat { num: 1, den: 1 }));
}

#[test]
fn factorial_of_twenty_still_fits() {
    assert_eq!(eval("20!"), Ok(Rat { num: 2432902008176640000, den: 1 }));
}

#[test]
fn factorial_of_twenty_one_overflows() {
    assert_eq!(eval("21!"), Err(CalcError::CalculationError));
}

#[test]
fn unmatched_open_parenthesis() {
    assert_eq!(eval("(1+2"), Err(CalcError::BadParenthesis));
}

#[test]
fn unmatched_close_parenthesis() {
    assert_eq!(eval("1+2)"), Err(CalcError::BadParenthesis));
}

#[test]
fn unsupported_character_is_named() {
    assert_eq!(eval("3+x"), Err(CalcError::UnsupportedValue('x')));
}

#[test]
fn empty_input_leaves_no_result() {
    assert_eq!(eval(""), Err(CalcError::CalculationError));
}

#[test]
fn whitespace_is_stripped() {
    assert_eq!(eval(" 3 + 4 "), eval("3+4"));
    assert_eq!(eval("3+4"), Ok(Rat { num: 7, den: 1 }));
}

#[test]
fn evaluation_is_idempotent() {
    let mut c = Calc::new();
    let first = c.evaluate("12.5+3*2^2");
    let second = c.evaluate("12.5+3*2^2");
    assert_eq!(first, second);
    assert_eq!(first, Ok(Rat { num: 49, den: 2 }));
}

#[test]
fn failed_evaluation_keeps_last_result() {
    let mut c = Calc::new();
    assert_eq!(c.result(), None);
    assert_eq!(c.evaluate("3+4"), Ok(Rat { num: 7, den: 1 }));
    assert_eq!(c.result(), Some(Rat { num: 7, den: 1 }));
    assert_eq!(c.evaluate("10/0"), Err(CalcError::ZeroDivision));
    assert_eq!(c.result(), Some(Rat { num: 7, den: 1 }));
    assert_eq!(c.evaluate("1+2)"), Err(CalcError::BadParenthesis));
    assert_eq!(c.result(), Some(Rat { num: 7, den: 1 }));
}

#[test]
fn leading_minus_negates() {
    assert_eq!(eval("-3+5"), Ok(Rat { num: 2, den: 1 }));
}

#[test]
fn leading_plus_is_identity() {
    assert_eq!(eval("+5"), Ok(Rat { num: 5, den: 1 }));
}

#[test]
fn negative_exponent_gives_reciprocal() {
    assert_eq!(eval("2^(0-2)"), Ok(Rat { num: 1, den: 4 }));
}

#[test]
fn zero_to_the_zero_is_one() {
    assert_eq!(eval("0^0"), Ok(Rat { num: 1, den: 1 }));
}

#[test]
fn zero_to_a_negative_power_is_zero_division() {
    assert_eq!(eval("0^(0-2)"), Err(CalcError::ZeroDivision));
}

#[test]
fn fractional_exponent_is_rejected() {
    assert_eq!(eval("2^0.5"), Err(CalcError::CalculationError));
}

#[test]
fn modulo_follows_the_dividend_sign() {
    assert_eq!(eval("7%3"), Ok(Rat { num: 1, den: 1 }));
    assert_eq!(eval("7.5%2"), Ok(Rat { num: 3, den: 2 }));
    assert_eq!(eval("(0-7)%3"), Ok(Rat { num: -1, den: 1 }));
}

#[test]
fn decimal_arithmetic_is_exact() {
    assert_eq!(eval("12.5+3"), Ok(Rat { num: 31, den: 2 }));
    assert_eq!(eval("0.1+0.2"), Ok(Rat { num: 3, den: 10 }));
}

#[test]
fn addition_overflow_is_a_calculation_error() {
    assert_eq!(eval("9223372036854775807+1"), Err(CalcError::CalculationError));
}

#[test]
fn oversized_literal_is_a_bad_expression() {
    assert_eq!(eval("9223372036854775808"), Err(CalcError::BadExpression));
}

#[test]
fn malformed_literals_are_bad_expressions() {
    assert_eq!(eval("1..2"), Err(CalcError::BadExpression));
    assert_eq!(eval("."), Err(CalcError::BadExpression));
}

#[test]
fn binary_operator_without_operands() {
    assert_eq!(eval("5*"), Err(CalcError::BadExpression));
    assert_eq!(eval("*"), Err(CalcError::BadExpression));
}

#[test]
fn residual_values_are_a_calculation_error() {
    assert_eq!(eval("(5)(5)"), Err(CalcError::CalculationError));
}

#[test]
fn unit_bases_take_any_exponent() {
    assert_eq!(eval("1^9223372036854775807"), Ok(Rat { num: 1, den: 1 }));
    assert_eq!(eval("(0-1)^9223372036854775807"), Ok(Rat { num: -1, den: 1 }));
    assert_eq!(eval("(0-1)^9223372036854775806"), Ok(Rat { num: 1, den: 1 }));
}

#[test]
fn whitespace_inside_a_literal_joins_its_digits() {
    assert_eq!(eval("1 2+3"), Ok(Rat { num: 15, den: 1 }));
}

#[test]
fn conversion_drops_exactly_the_parentheses() {
    let mut e = Expression::new();
    assert_eq!(e.set("(3+4)*2"), Ok(()));
    let infix: Vec<Token> = e.get();
    assert_eq!(infix.len(), 7);
    let parens: usize = infix
        .iter()
        .filter(|t| matches!(t, Token::LeftParen | Token::RightParen))
        .count();
    assert_eq!(parens, 2);
    assert_eq!(e.dijkstrify(), Ok(()));
    let postfix: Vec<Token> = e.get();
    assert_eq!(postfix.len(), infix.len() - parens);
    assert!(postfix
        .iter()
        .all(|t| !matches!(t, Token::LeftParen | Token::RightParen)));
}

use eqgraph::ast::CalcError;
use eqgraph::calculator::calculate_eq;
use eqgraph::eval::evaluate_eq;
use eqgraph::parser::build_eq;

fn calc(s: &str, n: usize) -> Result<Vec<i32>, CalcError> {
    calculate_eq(&String::from(s), n)
}

#[test]
fn single_constant_repeats() {
    assert_eq!(calc("7", 4), Ok(vec![7, 7, 7, 7]));
}

#[test]
fn multi_digit_constant() {
    assert_eq!(calc("42", 3), Ok(vec![42, 42, 42]));
}

#[test]
fn largest_constant() {
    assert_eq!(calc("2147483647", 1), Ok(vec![2147483647]));
}

#[test]
fn constant_too_large_overflows() {
    assert_eq!(calc("2147483648", 1), Err(CalcError::Overflow));
}

#[test]
fn identity_equation() {
    assert_eq!(calc("x", 5), Ok(vec![0, 1, 2, 3, 4]));
}

#[test]
fn multiplication_binds_tighter_than_addition() {
    assert_eq!(calc("2+3*4", 1), Ok(vec![14]));
}

#[test]
fn longer_precedence_chain() {
    assert_eq!(calc("2+3*4+5", 1), Ok(vec![19]));
}

#[test]
fn multiplication_then_addition() {
    assert_eq!(calc("2*3+4", 1), Ok(vec![10]));
}

#[test]
fn exponent_before_addition() {
    assert_eq!(calc("1+2^3", 1), Ok(vec![9]));
}

#[test]
fn exponent_groups_to_the_right() {
    assert_eq!(calc("2^3^2", 1), Ok(vec![512]));
}

#[test]
fn subtraction_is_left_associative() {
    assert_eq!(calc("10-2-3", 1), Ok(vec![5]));
}

#[test]
fn group_overrides_precedence() {
    assert_eq!(calc("(1+2)*3", 1), Ok(vec![9]));
}

#[test]
fn nested_groups() {
    assert_eq!(calc("((2))", 1), Ok(vec![2]));
}

#[test]
fn unterminated_group_is_closed_silently() {
    assert_eq!(calc("(1+2", 1), Ok(vec![3]));
}

#[test]
fn implicit_multiplication() {
    assert_eq!(calc("2x", 3), Ok(vec![0, 2, 4]));
}

#[test]
fn implicit_multiplication_behind_whitespace() {
    assert_eq!(calc(" 2x", 3), Ok(vec![0, 2, 4]));
}

#[test]
fn no_implicit_multiplication_across_a_space() {
    assert_eq!(calc("2 x", 1), Err(CalcError::MalformedExpression));
}

#[test]
fn no_implicit_multiplication_before_a_group() {
    assert_eq!(calc("x(x+1)", 1), Err(CalcError::MalformedExpression));
}

#[test]
fn division_truncates() {
    assert_eq!(calc("7/2", 1), Ok(vec![3]));
}

#[test]
fn division_truncates_toward_zero() {
    assert_eq!(calc("(0-7)/2", 1), Ok(vec![-3]));
}

#[test]
fn whitespace_between_tokens() {
    assert_eq!(calc("2 + 3", 1), Ok(vec![5]));
}

#[test]
fn same_equation_evaluates_identically_twice() {
    let eq = build_eq(&String::from("2x+1")).unwrap();
    let first = evaluate_eq(&eq, 21);
    let second = evaluate_eq(&eq, 21);
    assert_eq!(first, Ok(43));
    assert_eq!(first, second);
}

#[test]
fn dangling_operator_fails() {
    assert_eq!(calc("2+", 1), Err(CalcError::MalformedExpression));
    assert_eq!(calc("2+", 5), Err(CalcError::MalformedExpression));
}

#[test]
fn dangling_operator_with_no_samples_returns_empty() {
    assert_eq!(calc("2+", 0), Ok(vec![]));
}

#[test]
fn zero_samples_yield_empty_sequence() {
    assert_eq!(calc("x", 0), Ok(vec![]));
}

#[test]
fn unexpected_character() {
    assert_eq!(calc("2+%", 1), Err(CalcError::UnexpectedCharacter));
}

#[test]
fn whitespace_only_input_runs_out() {
    assert_eq!(calc(" ", 1), Err(CalcError::UnexpectedEndOfInput));
}

#[test]
fn empty_input_is_malformed() {
    assert_eq!(calc("", 1), Err(CalcError::MalformedExpression));
}

#[test]
fn unknown_variable_fails() {
    assert_eq!(calc("y", 1), Err(CalcError::UnimplementedVariable));
}

#[test]
fn division_by_zero_fails() {
    assert_eq!(calc("1/0", 1), Err(CalcError::DivisionByZero));
}

#[test]
fn negative_exponent_fails() {
    assert_eq!(calc("2^(0-1)", 1), Err(CalcError::NegativeExponent));
}

#[test]
fn addition_overflow_fails() {
    assert_eq!(calc("2000000000+2000000000", 1), Err(CalcError::Overflow));
}

#[test]
fn exponent_overflow_fails() {
    assert_eq!(calc("2^31", 1), Err(CalcError::Overflow));
    assert_eq!(calc("2^30", 1), Ok(vec![1073741824]));
}

#[test]
fn zero_to_the_zero_is_one() {
    assert_eq!(calc("0^0", 1), Ok(vec![1]));
}

#[test]
fn division_overflow_at_the_lower_bound() {
    // (0-2147483647-1) is the smallest i32; negating it by division overflows
    assert_eq!(calc("(0-2147483647-1)/(0-1)", 1), Err(CalcError::Overflow));
    assert_eq!(calc("(0-2147483647-1)/1", 1), Ok(vec![-2147483648]));
}

#[test]
fn multiplication_overflow_fails() {
    assert_eq!(calc("65536*65536", 1), Err(CalcError::Overflow));
}

#[test]
fn subtraction_overflow_fails() {
    assert_eq!(calc("(0-2147483647)-2", 1), Err(CalcError::Overflow));
}

#[test]
fn sampled_polynomial() {
    assert_eq!(calc("x*x+1", 4), Ok(vec![1, 2, 5, 10]));
}

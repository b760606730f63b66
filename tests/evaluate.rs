use lsbasi::{ErrorKind, Interpreter};

fn value_of(text: &str) -> i64 {
    Interpreter::evaluate(text).unwrap().unwrap()
}

fn error_of(text: &str) -> ErrorKind {
    Interpreter::evaluate(text).unwrap_err().kind()
}

#[test]
fn eval() {
    assert_eq!(value_of("1+2\n"), 3);
}

#[test]
fn eval_0() {
    assert_eq!(value_of(" 1+2\n"), 3);
}

#[test]
fn eval_1() {
    assert_eq!(value_of("1 +2\n"), 3);
}

#[test]
fn eval_2() {
    assert_eq!(value_of("1+ 2\n"), 3);
}

#[test]
fn eval_3() {
    assert_eq!(value_of("1+2 \n"), 3);
}

#[test]
fn eval_4() {
    assert_eq!(value_of(" 1 +2\n"), 3);
}

#[test]
fn eval_5() {
    assert_eq!(value_of(" 1+ 2\n"), 3);
}

#[test]
fn eval_6() {
    assert_eq!(value_of(" 1+2 \n"), 3);
}

#[test]
fn eval_7() {
    assert_eq!(value_of("12+2\n"), 14);
}

#[test]
fn eval_8() {
    assert_eq!(value_of("1-2\n"), -1);
}

#[test]
fn eval_9() {
    assert_eq!(value_of("1*2\n"), 2);
}

#[test]
fn eval_10() {
    assert_eq!(value_of("4/2\n"), 2);
}

#[test]
fn eval_11() {
    assert_eq!(value_of("4 /2 * 5 + 5 - 3"), 12);
}

#[test]
fn check_division_by_zero() {
    let result = Interpreter::evaluate("1/0");

    assert_eq!(result.is_err(), true);
}

#[test]
fn evaluate_empty_string() {
    let result = Interpreter::evaluate("");

    assert_eq!(result.is_ok(), true);
    assert_eq!(result.unwrap().is_none(), true);

    let result = Interpreter::evaluate("\n");

    assert_eq!(result.is_ok(), true);
    assert_eq!(result.unwrap().is_none(), true);
}

#[test]
fn starting_with_add() {
    assert_eq!(Interpreter::evaluate("+12").is_err(), true);
}

#[test]
fn starting_with_sub() {
    assert_eq!(Interpreter::evaluate("-12").is_err(), true);
}

#[test]
fn starting_with_mul() {
    assert_eq!(Interpreter::evaluate("*12").is_err(), true);
}

#[test]
fn starting_with_div() {
    assert_eq!(Interpreter::evaluate("/12").is_err(), true);
}

#[test]
fn check_non_ops_operator() {
    let result = Interpreter::evaluate("1 1 +");

    assert_eq!(result.is_err(), true);
}

#[test]
fn check_forgotten_second_operand() {
    let result = Interpreter::evaluate("1+");

    assert_eq!(result.is_err(), true);
}

#[test]
fn check_wrong_first_argument() {
    let result = Interpreter::evaluate(" +1");

    assert_eq!(result.is_err(), true);
}

#[test]
fn check_wrong_second_argument() {
    let result = Interpreter::evaluate("1++");

    assert_eq!(result.is_err(), true);
}

#[test]
fn left_to_right_without_precedence() {
    assert_eq!(value_of("4/2*5+5-3"), 12);
    assert_eq!(value_of("1+2*3\n"), 9);
    assert_eq!(value_of("10-2-3"), 5);
}

#[test]
fn division_truncates_toward_zero() {
    assert_eq!(value_of("7/2\n"), 3);
    assert_eq!(value_of("0-7/2\n"), -3);
    assert_eq!(value_of("0-8/3"), -2);
}

#[test]
fn only_spaces_is_no_result() {
    assert_eq!(Interpreter::evaluate("   ").unwrap(), None);
    assert_eq!(Interpreter::evaluate("  \n").unwrap(), None);
}

#[test]
fn evaluation_stops_at_line_end() {
    assert_eq!(value_of("2*3\n5"), 6);
    assert_eq!(value_of("2*3\n\n"), 6);
}

#[test]
fn text_after_line_end_is_not_read() {
    assert_eq!(value_of("1+2\nx"), 3);
    assert_eq!(value_of("1\na"), 1);
    assert_eq!(value_of("5*2\n\u{e9}"), 10);
    assert_eq!(Interpreter::evaluate("\n+*x").unwrap(), None);
    assert_eq!(error_of("1+a\n"), ErrorKind::InvalidCharacter);
}

#[test]
fn zero_divisor_anywhere_in_a_chain() {
    assert_eq!(error_of("1+2/0*3\n"), ErrorKind::DivisionByZero);
    assert_eq!(error_of("8 / 2 / 0"), ErrorKind::DivisionByZero);
}

#[test]
fn digit_run_alone_is_its_value() {
    assert_eq!(value_of("0123456789"), 123456789);
    assert_eq!(value_of("42\n"), 42);
}

#[test]
fn largest_operand() {
    assert_eq!(value_of("9223372036854775807"), i64::MAX);
    assert_eq!(value_of("0009223372036854775807\n"), i64::MAX);
}

#[test]
fn error_invalid_character() {
    assert_eq!(error_of("1+a"), ErrorKind::InvalidCharacter);
    assert_eq!(error_of("1\t+2"), ErrorKind::InvalidCharacter);
    assert_eq!(error_of("1+\u{e9}"), ErrorKind::InvalidCharacter);
}

#[test]
fn error_unexpected_operator() {
    assert_eq!(error_of("+12"), ErrorKind::UnexpectedOperator);
    assert_eq!(error_of(" /1\n"), ErrorKind::UnexpectedOperator);
}

#[test]
fn error_expected_operator() {
    assert_eq!(error_of("1 1 +"), ErrorKind::ExpectedOperator);
}

#[test]
fn error_expected_operand() {
    assert_eq!(error_of("1++"), ErrorKind::ExpectedOperand);
    assert_eq!(error_of("1+\n"), ErrorKind::ExpectedOperand);
}

#[test]
fn error_unexpected_end_of_input() {
    assert_eq!(error_of("1+"), ErrorKind::UnexpectedEndOfInput);
    assert_eq!(error_of("1 * "), ErrorKind::UnexpectedEndOfInput);
}

#[test]
fn error_division_by_zero() {
    assert_eq!(error_of("1/0"), ErrorKind::DivisionByZero);
    assert_eq!(error_of("5 / 00\n"), ErrorKind::DivisionByZero);
}

#[test]
fn error_integer_overflow() {
    assert_eq!(error_of("9223372036854775808"), ErrorKind::IntegerOverflow);
    assert_eq!(error_of("9223372036854775807+1"), ErrorKind::IntegerOverflow);
    assert_eq!(error_of("0-9223372036854775807-2"), ErrorKind::IntegerOverflow);
    assert_eq!(error_of("4611686018427387904*2"), ErrorKind::IntegerOverflow);
}

#[test]
fn error_messages() {
    let e = Interpreter::evaluate("1/0").unwrap_err();
    assert_eq!(e.message(), "Division by zero!");
    let e = Interpreter::evaluate("1+").unwrap_err();
    assert_eq!(e.message(), "Unexpected end of stream");
}

#[test]
fn same_line_twice_same_outcome() {
    for line in ["12+2\n", "1/0", "", "1 1 +", "4/2*5+5-3"] {
        assert_eq!(Interpreter::evaluate(line), Interpreter::evaluate(line));
    }
}

#[test]
fn spaces_do_not_change_the_result() {
    assert_eq!(value_of(" 1 + 2 \n"), 3);
    assert_eq!(value_of("  4/ 2 *5+ 5 -3  "), 12);
    assert_eq!(Interpreter::evaluate("1 2"), Interpreter::evaluate("1 1 +"));
}

use lispy::ast::{Expression, Operator};
use lispy::eval::EvalError;
use lispy::parser::{parse, parse_bytes, parse_expression, ParseError, MAX_NESTING};
use lispy::{run, Error};

fn num(n: usize) -> Expression {
    Expression::Number(n)
}

fn op(o: Operator, args: Vec<Expression>) -> Expression {
    Expression::Expr(o, args)
}

#[test]
fn operator_parser_test() {
    assert_eq!(Operator::from_str("+").unwrap(), Operator::Add);
    assert_eq!(Operator::from_str("*").unwrap(), Operator::Mul);
    assert_eq!(Operator::from_str("-").unwrap(), Operator::Sub);
    assert_eq!(Operator::from_str("/").unwrap(), Operator::Div);
}

#[test]
fn number_parser_test() {
    assert_eq!(parse_expression("  1").unwrap(), Expression::Number(1));
    assert_eq!(parse_expression(" 10   ").unwrap(), Expression::Number(10));
}

#[test]
fn expression_parser_test() {
    assert_eq!(parse_expression(" 1").unwrap(), Expression::Number(1));
    assert_eq!(
        parse("+ 1 2 3").unwrap(),
        Expression::Expr(
            Operator::Add,
            vec![Expression::Number(1), Expression::Number(2), Expression::Number(3)]
        )
    );
    assert_eq!(
        parse("+ * (- (7 1) 2 3) 2 / (3 3)").unwrap(),
        Expression::Expr(
            Operator::Add,
            vec![
                Expression::Expr(
                    Operator::Mul,
                    vec![
                        Expression::Expr(
                            Operator::Sub,
                            vec![Expression::Number(7), Expression::Number(1)]
                        ),
                        Expression::Number(2),
                        Expression::Number(3)
                    ]
                ),
                Expression::Number(2),
                Expression::Expr(
                    Operator::Div,
                    vec![Expression::Number(3), Expression::Number(3)]
                )
            ]
        )
    );
    assert_eq!(39, parse("+ * (- (7 1) 2 3) 2 / (9 3 3)").unwrap().eval().unwrap());
}

#[test]
fn numeral_alone_is_rejected() {
    assert_eq!(parse("5"), Err(ParseError::UnknownOperator));
    assert_eq!(parse("  1234 "), Err(ParseError::UnknownOperator));
}

#[test]
fn sum_of_three() {
    assert_eq!(parse("+ 1 2 3").unwrap().eval(), Ok(6));
}

#[test]
fn product_of_three() {
    assert_eq!(parse("* 2 3 4").unwrap().eval(), Ok(24));
}

#[test]
fn difference_folds_from_first() {
    assert_eq!(parse("- 10 2 3").unwrap().eval(), Ok(5));
}

#[test]
fn quotient_folds_from_first() {
    assert_eq!(parse("/ 20 2 5").unwrap().eval(), Ok(2));
}

#[test]
fn nested_example() {
    assert_eq!(run("+ * (- (7 1) 2 3) 2 / (9 3)"), Ok(41));
}

#[test]
fn nested_example_without_parentheses_is_rejected() {
    assert_eq!(
        parse("+ * (- 7 1) 2 3 2 / 9 3"),
        Err(ParseError::UnbalancedParenthesis)
    );
}

#[test]
fn empty_group_is_rejected() {
    assert_eq!(parse("+ ()"), Err(ParseError::EmptyOperandList));
    assert_eq!(parse("+ * ( ) 1"), Err(ParseError::EmptyOperandList));
}

#[test]
fn unclosed_group_is_rejected() {
    assert_eq!(parse("+ (1 2"), Err(ParseError::UnbalancedParenthesis));
    assert_eq!(parse("+ * (1 2"), Err(ParseError::UnbalancedParenthesis));
}

#[test]
fn operator_needs_space_after_it() {
    assert_eq!(parse("+1 2"), Err(ParseError::UnknownOperator));
    assert_eq!(parse("+ *(1 2)"), Err(ParseError::UnknownOperator));
}

#[test]
fn division_by_zero_fails() {
    assert_eq!(parse("/ 5 0").unwrap().eval(), Err(EvalError::DivisionByZero));
    assert_eq!(run("/ 5 0"), Err(Error::Eval(EvalError::DivisionByZero)));
}

#[test]
fn negative_difference_fails() {
    assert_eq!(parse("- 1 5").unwrap().eval(), Err(EvalError::ArithmeticUnderflow));
    assert_eq!(run("- 1 5"), Err(Error::Eval(EvalError::ArithmeticUnderflow)));
}

#[test]
fn overflow_fails() {
    let sum = format!("+ {} 1", usize::MAX);
    assert_eq!(run(&sum), Err(Error::Eval(EvalError::ArithmeticOverflow)));
    let product = format!("* {} 2", usize::MAX / 2 + 1);
    assert_eq!(run(&product), Err(Error::Eval(EvalError::ArithmeticOverflow)));
    let largest = format!("+ {}", usize::MAX);
    assert_eq!(run(&largest), Ok(usize::MAX));
}

#[test]
fn numeral_too_large_is_malformed() {
    let s = format!("+ {}0", usize::MAX);
    assert_eq!(parse(&s), Err(ParseError::MalformedNumber));
}

#[test]
fn numeral_followed_by_letter_is_malformed() {
    assert_eq!(parse("+ 12a"), Err(ParseError::MalformedNumber));
    assert_eq!(parse("+ 1 2(3)"), Err(ParseError::MalformedNumber));
}

#[test]
fn unknown_operator_is_rejected() {
    assert_eq!(parse("% 1 2"), Err(ParseError::UnknownOperator));
    assert_eq!(parse("+ % (1 2)"), Err(ParseError::UnknownOperator));
    assert_eq!(parse(""), Err(ParseError::UnknownOperator));
    assert_eq!(parse("   "), Err(ParseError::UnknownOperator));
}

#[test]
fn group_without_operator_is_rejected() {
    assert_eq!(parse("+ (1 2)"), Err(ParseError::UnknownOperator));
}

#[test]
fn missing_operands_are_rejected() {
    assert_eq!(parse("+"), Err(ParseError::EmptyOperandList));
    assert_eq!(parse("+   "), Err(ParseError::EmptyOperandList));
}

#[test]
fn stray_close_is_rejected() {
    assert_eq!(parse("+ 1 )"), Err(ParseError::UnbalancedParenthesis));
    assert_eq!(parse("+ 1)"), Err(ParseError::UnbalancedParenthesis));
    assert_eq!(parse("+ )"), Err(ParseError::UnbalancedParenthesis));
}

#[test]
fn nested_form_needs_parentheses() {
    assert_eq!(parse("+ * 1 2"), Err(ParseError::UnbalancedParenthesis));
}

#[test]
fn input_after_program_is_rejected() {
    assert_eq!(parse("+ - (1)2"), Err(ParseError::TrailingInput));
    assert_eq!(parse_expression("1 2"), Err(ParseError::TrailingInput));
}

#[test]
fn spaces_may_repeat() {
    let e = parse("  +\t1 \n 2\r\n").unwrap();
    assert_eq!(e, op(Operator::Add, vec![num(1), num(2)]));
    assert_eq!(e.eval(), Ok(3));
    assert_eq!(run("+ * (  2   3  ) 1"), Ok(7));
}

#[test]
fn single_operand_forms() {
    assert_eq!(run("+ 4"), Ok(4));
    assert_eq!(run("* 4"), Ok(4));
    assert_eq!(run("- 5"), Ok(5));
    assert_eq!(run("/ 7"), Ok(7));
}

#[test]
fn nesting_limit() {
    let deep = |n: usize| {
        let mut s = String::from("+ ");
        for _ in 0..n {
            s.push_str("+ (");
        }
        s.push('1');
        for _ in 0..n {
            s.push(')');
        }
        s
    };
    assert_eq!(run(&deep(MAX_NESTING)), Ok(1));
    assert_eq!(parse(&deep(MAX_NESTING + 1)), Err(ParseError::NestingTooDeep));
}

#[test]
fn first_failure_wins() {
    assert_eq!(run("+ (/ 1 0) (- 0 1)").is_err(), true);
    assert_eq!(run("+ / (1 0) - (0 1)"), Err(Error::Eval(EvalError::DivisionByZero)));
    assert_eq!(run("+ - (0 1) / (1 0)"), Err(Error::Eval(EvalError::ArithmeticUnderflow)));
}

#[test]
fn constructors() {
    assert_eq!(Expression::from_usize(3), Ok(num(3)));
    assert_eq!(Expression::from_tuple((Operator::Add, vec![])), Err(()));
    assert_eq!(
        Expression::from_tuple((Operator::Mul, vec![num(1)])),
        Ok(op(Operator::Mul, vec![num(1)]))
    );
    assert_eq!(Operator::from_char('/'), Ok(Operator::Div));
    assert_eq!(Operator::from_char('x'), Err(()));
    assert_eq!(Operator::from_str("++"), Err(()));
    assert_eq!(Operator::from_str(""), Err(()));
}

#[test]
fn bytes_that_are_not_text_are_rejected() {
    assert_eq!(parse_bytes(&[0xff, 0x20, 0x31]), Err(ParseError::UnknownOperator));
    assert_eq!(parse_bytes(b"+ 1 2").unwrap().eval(), Ok(3));
}

#[test]
fn difference_underflows_part_way() {
    assert_eq!(run("- 5 2 4"), Err(Error::Eval(EvalError::ArithmeticUnderflow)));
    assert_eq!(run("- 9 2 4 3"), Ok(0));
}

#[test]
fn later_zero_divisor_fails() {
    assert_eq!(run("/ 8 2 0 4"), Err(Error::Eval(EvalError::DivisionByZero)));
    assert_eq!(run("/ 0 5"), Ok(0));
}

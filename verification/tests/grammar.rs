//! Parse-level checks: tree shapes, precedence, associativity, and failures.

use asalang::ast::Expr;
use asalang::ast::MathOp;
use asalang::ast::ParseError;
use asalang::parse;
use asalang::parser::boolean;
use asalang::parser::expression;
use asalang::parser::identifier;
use asalang::parser::math_expression;
use asalang::parser::number;
use asalang::parser::program;
use asalang::parser::string;
use asalang::parser::value;

#[test]
fn explicit_grouping_changes_nothing_multiplication() {
    let a = parse(b"fn main(){return 1+2*3;}").unwrap();
    let b = parse(b"fn main(){return 1+(2*3);}").unwrap();
    assert_eq!(a, b);
}

#[test]
fn explicit_grouping_changes_nothing_exponent() {
    let a = parse(b"fn main(){return 2^1^2;}").unwrap();
    let b = parse(b"fn main(){return 2^(1^2);}").unwrap();
    assert_eq!(a, b);
}

#[test]
fn explicit_grouping_changes_nothing_subtraction() {
    let a = parse(b"fn main(){return 10-3-4;}").unwrap();
    let b = parse(b"fn main(){return (10-3)-4;}").unwrap();
    assert_eq!(a, b);
}

#[test]
fn grouping_against_associativity_differs() {
    let a = parse(b"fn main(){return 10-3-4;}").unwrap();
    let b = parse(b"fn main(){return 10-(3-4);}").unwrap();
    assert_ne!(a, b);
}

#[test]
fn if_without_else_fails_to_parse() {
    let r = parse(b"fn main(){let x = if true{return 1;}; return x;}");
    assert!(r.is_err());
}

#[test]
fn if_with_else_if_but_no_else_fails_to_parse() {
    let r = parse(b"fn main(){let x = if true{return 1;} else if false{return 2;}; return x;}");
    assert!(r.is_err());
}

#[test]
fn number_stops_at_first_nondigit() {
    let r = number(b"123abc", 0);
    assert_eq!(r, Ok((Expr::Number { value: 123 }, 3)));
}

#[test]
fn number_rejects_value_beyond_i32() {
    assert_eq!(number(b"2147483647", 0), Ok((Expr::Number { value: 2147483647 }, 10)));
    assert_eq!(number(b"2147483648", 0), Err(ParseError { pos: 0 }));
}

#[test]
fn overlarge_digit_run_parses_as_identifier() {
    // the digits are alphanumeric, so the identifier alternative takes them
    let r = expression(b"2147483648", 0);
    assert_eq!(r, Ok((Expr::Identifier { name: b"2147483648".to_vec() }, 10)));
}

#[test]
fn boolean_consumes_only_the_keyword() {
    assert_eq!(boolean(b"truex", 0), Ok((Expr::Boolean { value: true }, 4)));
    assert_eq!(boolean(b"false", 0), Ok((Expr::Boolean { value: false }, 5)));
    assert_eq!(boolean(b"tru", 0), Err(ParseError { pos: 0 }));
}

#[test]
fn identifier_takes_alphanumerics() {
    assert_eq!(
        identifier(b"abc123 rest", 0),
        Ok((Expr::Identifier { name: b"abc123".to_vec() }, 6)),
    );
    assert_eq!(identifier(b" x", 0), Err(ParseError { pos: 0 }));
}

#[test]
fn string_requires_content_and_closing_quote() {
    assert_eq!(
        string(b"\"hi there\"", 0),
        Ok((Expr::StringLiteral { value: b"hi there".to_vec() }, 10)),
    );
    assert_eq!(string(b"\"\"", 0), Err(ParseError { pos: 1 }));
    assert_eq!(string(b"\"abc", 0), Err(ParseError { pos: 4 }));
}

#[test]
fn expression_prefers_boolean_over_identifier() {
    let r = expression(b"true", 0);
    assert_eq!(r, Ok((Expr::Boolean { value: true }, 4)));
}

#[test]
fn precedence_tree_shape() {
    let (e, _) = expression(b"1+2*3", 0).unwrap();
    let expected = Expr::Math {
        op: MathOp::Add,
        lhs: Box::new(Expr::Number { value: 1 }),
        rhs: Box::new(Expr::Math {
            op: MathOp::Mul,
            lhs: Box::new(Expr::Number { value: 2 }),
            rhs: Box::new(Expr::Number { value: 3 }),
        }),
    };
    assert_eq!(e, expected);
}

#[test]
fn exponent_tree_right_associates() {
    let (e, _) = expression(b"2^3^4", 0).unwrap();
    let expected = Expr::Math {
        op: MathOp::Exp,
        lhs: Box::new(Expr::Number { value: 2 }),
        rhs: Box::new(Expr::Math {
            op: MathOp::Exp,
            lhs: Box::new(Expr::Number { value: 3 }),
            rhs: Box::new(Expr::Number { value: 4 }),
        }),
    };
    assert_eq!(e, expected);
}

#[test]
fn value_takes_literals_and_identifiers() {
    assert_eq!(value(b"  true", 0), Ok((Expr::Boolean { value: true }, 6)));
    assert_eq!(value(b"42", 0), Ok((Expr::Number { value: 42 }, 2)));
    assert_eq!(value(b"x", 0), Ok((Expr::Identifier { name: b"x".to_vec() }, 1)));
}

#[test]
fn math_expression_skips_leading_whitespace() {
    let (e, p) = math_expression(b"  2+3", 0).unwrap();
    assert_eq!(p, 5);
    assert_eq!(
        e,
        Expr::Math {
            op: MathOp::Add,
            lhs: Box::new(Expr::Number { value: 2 }),
            rhs: Box::new(Expr::Number { value: 3 }),
        },
    );
}

#[test]
fn trailing_input_is_left_unconsumed() {
    let r = program(b"fn main(){return 1;} trailing", 0).unwrap();
    assert_eq!(r.1, 21);
}

#[test]
fn missing_semicolon_fails() {
    assert!(parse(b"fn main(){return 1}").is_err());
}

#[test]
fn empty_body_fails() {
    assert!(parse(b"fn main(){}").is_err());
}

#[test]
fn empty_input_fails() {
    assert!(parse(b"").is_err());
}

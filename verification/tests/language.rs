//! End-to-end runs: source text through the parser and the interpreter.

use asalang::ast::Expr;
use asalang::ast::Item;
use asalang::ast::ItemList;
use asalang::ast::Node;
use asalang::ast::RunError;
use asalang::ast::Value;
use asalang::parse;
use asalang::start_interpreter;
use asalang::Runtime;

fn run_source(src: &str) -> Result<Value, RunError> {
    let node = parse(src.as_bytes()).expect("source should parse");
    start_interpreter(&node)
}

#[test]
fn precedence_and_comparison_chain() {
    // 5 - 4*2 = -3; 4/2 + 5 = 7; -3 > 7 is false; false != true is true
    let r = run_source(
        "fn main(){let x=5; let y=4; let z=2; let result = x - y*z > y/z + x != true; return result;}",
    );
    assert_eq!(r, Ok(Value::Bool(true)));
}

#[test]
fn parameters_and_parenthesised_comparison() {
    let r = run_source("fn foo(a,b,c){let x=(a+b)>3==false; return x;} fn main(){return foo(1,2,3);}");
    assert_eq!(r, Ok(Value::Bool(true)));
}

#[test]
fn nested_parenthesised_comparisons() {
    // (16 >= 16) is true; (10 <= 9) is false; true != false
    let r = run_source("fn main(){ return (4^2 >= 2*8) != (100/10 <= 15-2*3); }");
    assert_eq!(r, Ok(Value::Bool(true)));
}

#[test]
fn if_chain_takes_else_branch() {
    let r = run_source(
        "fn main(){let x = if false{return 4;} else if false{return 7;} else {return 6;}; return x;}",
    );
    assert_eq!(r, Ok(Value::Number(6)));
}

#[test]
fn undefined_function_is_reported() {
    let r = run_source("fn main(){return foo();}");
    assert_eq!(r, Err(RunError::UndefinedFunction));
}

#[test]
fn undefined_variable_is_reported() {
    let r = run_source("fn main(){return x;}");
    assert_eq!(r, Err(RunError::UndefinedVariable));
}

#[test]
fn addition_binds_looser_than_multiplication() {
    let r = run_source("fn main(){return 1+2*3;}");
    assert_eq!(r, Ok(Value::Number(7)));
}

#[test]
fn exponent_right_associates_in_evaluation() {
    // 2^(1^2) = 2, not (2^1)^2 = 4
    let r = run_source("fn main(){return 2^1^2;}");
    assert_eq!(r, Ok(Value::Number(2)));
}

#[test]
fn subtraction_left_associates_in_evaluation() {
    // (10-3)-4 = 3, not 10-(3-4) = 11
    let r = run_source("fn main(){return 10-3-4;}");
    assert_eq!(r, Ok(Value::Number(3)));
}

#[test]
fn division_left_associates_in_evaluation() {
    // (100/10)/5 = 2, not 100/(10/5) = 50
    let r = run_source("fn main(){return 100/10/5;}");
    assert_eq!(r, Ok(Value::Number(2)));
}

#[test]
fn exponent_binds_tighter_than_multiplication() {
    // 2*3^2 = 2*9 = 18
    let r = run_source("fn main(){return 2*3^2;}");
    assert_eq!(r, Ok(Value::Number(18)));
}

#[test]
fn early_return_ignores_later_statements() {
    let r = run_source("fn main(){return 1; return 2;}");
    assert_eq!(r, Ok(Value::Number(1)));
}

#[test]
fn body_without_return_yields_false() {
    let r = run_source("fn main(){let x=1;}");
    assert_eq!(r, Ok(Value::Bool(false)));
}

#[test]
fn callee_binding_is_invisible_to_caller() {
    let r = run_source("fn foo(){let a=1; return a;} fn main(){let a=5; let b=foo(); return a;}");
    assert_eq!(r, Ok(Value::Number(5)));
}

#[test]
fn caller_binding_is_invisible_to_callee() {
    let r = run_source("fn foo(){return x;} fn main(){let x=1; return foo();}");
    assert_eq!(r, Err(RunError::UndefinedVariable));
}

#[test]
fn branch_binding_survives_in_same_frame() {
    let r = run_source("fn main(){let x = if true{let z=9;} else {let z=8;}; return z;}");
    assert_eq!(r, Ok(Value::Number(9)));
}

#[test]
fn else_if_branch_is_taken_in_order() {
    let r = run_source(
        "fn main(){return if false{return 1;} else if true{return 2;} else {return 3;};}",
    );
    assert_eq!(r, Ok(Value::Number(2)));
}

#[test]
fn later_let_overwrites_earlier() {
    let r = run_source("fn main(){let x=1; let x=2; return x;}");
    assert_eq!(r, Ok(Value::Number(2)));
}

#[test]
fn division_truncates_toward_zero() {
    let r = run_source("fn main(){return (0-7)/2;}");
    assert_eq!(r, Ok(Value::Number(-3)));
}

#[test]
fn exponentiation_of_small_numbers() {
    assert_eq!(run_source("fn main(){return 4^2;}"), Ok(Value::Number(16)));
    assert_eq!(run_source("fn main(){return 7^0;}"), Ok(Value::Number(1)));
    assert_eq!(run_source("fn main(){return 0^0;}"), Ok(Value::Number(1)));
}

#[test]
fn division_by_zero_is_reported() {
    let r = run_source("fn main(){return 1/0;}");
    assert_eq!(r, Err(RunError::DivisionByZero));
}

#[test]
fn negative_exponent_is_reported() {
    let r = run_source("fn main(){return 2^(0-3);}");
    assert_eq!(r, Err(RunError::NegativeExponent));
}

#[test]
fn addition_overflow_is_reported() {
    let r = run_source("fn main(){return 2147483647+1;}");
    assert_eq!(r, Err(RunError::NumberOverflow));
}

#[test]
fn exponent_overflow_is_reported() {
    let r = run_source("fn main(){return 2^40;}");
    assert_eq!(r, Err(RunError::NumberOverflow));
}

#[test]
fn mismatched_operand_variants_are_reported() {
    let r = run_source("fn main(){return 1 == true;}");
    assert_eq!(r, Err(RunError::TypeMismatch));
}

#[test]
fn wrong_argument_count_is_reported() {
    let r = run_source("fn foo(a){return a;} fn main(){return foo();}");
    assert_eq!(r, Err(RunError::ArityMismatch));
}

#[test]
fn unbounded_recursion_exhausts_fuel() {
    let node = parse(b"fn main(){return main();}").expect("source should parse");
    let mut rt = Runtime::new();
    rt.load(&node);
    assert_eq!(rt.run_with_fuel(100), Err(RunError::RecursionLimit));
}

#[test]
fn run_without_main_is_undefined_function() {
    let mut rt = Runtime::new();
    let empty = Node::Program { items: ItemList::Nil };
    rt.load(&empty);
    assert_eq!(rt.run(), Err(RunError::UndefinedFunction));
}

#[test]
fn bare_expression_item_becomes_main() {
    let cmp = Expr::Comparison {
        op: asalang::ast::CmpOp::Eq,
        lhs: Box::new(Expr::StringLiteral { value: b"ab".to_vec() }),
        rhs: Box::new(Expr::StringLiteral { value: b"ab".to_vec() }),
    };
    let node = Node::Program {
        items: ItemList::Cons(Item::Expression(cmp), Box::new(ItemList::Nil)),
    };
    assert_eq!(start_interpreter(&node), Ok(Value::Bool(true)));
}

#[test]
fn string_values_of_different_contents_differ() {
    let cmp = Expr::Comparison {
        op: asalang::ast::CmpOp::Neq,
        lhs: Box::new(Expr::StringLiteral { value: b"ab".to_vec() }),
        rhs: Box::new(Expr::StringLiteral { value: b"ac".to_vec() }),
    };
    let node = Node::Program {
        items: ItemList::Cons(Item::Expression(cmp), Box::new(ItemList::Nil)),
    };
    assert_eq!(start_interpreter(&node), Ok(Value::Bool(true)));
}

#[test]
fn call_arguments_are_evaluated_in_caller_frame() {
    let r = run_source("fn add1(a){return a+1;} fn main(){let v=41; return add1(v);}");
    assert_eq!(r, Ok(Value::Number(42)));
}

#[test]
fn nested_calls_compose() {
    let r = run_source(
        "fn double(a){return a*2;} fn quad(a){return double(double(a));} fn main(){return quad(5);}",
    );
    assert_eq!(r, Ok(Value::Number(20)));
}

#[test]
fn string_literal_returns_as_value() {
    let r = run_source("fn main(){let s = \"hello world\"; return s;}");
    assert_eq!(r, Ok(Value::Str(b"hello world".to_vec())));
}

#[test]
fn newlines_are_whitespace() {
    let r = run_source("fn main(){\n  let x = 2;\n  return x + 3;\n}\n");
    assert_eq!(r, Ok(Value::Number(5)));
}

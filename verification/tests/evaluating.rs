use sexpr_eval::ast::Ast;
use sexpr_eval::ast::AstSpanner;
use sexpr_eval::interpreter::EvalError;
use sexpr_eval::interpreter::Interpreter;
use sexpr_eval::interpreter::parse_atom_value;
use sexpr_eval::tokens::Token;
use sexpr_eval::tokens::tokenize;

fn evaluate(text: &str) -> Result<i32, EvalError> {
    let asts = tokenize(text).to_ast().ok().unwrap();
    asts.first().unwrap().interpret()
}

fn atom(text: &str) -> Ast {
    Ast::Atom(Token::Atom(String::from(text)))
}

#[test]
fn simple_ast_is_interpreted_correctly() {
    let tokens = tokenize("(+ 1 1)");
    let asts = tokens.to_ast().ok().unwrap();
    let result = asts.first().unwrap().interpret();
    assert_eq!(result, Ok(2))
}

#[test]
fn nested_expression_is_interpreted_correctly() {
    assert_eq!(evaluate("(+ 1 (- 5 2))"), Ok(4));
}

#[test]
fn subtraction_takes_every_later_operand_from_the_first() {
    assert_eq!(evaluate("(- 10 1 2 3)"), Ok(4));
}

#[test]
fn addition_of_nothing_is_zero() {
    assert_eq!(evaluate("(+)"), Ok(0));
}

#[test]
fn subtraction_of_one_operand_is_that_operand() {
    assert_eq!(evaluate("(- 7)"), Ok(7));
}

#[test]
fn an_unrecognized_operator_is_invalid() {
    let ast = Ast::Group(vec![atom("*"), atom("1"), atom("1")]);
    assert_eq!(ast.interpret(), Err(EvalError::InvalidOperator));
    assert_eq!(evaluate("(* 1 1)"), Err(EvalError::InvalidOperator));
}

#[test]
fn an_empty_group_has_no_operator() {
    assert_eq!(evaluate("()"), Err(EvalError::InvalidOperator));
}

#[test]
fn a_group_in_operator_position_is_invalid() {
    let ast = Ast::Group(vec![Ast::Group(Vec::new()), atom("1")]);
    assert_eq!(ast.interpret(), Err(EvalError::InvalidOperator));
}

#[test]
fn subtraction_without_operands_is_missing_one() {
    assert_eq!(evaluate("(-)"), Err(EvalError::MissingOperand));
}

#[test]
fn a_non_numeric_operand_is_not_a_number() {
    assert_eq!(evaluate("(+ 1 x)"), Err(EvalError::NotANumber));
}

#[test]
fn a_sum_leaving_the_range_overflows() {
    let ast = Ast::Group(vec![atom("+"), atom("2147483647"), atom("1")]);
    assert_eq!(ast.interpret(), Err(EvalError::ArithmeticOverflow));
    assert_eq!(
        evaluate("(+ 2147483647 1)"),
        Err(EvalError::ArithmeticOverflow)
    );
}

#[test]
fn a_difference_leaving_the_range_overflows() {
    let ast = Ast::Group(vec![atom("-"), atom("-2147483648"), atom("1")]);
    assert_eq!(ast.interpret(), Err(EvalError::ArithmeticOverflow));
}

#[test]
fn a_leaf_is_its_own_value() {
    assert_eq!(atom("42").interpret(), Ok(42));
    assert_eq!(atom("-13").interpret(), Ok(-13));
    assert_eq!(atom("+9").interpret(), Ok(9));
    assert_eq!(atom("abc").interpret(), Err(EvalError::NotANumber));
}

#[test]
fn evaluating_twice_yields_the_same_integer() {
    let first = evaluate("(+ 1 (- 5 2))");
    let second = evaluate("(+ 1 (- 5 2))");
    assert_eq!(first, second);
    assert_eq!(first, Ok(4));
}

#[test]
fn atom_text_parses_exactly_the_i32_range() {
    assert_eq!(parse_atom_value("0"), Some(0));
    assert_eq!(parse_atom_value("12"), Some(12));
    assert_eq!(parse_atom_value("+7"), Some(7));
    assert_eq!(parse_atom_value("-0"), Some(0));
    assert_eq!(parse_atom_value("2147483647"), Some(2147483647));
    assert_eq!(parse_atom_value("2147483648"), None);
    assert_eq!(parse_atom_value("-2147483648"), Some(-2147483648));
    assert_eq!(parse_atom_value("-2147483649"), None);
    assert_eq!(parse_atom_value("99999999999999999999999"), None);
    assert_eq!(parse_atom_value(""), None);
    assert_eq!(parse_atom_value("-"), None);
    assert_eq!(parse_atom_value("+"), None);
    assert_eq!(parse_atom_value("1a"), None);
    assert_eq!(parse_atom_value(" 1"), None);
    assert_eq!(parse_atom_value("--1"), None);
}

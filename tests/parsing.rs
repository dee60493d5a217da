use binder::common::{Error, Span};
use binder::lexer::{Lexer, Token};
use binder::parser::{BinaryOp, Expression, ParseError, Parser, TopLevel, TypeExpr, UnaryOp};

fn parser(source: &str) -> Parser {
    Parser::new(Lexer::new(source).collect().unwrap())
}

#[test]
fn products_bind_tighter_than_sums() {
    let e = parser("1 + 2 * 3").parse_expr().unwrap();
    let Expression::Binary { op, left, right } = &e.data else { panic!() };
    assert_eq!(*op, BinaryOp::Addition);
    assert!(matches!(&left.data, Expression::NaturalNumber(n) if n == "1"));
    let Expression::Binary { op: inner, .. } = &right.data else { panic!() };
    assert_eq!(*inner, BinaryOp::Multiplication);
    assert_eq!(e.span, Span { start: 0, end: 9 });
}

#[test]
fn subtraction_chains_to_the_left() {
    let e = parser("a - b - c").parse_expr().unwrap();
    let Expression::Binary { op, left, right } = &e.data else { panic!() };
    assert_eq!(*op, BinaryOp::Subtraction);
    assert!(matches!(&right.data, Expression::Identifier(n) if n == "c"));
    assert!(matches!(&left.data, Expression::Binary { op: BinaryOp::Subtraction, .. }));
}

#[test]
fn comparison_does_not_chain() {
    let err = parser("a < b < c").parse_expr().unwrap_err();
    assert!(matches!(err.data, ParseError::UnconsumedTokenOrTokens(Token::Less)));
    assert_eq!(err.span, Span { start: 6, end: 7 });
}

#[test]
fn let_calls_and_unary_operators() {
    let e = parser("let x: Nat = -1 in f(x, !true)").parse_expr().unwrap();
    let Expression::Let { name, type_annot, value, expr } = &e.data else { panic!() };
    assert_eq!(name.data, "x");
    assert!(matches!(&type_annot.as_ref().unwrap().data, TypeExpr::Identifier(t) if t == "Nat"));
    assert!(matches!(&value.data, Expression::Unary { op: UnaryOp::Negation, .. }));
    let Expression::FunctionCall { f, args } = &expr.data else { panic!() };
    assert!(matches!(&f.data, Expression::Identifier(n) if n == "f"));
    assert_eq!(args.len(), 2);
    assert!(matches!(&args[1].data, Expression::Unary { op: UnaryOp::Not, .. }));
}

#[test]
fn lists_units_and_control_flow() {
    let e = parser("if [1, 2] (()) x else while x break").parse_expr().unwrap();
    let Expression::If { condition, true_expr, false_expr } = &e.data else { panic!() };
    let Expression::FunctionCall { f, args } = &condition.data else { panic!() };
    assert!(matches!(&f.data, Expression::List(items) if items.len() == 2));
    assert!(matches!(args[0].data, Expression::UnitValue));
    assert!(matches!(&true_expr.data, Expression::Identifier(n) if n == "x"));
    assert!(matches!(&false_expr.as_ref().unwrap().data, Expression::While { .. }));
}

#[test]
fn top_level_definitions() {
    let defs = parser("let x = 1 fun f(a: Nat, b: [Real]) -> fun(Nat) -> Bool = a").parse_top_level().unwrap();
    assert_eq!(defs.len(), 2);
    assert!(matches!(&defs[0].data, TopLevel::Let { name, .. } if name.data == "x"));
    let TopLevel::Fun { name, args, return_type, .. } = &defs[1].data else { panic!() };
    assert_eq!(name.data, "f");
    assert_eq!(args.len(), 2);
    assert!(matches!(&args[1].1.data, TypeExpr::List(_)));
    assert!(matches!(&return_type.as_ref().unwrap().data, TypeExpr::Function { arg_types, .. } if arg_types.len() == 1));
}

#[test]
fn invalid_top_level_element() {
    let err = parser("x").parse_top_level().unwrap_err();
    assert!(matches!(err.data, ParseError::InvalidTopLevelElement(Token::Identifier(_))));
    assert_eq!(
        err.data.message(),
        "Only `let` and `fun` definitions are allowed for top-level, invalid token: `Identifier`"
    );
}

#[test]
fn unclosed_parenthesis() {
    let err = parser("(1 + 2").parse_expr().unwrap_err();
    assert!(matches!(err.data, ParseError::ExpectedADifferentToken { found: Token::End, expected: Token::RParen }));
    assert_eq!(err.data.message(), "Unclosed parentheses");
}

#[test]
fn missing_token_messages() {
    let err = parser("let = 1 in 2").parse_expr().unwrap_err();
    assert!(matches!(err.data, ParseError::ExpectedAnIdentifier(Token::Equal)));
    assert_eq!(err.data.message(), "Expected an `Identifier`, instead found `=`");
    let err = parser("let x 1 in 2").parse_expr().unwrap_err();
    assert_eq!(err.data.message(), "Expected a `=`, instead found `Natural Literal`");
    let err = parser(")").parse_expr().unwrap_err();
    assert_eq!(err.data.message(), "No expression starts with this token: `)`");
    let err = parser("let x: 1 = 1 in 2").parse_expr().unwrap_err();
    assert_eq!(err.data.message(), "No type expression starts with this token: `Natural Literal`");
}

#[test]
fn sequence_and_assignment() {
    let e = parser("x = 1; y = 2").parse_expr().unwrap();
    let Expression::Binary { op, left, right } = &e.data else { panic!() };
    assert_eq!(*op, BinaryOp::Sequence);
    assert!(matches!(&left.data, Expression::Binary { op: BinaryOp::Assignment, .. }));
    assert!(matches!(&right.data, Expression::Binary { op: BinaryOp::Assignment, .. }));
}

#[test]
fn parentheses_widen_the_operand_span() {
    let e = parser("-(1)").parse_expr().unwrap();
    let Expression::Unary { op, operand } = &e.data else { panic!() };
    assert_eq!(*op, UnaryOp::Negation);
    assert!(matches!(&operand.data, Expression::NaturalNumber(n) if n == "1"));
    assert_eq!(operand.span, Span { start: 1, end: 4 });
    assert_eq!(e.span, Span { start: 0, end: 4 });
}

#[test]
fn top_level_spans() {
    let defs = parser("let x = 1 fun main() -> Nat = x").parse_top_level().unwrap();
    assert_eq!(defs[0].span, Span { start: 0, end: 13 });
    let TopLevel::Let { name, type_annot, value } = &defs[0].data else { panic!() };
    assert_eq!(name.span, Span { start: 4, end: 5 });
    assert!(type_annot.is_none());
    assert_eq!(value.span, Span { start: 8, end: 9 });
    assert_eq!(defs[1].span, Span { start: 10, end: 32 });
    let TopLevel::Fun { name, return_type, expr, .. } = &defs[1].data else { panic!() };
    assert_eq!(name.span, Span { start: 14, end: 18 });
    assert_eq!(return_type.as_ref().unwrap().span, Span { start: 24, end: 27 });
    assert_eq!(expr.span, Span { start: 30, end: 31 });
}

use binder::common::Error;
use binder::lexer::Lexer;
use binder::parser::Parser;
use binder::typechecker::{Type, TypeCheckError, TypeCheker};

fn check(source: &str) -> Result<Type, TypeCheckError> {
    let ast = Parser::new(Lexer::new(source).collect().unwrap()).parse_expr().unwrap();
    TypeCheker::new().verify_type(&ast).map_err(|e| e.data)
}

fn check_program(source: &str) -> Result<Type, TypeCheckError> {
    let defs = Parser::new(Lexer::new(source).collect().unwrap()).parse_top_level().unwrap();
    TypeCheker::new().verify_top_level(&defs).map_err(|e| e.data)
}

fn text(r: Result<Type, TypeCheckError>) -> String {
    r.unwrap().text()
}

#[test]
fn arithmetic_widens_to_the_larger_type() {
    assert_eq!(text(check("let x = 1 in x + 2")), "Natural");
    assert_eq!(text(check("1 - 2")), "Integer");
    assert_eq!(text(check("1 / 2")), "Real");
    assert_eq!(text(check("1 * 2.5")), "Real");
    assert_eq!(text(check("-1")), "Integer");
    assert_eq!(text(check("-1.5")), "Real");
    assert_eq!(text(check("!true and false")), "Bool");
    assert_eq!(text(check("1 < 2")), "Bool");
}

#[test]
fn branches_and_lists() {
    assert_eq!(text(check("if true 1 else 2.5")), "Real");
    assert_eq!(text(check("if true 1")), "()");
    assert_eq!(text(check("[1, 2]")), "[Natural]");
    assert_eq!(text(check("[]")), "[*]");
    assert!(matches!(check("[1.5, true]"), Err(TypeCheckError::MismatchedType { .. })));
    assert!(matches!(check("if 1 2"), Err(TypeCheckError::MismatchedType { .. })));
    assert!(matches!(check("if true 1 else false"), Err(TypeCheckError::DifferentTypedBranches { .. })));
}

#[test]
fn functions_and_calls() {
    assert_eq!(text(check("fun f(a: Nat) -> Int = a in f(1)")), "Integer");
    assert_eq!(text(check("fun f(a: Nat, g: fun(Nat) -> Bool) -> Bool = g(a) in f")), "fun(Natural,fun(Natural,) -> Bool,) -> Bool");
    assert!(matches!(check("fun f(a: Nat) -> Bool = a in f(1)"), Err(TypeCheckError::UnexpectedReturnType { .. })));
    assert!(matches!(check("fun f(a: Nat) -> Nat = a in f(1, 2)"), Err(TypeCheckError::ArgumentNumberMismatch { found: 2, expected: 1 })));
    assert!(matches!(check("1(2)"), Err(TypeCheckError::UncallableType(Type::Natural))));
    assert!(matches!(check("fun f() -> Nat = return 1 in f()"), Ok(Type::Natural)));
}

#[test]
fn errors_and_messages() {
    let err = check("x").unwrap_err();
    assert!(matches!(err, TypeCheckError::UndefinedIdentifier(ref n) if n == "x"));
    assert_eq!(err.message(), "Identifier `x` was never defined.");
    let err = check("1 == true").unwrap_err();
    assert_eq!(err.message(), "Cannot determine the equality of different types: `Natural` == `Bool` ");
    let err = check("return 1").unwrap_err();
    assert!(matches!(err, TypeCheckError::ReturnOutsideOfAFunction));
    let err = check("let x: Text = 1 in x").unwrap_err();
    assert_eq!(err.message(), "A type named `Text` does not exist.");
    let err = check("-true").unwrap_err();
    assert_eq!(err.message(), "Expected an expression type one of `Natural`, `Integer`, or `Real` instead found `Bool`");
    let err = check("1 = 2").unwrap_err();
    assert!(matches!(err, TypeCheckError::InvalidAssignmentTarget));
    let err = check("let x = 1 in x = true").unwrap_err();
    assert_eq!(err.message(), "Expected an expression type of `Natural` instead found `Bool`");
    let err = check("fun f(a: Nat) -> Bool = a in f(1)").unwrap_err();
    assert_eq!(err.message(), "Function f expected to return `Bool` instead found `Natural`");
}

#[test]
fn programs_give_the_return_type_of_main() {
    assert_eq!(text(check_program("let x: Int = 1 fun main() -> Int = x")), "Integer");
    assert_eq!(text(check_program("fun main() -> Bool = helper(1) fun helper(n: Nat) -> Bool = n == 1")), "Bool");
    let err = check_program("fun helper() -> Nat = 1").unwrap_err();
    assert!(matches!(err, TypeCheckError::EntryPointNotProvided));
    assert_eq!(err.message(), "Entry point (main) for the program is not provided");
}

#[test]
fn subtyping_relation() {
    let nat = Type::Natural;
    let real = Type::Real;
    assert!(nat.is_subtype_of(&real));
    assert!(!real.is_subtype_of(&nat));
    assert!(Type::Undetermined.is_subtype_of(&Type::Bool));
    let f = Type::Function { arg_types: vec![Type::Natural], return_type: Box::new(Type::Integer) };
    let g = Type::Function { arg_types: vec![Type::Real], return_type: Box::new(Type::Real) };
    assert!(f.is_subtype_of(&g));
    assert!(!g.is_subtype_of(&f));
    assert!(matches!(Type::Integer.is_compatable_with(&Type::Natural), Some(Type::Integer)));
    assert!(Type::Bool.is_compatable_with(&Type::Natural).is_none());
    assert!(matches!(Type::Real.minimum_type(Type::Integer), Type::Real));
    assert!(matches!(Type::Natural.minimum_type(Type::Integer), Type::Integer));
}

#[test]
fn let_scope_ends_with_the_let() {
    let mut tc = TypeCheker::new();
    let e = Parser::new(Lexer::new("let x = 1.5 in x + 1").collect().unwrap()).parse_expr().unwrap();
    assert!(matches!(tc.verify_type(&e), Ok(Type::Real)));
    let x = Parser::new(Lexer::new("x").collect().unwrap()).parse_expr().unwrap();
    let err = tc.verify_type(&x).unwrap_err();
    assert!(matches!(err.data, TypeCheckError::UndefinedIdentifier(ref n) if n == "x"));
    assert_eq!((err.span.start, err.span.end), (0, 1));
}

#[test]
fn list_elements_must_fit_the_first() {
    let e = Parser::new(Lexer::new("[1, 2.5]").collect().unwrap()).parse_expr().unwrap();
    let err = TypeCheker::new().verify_type(&e).unwrap_err();
    assert!(matches!(err.data, TypeCheckError::MismatchedType { found: Type::Real, expected: Type::Natural }));
    assert_eq!((err.span.start, err.span.end), (4, 7));
}

#[test]
fn functions_are_visible_before_their_definition() {
    assert!(matches!(check_program("fun main() -> Nat = f() fun f() -> Nat = 1"), Ok(Type::Natural)));
    let defs = Parser::new(Lexer::new("let main = 1").collect().unwrap()).parse_top_level().unwrap();
    let err = TypeCheker::new().verify_top_level(&defs).unwrap_err();
    assert!(matches!(err.data, TypeCheckError::EntryPointNotProvided));
    assert_eq!((err.span.start, err.span.end), (0, 0));
}

#[test]
fn argument_counts_in_messages() {
    let err = check("fun f(a: Nat) -> Nat = a in f(1, 2, 3, 4, 5, 6, 7, 8, 9, 10, 11, 12)").unwrap_err();
    assert_eq!(err.message(), "Expected `1` number of arguments instead found `12` number of arguments");
    assert_eq!(binder::typechecker::number_text(1203), "1203");
    assert_eq!(binder::typechecker::number_text(0), "0");
}

use binder::common::{Environment, Error, Span};
use binder::lexer::{LexError, Lexer, Token};

fn tokens(source: &str) -> Vec<Token> {
    Lexer::new(source).collect().unwrap().into_iter().map(|t| t.data).collect()
}

#[test]
fn lexes_a_let_expression() {
    assert_eq!(
        tokens("let x = 1 in x"),
        vec![
            Token::Klet,
            Token::Identifier(String::from("x")),
            Token::Equal,
            Token::NaturalNumber(String::from("1")),
            Token::Kin,
            Token::Identifier(String::from("x")),
            Token::End,
        ]
    );
}

#[test]
fn lexes_two_character_operators_and_reals() {
    assert_eq!(
        tokens("a->b <= 2.50 != c_1"),
        vec![
            Token::Identifier(String::from("a")),
            Token::Arrow,
            Token::Identifier(String::from("b")),
            Token::LessEqual,
            Token::RealNumber(String::from("2.50")),
            Token::BangEqual,
            Token::Identifier(String::from("c_1")),
            Token::End,
        ]
    );
}

#[test]
fn spans_cover_the_lexemes() {
    let spanned = Lexer::new("  fun f").collect().unwrap();
    assert_eq!(spanned[0].span, Span { start: 2, end: 5 });
    assert_eq!(spanned[1].span, Span { start: 6, end: 7 });
    assert_eq!(spanned[2].span, Span { start: 7, end: 8 });
}

#[test]
fn number_followed_by_letter_is_an_error() {
    let err = Lexer::new("12ab").collect().unwrap_err();
    assert_eq!(err.data, LexError::InvalidNumericLiteral);
    assert_eq!(err.span, Span { start: 0, end: 3 });
    assert_eq!(err.data.message(), "Numeric Literal contains alphabetic character(s)");
}

#[test]
fn unknown_character_is_an_error() {
    let err = Lexer::new("x ? y").collect().unwrap_err();
    assert_eq!(err.data, LexError::UnknownStartOfAToken('?'));
    assert_eq!(err.span, Span { start: 2, end: 2 });
    assert_eq!(err.data.message(), "Encountered an unknown start of a token: `?`");
}

#[test]
fn empty_source_has_only_end() {
    assert_eq!(tokens(""), vec![Token::End]);
}

#[test]
fn environment_shadows_and_restores() {
    let mut env: Environment<u32> = Environment::new();
    let x = String::from("x");
    env.define_global(x.clone(), 1);
    env.define_local(x.clone(), 2);
    assert_eq!(env.resolve(&x), Some(&2));
    env.assign(&x, 3);
    assert_eq!(env.resolve(&x), Some(&3));
    assert_eq!(env.resolve_global(&x), Some(&1));
    assert_eq!(env.capture(), vec![(x.clone(), 3)]);
    env.shallow(5);
    assert_eq!(env.resolve(&x), Some(&1));
    env.assign(&x, 4);
    assert_eq!(env.resolve_global(&x), Some(&4));
    env.extend(vec![(String::from("y"), 7)]);
    assert_eq!(env.resolve(&String::from("y")), Some(&7));
    env.define_global(x.clone(), 9);
    assert_eq!(env.resolve(&x), Some(&9));
    assert_eq!(env.resolve(&String::from("z")), None);
}

#[test]
fn unicode_letters_form_identifiers() {
    assert_eq!(
        tokens("été_2 + ñ"),
        vec![
            Token::Identifier(String::from("été_2")),
            Token::Plus,
            Token::Identifier(String::from("ñ")),
            Token::End,
        ]
    );
}

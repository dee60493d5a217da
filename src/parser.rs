//! Parses tokens into expressions and top-level definitions.
use vstd::prelude::*;

use crate::common::{Error, HasSpan, Span, Spanned};
use crate::lexer::Token;

verus! {

#[derive(Debug, Clone, Copy, PartialEq, Eq, Structural)]
pub enum BinaryOp {
    Addition,
    Subtraction,
    Multiplication,
    Division,
    And,
    Or,
    Equal,
    NotEqual,
    Less,
    LessEqual,
    Greater,
    GreaterEqual,
    Sequence,
    Assignment,
}

#[derive(Debug, Clone, Copy, PartialEq, Eq, Structural)]
pub enum UnaryOp {
    Negation,
    Not,
}

#[derive(Debug)]
pub enum TypeExpr {
    Identifier(String),
    Function { arg_types: Vec<Spanned<TypeExpr>>, return_type: Option<Box<Spanned<TypeExpr>>> },
    List(Box<Spanned<TypeExpr>>),
    UnitValue,
}

impl HasSpan for TypeExpr {

}

#[derive(Debug)]
pub enum Expression {
    Identifier(String),
    NaturalNumber(String),
    RealNumber(String),
    BoolValue(bool),
    UnitValue,
    Binary { op: BinaryOp, left: Box<Spanned<Expression>>, right: Box<Spanned<Expression>> },
    Unary { op: UnaryOp, operand: Box<Spanned<Expression>> },
    Let {
        name: Spanned<String>,
        type_annot: Option<Spanned<TypeExpr>>,
        value: Box<Spanned<Expression>>,
        expr: Box<Spanned<Expression>>,
    },
    Fun {
        name: Spanned<String>,
        args: Vec<(Spanned<String>, Spanned<TypeExpr>)>,
        return_type: Option<Spanned<TypeExpr>>,
        expr: Box<Spanned<Expression>>,
        in_expr: Box<Spanned<Expression>>,
    },
    FunctionCall { f: Box<Spanned<Expression>>, args: Vec<Spanned<Expression>> },
    If {
        condition: Box<Spanned<Expression>>,
        true_expr: Box<Spanned<Expression>>,
        false_expr: Option<Box<Spanned<Expression>>>,
    },
    While { condition: Box<Spanned<Expression>>, expr: Box<Spanned<Expression>> },
    Return(Box<Spanned<Expression>>),
    Break,
    Continue,
    List(Vec<Spanned<Expression>>),
}

impl HasSpan for Expression {

}

#[derive(Debug)]
pub enum TopLevel {
    Let { name: Spanned<String>, type_annot: Option<Spanned<TypeExpr>>, value: Box<Spanned<Expression>> },
    Fun {
        name: Spanned<String>,
        args: Vec<(Spanned<String>, Spanned<TypeExpr>)>,
        return_type: Option<Spanned<TypeExpr>>,
        expr: Spanned<Expression>,
    },
}

impl HasSpan for TopLevel {

}

#[derive(Debug)]
pub enum ParseError {
    UnknownStartOfAnExpression(Token),
    ExpectedADifferentToken { found: Token, expected: Token },
    UnconsumedTokenOrTokens(Token),
    ExpectedAnIdentifier(Token),
    UnkownStartOfATypeExpression(Token),
    InvalidTopLevelElement(Token),
}

impl HasSpan for ParseError {

}

/// A copy of a token.
pub fn copy_token(t: &Token) -> (r: Token)
    ensures
        r@ == t@,
{
    match t {
        Token::NaturalNumber(s) => Token::NaturalNumber(s.clone()),
        Token::RealNumber(s) => Token::RealNumber(s.clone()),
        Token::Identifier(s) => Token::Identifier(s.clone()),
        Token::Plus => Token::Plus,
        Token::Minus => Token::Minus,
        Token::Star => Token::Star,
        Token::Slash => Token::Slash,
        Token::Bang => Token::Bang,
        Token::Equal => Token::Equal,
        Token::DoubleEqual => Token::DoubleEqual,
        Token::BangEqual => Token::BangEqual,
        Token::Less => Token::Less,
        Token::LessEqual => Token::LessEqual,
        Token::Greater => Token::Greater,
        Token::GreaterEqual => Token::GreaterEqual,
        Token::LParen => Token::LParen,
        Token::RParen => Token::RParen,
        Token::LSquare => Token::LSquare,
        Token::RSquare => Token::RSquare,
        Token::Colon => Token::Colon,
        Token::SemiColon => Token::SemiColon,
        Token::Comma => Token::Comma,
        Token::Arrow => Token::Arrow,
        Token::Klet => Token::Klet,
        Token::Kin => Token::Kin,
        Token::Kfun => Token::Kfun,
        Token::Kif => Token::Kif,
        Token::Kelse => Token::Kelse,
        Token::Kwhile => Token::Kwhile,
        Token::Kreturn => Token::Kreturn,
        Token::Kcontinue => Token::Kcontinue,
        Token::Kbreak => Token::Kbreak,
        Token::Ktrue => Token::Ktrue,
        Token::Kfalse => Token::Kfalse,
        Token::Kand => Token::Kand,
        Token::Kor => Token::Kor,
        Token::End => Token::End,
    }
}

/// Whether two tokens are the same, text included.
pub fn same_token(a: &Token, b: &Token) -> (r: bool)
    ensures
        r == (a@ == b@),
{
    match (a, b) {
        (Token::NaturalNumber(x), Token::NaturalNumber(y)) => *x == *y,
        (Token::RealNumber(x), Token::RealNumber(y)) => *x == *y,
        (Token::Identifier(x), Token::Identifier(y)) => *x == *y,
        (Token::NaturalNumber(_), _) | (Token::RealNumber(_), _) | (Token::Identifier(_), _) => false,
        (_, Token::NaturalNumber(_)) | (_, Token::RealNumber(_)) | (_, Token::Identifier(_)) => false,
        (Token::Plus, Token::Plus) | (Token::Minus, Token::Minus) | (Token::Star, Token::Star) | (
            Token::Slash,
            Token::Slash,
        ) | (Token::Bang, Token::Bang) | (Token::Equal, Token::Equal) | (Token::DoubleEqual, Token::DoubleEqual) | (
            Token::BangEqual,
            Token::BangEqual,
        ) | (Token::Less, Token::Less) | (Token::LessEqual, Token::LessEqual) | (Token::Greater, Token::Greater) | (
            Token::GreaterEqual,
            Token::GreaterEqual,
        ) | (Token::LParen, Token::LParen) | (Token::RParen, Token::RParen) | (Token::LSquare, Token::LSquare) | (
            Token::RSquare,
            Token::RSquare,
        ) | (Token::Colon, Token::Colon) | (Token::SemiColon, Token::SemiColon) | (Token::Comma, Token::Comma) | (
            Token::Arrow,
            Token::Arrow,
        ) | (Token::Klet, Token::Klet) | (Token::Kin, Token::Kin) | (Token::Kfun, Token::Kfun) | (Token::Kif, Token::Kif)
        | (Token::Kelse, Token::Kelse) | (Token::Kwhile, Token::Kwhile) | (Token::Kreturn, Token::Kreturn) | (
            Token::Kcontinue,
            Token::Kcontinue,
        ) | (Token::Kbreak, Token::Kbreak) | (Token::Ktrue, Token::Ktrue) | (Token::Kfalse, Token::Kfalse) | (
            Token::Kand,
            Token::Kand,
        ) | (Token::Kor, Token::Kor) | (Token::End, Token::End) => true,
        _ => false,
    }
}

/// The text a token is shown as in messages.
fn token_text(t: &Token) -> String {
    String::from_str(
        match t {
            Token::NaturalNumber(_) => "Natural Literal",
            Token::RealNumber(_) => "Real Literal",
            Token::Identifier(_) => "Identifier",
            Token::Plus => "+",
            Token::Minus => "-",
            Token::Star => "*",
            Token::Slash => "/",
            Token::Bang => "!",
            Token::Equal => "=",
            Token::DoubleEqual => "==",
            Token::BangEqual => "!=",
            Token::Less => "<",
            Token::LessEqual => "<=",
            Token::Greater => ">",
            Token::GreaterEqual => ">=",
            Token::LParen => "(",
            Token::RParen => ")",
            Token::LSquare => "[",
            Token::RSquare => "]",
            Token::Colon => ":",
            Token::SemiColon => ";",
            Token::Comma => ",",
            Token::Arrow => "->",
            Token::Klet => "let",
            Token::Kin => "in",
            Token::Kfun => "fun",
            Token::Kif => "if",
            Token::Kelse => "else",
            Token::Kwhile => "while",
            Token::Kreturn => "return",
            Token::Kcontinue => "continue",
            Token::Kbreak => "break",
            Token::Ktrue => "true",
            Token::Kfalse => "false",
            Token::Kand => "and",
            Token::Kor => "or",
            Token::End => "END",
        },
    )
}

/// `before`, then the text of `t` in backquotes, then `after`.
fn around(before: &str, t: &Token, after: &str) -> String {
    let mut m = String::from_str(before);
    m.append("`");
    m.append(token_text(t).as_str());
    m.append("`");
    m.append(after);
    m
}

impl Error for ParseError {
    fn message(&self) -> String {
        match self {
            ParseError::UnknownStartOfAnExpression(token) => around("No expression starts with this token: ", token, ""),
            ParseError::ExpectedADifferentToken { found, expected } => match expected {
                Token::RParen => String::from_str("Unclosed parentheses"),
                _ => {
                    let head = around("Expected a ", expected, ", instead found ");
                    around(head.as_str(), found, "")
                },
            },
            ParseError::UnconsumedTokenOrTokens(token) => around(
                "Parser couldn't consume all tokens. First of unconsumed tokens: ",
                token,
                "",
            ),
            ParseError::ExpectedAnIdentifier(token) => around("Expected an `Identifier`, instead found ", token, ""),
            ParseError::UnkownStartOfATypeExpression(token) => around(
                "No type expression starts with this token: ",
                token,
                "",
            ),
            ParseError::InvalidTopLevelElement(token) => around(
                "Only `let` and `fun` definitions are allowed for top-level, invalid token: ",
                token,
                "",
            ),
        }
    }
}

/// The operator that `t` stands for at precedence level `level`, from 1,
/// which binds tightest, to 8.
pub open spec fn operator_at(level: u8, t: Token) -> Option<BinaryOp> {
    match t {
        Token::Star => if level == 1 { Some(BinaryOp::Multiplication) } else { None },
        Token::Slash => if level == 1 { Some(BinaryOp::Division) } else { None },
        Token::Plus => if level == 2 { Some(BinaryOp::Addition) } else { None },
        Token::Minus => if level == 2 { Some(BinaryOp::Subtraction) } else { None },
        Token::Less => if level == 3 { Some(BinaryOp::Less) } else { None },
        Token::LessEqual => if level == 3 { Some(BinaryOp::LessEqual) } else { None },
        Token::Greater => if level == 3 { Some(BinaryOp::Greater) } else { None },
        Token::GreaterEqual => if level == 3 { Some(BinaryOp::GreaterEqual) } else { None },
        Token::DoubleEqual => if level == 4 { Some(BinaryOp::Equal) } else { None },
        Token::BangEqual => if level == 4 { Some(BinaryOp::NotEqual) } else { None },
        Token::Kand => if level == 5 { Some(BinaryOp::And) } else { None },
        Token::Kor => if level == 6 { Some(BinaryOp::Or) } else { None },
        Token::Equal => if level == 7 { Some(BinaryOp::Assignment) } else { None },
        Token::SemiColon => if level == 8 { Some(BinaryOp::Sequence) } else { None },
        _ => None,
    }
}

/// Whether operators of level `level` chain to the left; the others do not
/// chain.
pub open spec fn left_associative(level: u8) -> bool {
    level == 1 || level == 2 || level == 5 || level == 6 || level == 8
}

fn operator(level: u8, t: &Token) -> (r: Option<BinaryOp>)
    ensures
        r == operator_at(level, *t),
{
    match t {
        Token::Star => if level == 1 { Some(BinaryOp::Multiplication) } else { None },
        Token::Slash => if level == 1 { Some(BinaryOp::Division) } else { None },
        Token::Plus => if level == 2 { Some(BinaryOp::Addition) } else { None },
        Token::Minus => if level == 2 { Some(BinaryOp::Subtraction) } else { None },
        Token::Less => if level == 3 { Some(BinaryOp::Less) } else { None },
        Token::LessEqual => if level == 3 { Some(BinaryOp::LessEqual) } else { None },
        Token::Greater => if level == 3 { Some(BinaryOp::Greater) } else { None },
        Token::GreaterEqual => if level == 3 { Some(BinaryOp::GreaterEqual) } else { None },
        Token::DoubleEqual => if level == 4 { Some(BinaryOp::Equal) } else { None },
        Token::BangEqual => if level == 4 { Some(BinaryOp::NotEqual) } else { None },
        Token::Kand => if level == 5 { Some(BinaryOp::And) } else { None },
        Token::Kor => if level == 6 { Some(BinaryOp::Or) } else { None },
        Token::Equal => if level == 7 { Some(BinaryOp::Assignment) } else { None },
        Token::SemiColon => if level == 8 { Some(BinaryOp::Sequence) } else { None },
        _ => None,
    }
}

fn left_assoc(level: u8) -> (r: bool)
    ensures
        r == left_associative(level),
{
    level == 1 || level == 2 || level == 5 || level == 6 || level == 8
}

pub struct Parser {
    tokens: Vec<Spanned<Token>>,
    index: usize,
}

type ParseResult = Result<Spanned<Expression>, Spanned<ParseError>>;

impl Parser {
    pub closed spec fn tokens(&self) -> Seq<Spanned<Token>> {
        self.tokens@
    }

    /// Index of the current token.
    pub closed spec fn position(&self) -> int {
        self.index as int
    }

    /// The tokens end with `End`, and the current one is among them.
    pub open spec fn inv(&self) -> bool {
        &&& self.tokens().len() > 0
        &&& self.tokens().last().data is End
        &&& 0 <= self.position() < self.tokens().len()
    }

    pub open spec fn current(&self) -> Token {
        self.tokens()[self.position()].data
    }

    pub open spec fn remaining(&self) -> int {
        self.tokens().len() - self.position()
    }

    /// Parsing went on from `before` over the same tokens.
    pub open spec fn went_on_from(&self, before: Parser) -> bool {
        &&& self.tokens() == before.tokens()
        &&& self.inv()
        &&& self.position() >= before.position()
    }

    /// A parser at the start of `tokens`, which end with `End` as the
    /// lexer's tokens do.
    pub fn new(tokens: Vec<Spanned<Token>>) -> (r: Parser)
        requires
            tokens@.len() > 0,
            tokens@.last().data is End,
        ensures
            r.inv(),
            r.tokens() == tokens@,
            r.position() == 0,
    {
        Parser { tokens, index: 0 }
    }

    fn current_token(&self) -> (r: &Token)
        requires
            self.inv(),
        ensures
            *r == self.current(),
    {
        &self.tokens[self.index].data
    }

    fn get_span(&self) -> (r: Span)
        requires
            self.inv(),
        ensures
            r == self.tokens()[self.position()].span,
    {
        self.tokens[self.index].span
    }

    fn advance(&mut self)
        requires
            old(self).inv(),
            !(old(self).current() is End),
        ensures
            final(self).tokens() == old(self).tokens(),
            final(self).inv(),
            final(self).position() == old(self).position() + 1,
    {
        if self.index < self.tokens.len() {
            self.index += 1;
        }
    }

    fn expect(&mut self, expected: Token) -> (r: Result<Span, Spanned<ParseError>>)
        requires
            old(self).inv(),
            !(expected is End),
        ensures
            final(self).went_on_from(*old(self)),
            r is Ok <==> old(self).current()@ == expected@,
            r is Ok ==> final(self).position() == old(self).position() + 1 && r->Ok_0 == old(self).tokens()[old(
                self,
            ).position()].span,
            r is Err ==> final(self).position() == old(self).position(),
    {
        if !same_token(self.current_token(), &expected) {
            return Err(
                ParseError::ExpectedADifferentToken { found: copy_token(self.current_token()), expected }.spanned(
                    self.get_span(),
                ),
            );
        }
        let span = self.get_span();
        self.advance();
        Ok(span)
    }

    fn expect_identifier(&mut self) -> (r: Result<Spanned<String>, Spanned<ParseError>>)
        requires
            old(self).inv(),
        ensures
            final(self).went_on_from(*old(self)),
            r is Ok <==> old(self).current() is Identifier,
            r is Ok ==> final(self).position() == old(self).position() + 1 && old(self).current()
                == Token::Identifier(r->Ok_0.data),
    {
        let symbol = match self.current_token() {
            Token::Identifier(symbol) => symbol.clone(),
            _ => {
                return Err(ParseError::ExpectedAnIdentifier(copy_token(self.current_token())).spanned(self.get_span()));
            },
        };
        let span = self.get_span();
        self.advance();
        Ok(Spanned { data: symbol, span })
    }

    /// Moves past the current token if it is `expected`.
    fn optional(&mut self, expected: Token) -> (r: bool)
        requires
            old(self).inv(),
            !(expected is End),
        ensures
            final(self).went_on_from(*old(self)),
            r == (old(self).current()@ == expected@),
            final(self).position() == old(self).position() + if r { 1int } else { 0int },
    {
        if same_token(self.current_token(), &expected) {
            self.advance();
            true
        } else {
            false
        }
    }

    fn type_expr(&mut self) -> (r: Result<Spanned<TypeExpr>, Spanned<ParseError>>)
        requires
            old(self).inv(),
        ensures
            final(self).went_on_from(*old(self)),
            r is Ok ==> final(self).position() > old(self).position(),
        decreases old(self).remaining(), 1int,
    {
        let current_token_span = self.get_span();
        match self.current_token() {
            Token::Identifier(symbol) => {
                let expr = TypeExpr::Identifier(symbol.clone()).spanned(current_token_span);
                self.advance();
                Ok(expr)
            },
            Token::LParen => {
                self.advance();
                if self.optional(Token::RParen) {
                    return Ok(TypeExpr::UnitValue.start_end(current_token_span, self.get_span()));
                }
                let expr = match self.type_expr() {
                    Ok(e) => e.data,
                    Err(e) => return Err(e),
                };
                let end_span = match self.expect(Token::RParen) {
                    Ok(s) => s,
                    Err(e) => return Err(e),
                };
                Ok(expr.start_end(current_token_span, end_span))
            },
            Token::LSquare => {
                self.advance();
                let expr = match self.type_expr() {
                    Ok(e) => Box::new(e),
                    Err(e) => return Err(e),
                };
                let end_span = match self.expect(Token::RSquare) {
                    Ok(s) => s,
                    Err(e) => return Err(e),
                };
                Ok(TypeExpr::List(expr).start_end(current_token_span, end_span))
            },
            Token::Kfun => {
                self.advance();
                let arg_types = match self.type_list() {
                    Ok(v) => v,
                    Err(e) => return Err(e),
                };
                let return_type = if self.optional(Token::Arrow) {
                    match self.type_expr() {
                        Ok(t) => Some(Box::new(t)),
                        Err(e) => return Err(e),
                    }
                } else {
                    None
                };
                Ok(TypeExpr::Function { arg_types, return_type }.start_end(current_token_span, self.get_span()))
            },
            unexpected_token => Err(
                ParseError::UnkownStartOfATypeExpression(copy_token(unexpected_token)).spanned(current_token_span),
            ),
        }
    }

    fn type_list(&mut self) -> (r: Result<Vec<Spanned<TypeExpr>>, Spanned<ParseError>>)
        requires
            old(self).inv(),
        ensures
            final(self).went_on_from(*old(self)),
            r is Ok ==> final(self).position() > old(self).position(),
        decreases old(self).remaining(), 0int,
    {
        let mut values: Vec<Spanned<TypeExpr>> = Vec::new();
        match self.expect(Token::LParen) {
            Ok(_) => {},
            Err(e) => return Err(e),
        }
        if !self.optional(Token::RParen) {
            match self.type_expr() {
                Ok(v) => values.push(v),
                Err(e) => return Err(e),
            }
            while !self.optional(Token::RParen)
                invariant
                    self.went_on_from(*old(self)),
                    self.position() > old(self).position(),
                decreases self.remaining(),
            {
                match self.expect(Token::Comma) {
                    Ok(_) => {},
                    Err(e) => return Err(e),
                }
                match self.type_expr() {
                    Ok(v) => values.push(v),
                    Err(e) => return Err(e),
                }
            }
        }
        Ok(values)
    }

    fn typed_identifier(&mut self) -> (r: Result<(Spanned<String>, Spanned<TypeExpr>), Spanned<ParseError>>)
        requires
            old(self).inv(),
        ensures
            final(self).went_on_from(*old(self)),
            r is Ok ==> final(self).position() > old(self).position(),
        decreases old(self).remaining(), 0int,
    {
        let arg_name = match self.expect_identifier() {
            Ok(n) => n,
            Err(e) => return Err(e),
        };
        match self.expect(Token::Colon) {
            Ok(_) => {},
            Err(e) => return Err(e),
        }
        let type_annot = match self.type_expr() {
            Ok(t) => t,
            Err(e) => return Err(e),
        };
        Ok((arg_name, type_annot))
    }

    fn typed_identifier_list(&mut self) -> (r: Result<Vec<(Spanned<String>, Spanned<TypeExpr>)>, Spanned<ParseError>>)
        requires
            old(self).inv(),
        ensures
            final(self).went_on_from(*old(self)),
            r is Ok ==> final(self).position() > old(self).position(),
        decreases old(self).remaining(), 0int,
    {
        let mut values: Vec<(Spanned<String>, Spanned<TypeExpr>)> = Vec::new();
        match self.expect(Token::LParen) {
            Ok(_) => {},
            Err(e) => return Err(e),
        }
        if !self.optional(Token::RParen) {
            match self.typed_identifier() {
                Ok(v) => values.push(v),
                Err(e) => return Err(e),
            }
            while !self.optional(Token::RParen)
                invariant
                    self.went_on_from(*old(self)),
                    self.position() > old(self).position(),
                decreases self.remaining(),
            {
                match self.expect(Token::Comma) {
                    Ok(_) => {},
                    Err(e) => return Err(e),
                }
                match self.typed_identifier() {
                    Ok(v) => values.push(v),
                    Err(e) => return Err(e),
                }
            }
        }
        Ok(values)
    }

    fn expression_list(&mut self, open: Token, close: Token) -> (r: Result<Vec<Spanned<Expression>>, Spanned<ParseError>>)
        requires
            old(self).inv(),
            !(open is End),
            !(close is End),
        ensures
            final(self).went_on_from(*old(self)),
            r is Ok ==> final(self).position() > old(self).position(),
        decreases old(self).remaining(), 0int,
    {
        let mut values: Vec<Spanned<Expression>> = Vec::new();
        match self.expect(open) {
            Ok(_) => {},
            Err(e) => return Err(e),
        }
        let closed = copy_token(&close);
        if !self.optional(closed) {
            match self.expr() {
                Ok(v) => values.push(v),
                Err(e) => return Err(e),
            }
            while !self.optional(copy_token(&close))
                invariant
                    self.went_on_from(*old(self)),
                    self.position() > old(self).position(),
                    !(close is End),
                decreases self.remaining(),
            {
                match self.expect(Token::Comma) {
                    Ok(_) => {},
                    Err(e) => return Err(e),
                }
                match self.expr() {
                    Ok(v) => values.push(v),
                    Err(e) => return Err(e),
                }
            }
        }
        Ok(values)
    }

    fn product(&mut self) -> (r: ParseResult)
        requires
            old(self).inv(),
        ensures
            final(self).went_on_from(*old(self)),
            r is Ok ==> final(self).position() > old(self).position(),
        decreases old(self).remaining(), 1int,
    {
        let current_token_span = self.get_span();
        let expr = match self.current_token() {
            Token::Identifier(symbol) => Expression::Identifier(symbol.clone()).spanned(current_token_span),
            Token::NaturalNumber(digits) => Expression::NaturalNumber(digits.clone()).spanned(current_token_span),
            Token::RealNumber(digits) => Expression::RealNumber(digits.clone()).spanned(current_token_span),
            Token::Ktrue => Expression::BoolValue(true).spanned(current_token_span),
            Token::Kfalse => Expression::BoolValue(false).spanned(current_token_span),
            Token::Klet => return self.let_expr(),
            Token::Kfun => return self.fun_expr(),
            Token::Kif => return self.if_expr(),
            Token::Kwhile => return self.while_expr(),
            Token::Kreturn => return self.return_expr(),
            Token::Kcontinue => return self.continue_expr(),
            Token::Kbreak => return self.break_expr(),
            Token::LSquare => {
                let exprs = match self.expression_list(Token::LSquare, Token::RSquare) {
                    Ok(v) => v,
                    Err(e) => return Err(e),
                };
                return Ok(Expression::List(exprs).start_end(current_token_span, self.get_span()));
            },
            Token::LParen => {
                self.advance();
                if self.optional(Token::RParen) {
                    return Ok(Expression::UnitValue.start_end(current_token_span, self.get_span()));
                }
                let expr = match self.expr() {
                    Ok(e) => e.data,
                    Err(e) => return Err(e),
                };
                let end_span = match self.expect(Token::RParen) {
                    Ok(s) => s,
                    Err(e) => return Err(e),
                };
                return Ok(expr.start_end(current_token_span, end_span));
            },
            Token::Bang | Token::Minus => {
                let op = match self.current_token() {
                    Token::Minus => UnaryOp::Negation,
                    _ => UnaryOp::Not,
                };
                self.advance();
                let operand = match self.product() {
                    Ok(o) => o,
                    Err(e) => return Err(e),
                };
                let end_span = operand.span;
                return Ok(Expression::Unary { op, operand: Box::new(operand) }.start_end(current_token_span, end_span));
            },
            unexpected_token => {
                return Err(
                    ParseError::UnknownStartOfAnExpression(copy_token(unexpected_token)).spanned(current_token_span),
                );
            },
        };
        self.advance();
        Ok(expr)
    }

    fn call_expr(&mut self) -> (r: ParseResult)
        requires
            old(self).inv(),
        ensures
            final(self).went_on_from(*old(self)),
            r is Ok ==> final(self).position() > old(self).position(),
        decreases old(self).remaining(), 2int,
    {
        let mut expr = match self.product() {
            Ok(e) => e,
            Err(e) => return Err(e),
        };
        while self.current_token().is_lparen()
            invariant
                self.went_on_from(*old(self)),
                self.position() > old(self).position(),
            decreases self.remaining(),
        {
            let start_span = expr.span;
            let args = match self.expression_list(Token::LParen, Token::RParen) {
                Ok(v) => v,
                Err(e) => return Err(e),
            };
            expr = Expression::FunctionCall { f: Box::new(expr), args }.start_end(start_span, self.get_span());
        }
        Ok(expr)
    }

    /// The operand of an operator of level `level`.
    fn operand(&mut self, level: u8) -> (r: ParseResult)
        requires
            old(self).inv(),
            1 <= level <= 8,
        ensures
            final(self).went_on_from(*old(self)),
            r is Ok ==> final(self).position() > old(self).position(),
        decreases old(self).remaining(), 2 * level + 2,
    {
        if level == 1 {
            self.call_expr()
        } else {
            self.binary(level - 1)
        }
    }

    /// Operators of level `level` between operands of the levels below.
    fn binary(&mut self, level: u8) -> (r: ParseResult)
        requires
            old(self).inv(),
            1 <= level <= 8,
        ensures
            final(self).went_on_from(*old(self)),
            r is Ok ==> final(self).position() > old(self).position(),
        decreases old(self).remaining(), 2 * level + 3,
    {
        let mut left = match self.operand(level) {
            Ok(e) => e,
            Err(e) => return Err(e),
        };
        loop
            invariant
                self.went_on_from(*old(self)),
                self.position() > old(self).position(),
                1 <= level <= 8,
            decreases self.remaining(),
        {
            let op = match operator(level, self.current_token()) {
                Some(op) => op,
                None => break,
            };
            self.advance();
            let right = match self.operand(level) {
                Ok(e) => e,
                Err(e) => return Err(e),
            };
            let (left_span, right_span) = (left.span, right.span);
            left = Expression::Binary { op, left: Box::new(left), right: Box::new(right) }.start_end(
                left_span,
                right_span,
            );
            if !left_assoc(level) {
                break;
            }
        }
        Ok(left)
    }

    fn expr(&mut self) -> (r: ParseResult)
        requires
            old(self).inv(),
        ensures
            final(self).went_on_from(*old(self)),
            r is Ok ==> final(self).position() > old(self).position(),
        decreases old(self).remaining(), 20int,
    {
        self.binary(8)
    }

    fn let_expr(&mut self) -> (r: ParseResult)
        requires
            old(self).inv(),
        ensures
            final(self).went_on_from(*old(self)),
            r is Ok ==> final(self).position() > old(self).position(),
        decreases old(self).remaining(), 0int,
    {
        let start_span = match self.expect(Token::Klet) {
            Ok(s) => s,
            Err(e) => return Err(e),
        };
        let name = match self.expect_identifier() {
            Ok(n) => n,
            Err(e) => return Err(e),
        };
        let type_annot = if self.optional(Token::Colon) {
            match self.type_expr() {
                Ok(t) => Some(t),
                Err(e) => return Err(e),
            }
        } else {
            None
        };
        match self.expect(Token::Equal) {
            Ok(_) => {},
            Err(e) => return Err(e),
        }
        let value = match self.expr() {
            Ok(v) => Box::new(v),
            Err(e) => return Err(e),
        };
        match self.expect(Token::Kin) {
            Ok(_) => {},
            Err(e) => return Err(e),
        }
        let expr = match self.expr() {
            Ok(v) => Box::new(v),
            Err(e) => return Err(e),
        };
        Ok(Expression::Let { name, type_annot, value, expr }.start_end(start_span, self.get_span()))
    }

    fn fun_expr(&mut self) -> (r: ParseResult)
        requires
            old(self).inv(),
        ensures
            final(self).went_on_from(*old(self)),
            r is Ok ==> final(self).position() > old(self).position(),
        decreases old(self).remaining(), 0int,
    {
        let start_span = match self.expect(Token::Kfun) {
            Ok(s) => s,
            Err(e) => return Err(e),
        };
        let name = match self.expect_identifier() {
            Ok(n) => n,
            Err(e) => return Err(e),
        };
        let args = match self.typed_identifier_list() {
            Ok(a) => a,
            Err(e) => return Err(e),
        };
        let return_type = if self.optional(Token::Arrow) {
            match self.type_expr() {
                Ok(t) => Some(t),
                Err(e) => return Err(e),
            }
        } else {
            None
        };
        match self.expect(Token::Equal) {
            Ok(_) => {},
            Err(e) => return Err(e),
        }
        let expr = match self.expr() {
            Ok(v) => Box::new(v),
            Err(e) => return Err(e),
        };
        match self.expect(Token::Kin) {
            Ok(_) => {},
            Err(e) => return Err(e),
        }
        let in_expr = match self.expr() {
            Ok(v) => Box::new(v),
            Err(e) => return Err(e),
        };
        Ok(Expression::Fun { name, args, return_type, expr, in_expr }.start_end(start_span, self.get_span()))
    }

    fn if_expr(&mut self) -> (r: ParseResult)
        requires
            old(self).inv(),
        ensures
            final(self).went_on_from(*old(self)),
            r is Ok ==> final(self).position() > old(self).position(),
        decreases old(self).remaining(), 0int,
    {
        let start_span = match self.expect(Token::Kif) {
            Ok(s) => s,
            Err(e) => return Err(e),
        };
        let condition = match self.expr() {
            Ok(v) => Box::new(v),
            Err(e) => return Err(e),
        };
        let true_expr = match self.expr() {
            Ok(v) => Box::new(v),
            Err(e) => return Err(e),
        };
        let false_expr = if self.optional(Token::Kelse) {
            match self.expr() {
                Ok(v) => Some(Box::new(v)),
                Err(e) => return Err(e),
            }
        } else {
            None
        };
        Ok(Expression::If { condition, true_expr, false_expr }.start_end(start_span, self.get_span()))
    }

    fn while_expr(&mut self) -> (r: ParseResult)
        requires
            old(self).inv(),
        ensures
            final(self).went_on_from(*old(self)),
            r is Ok ==> final(self).position() > old(self).position(),
        decreases old(self).remaining(), 0int,
    {
        let start_span = match self.expect(Token::Kwhile) {
            Ok(s) => s,
            Err(e) => return Err(e),
        };
        let condition = match self.expr() {
            Ok(v) => Box::new(v),
            Err(e) => return Err(e),
        };
        let expr = match self.expr() {
            Ok(v) => Box::new(v),
            Err(e) => return Err(e),
        };
        Ok(Expression::While { condition, expr }.start_end(start_span, self.get_span()))
    }

    fn return_expr(&mut self) -> (r: ParseResult)
        requires
            old(self).inv(),
        ensures
            final(self).went_on_from(*old(self)),
            r is Ok ==> final(self).position() > old(self).position(),
        decreases old(self).remaining(), 0int,
    {
        let start_span = match self.expect(Token::Kreturn) {
            Ok(s) => s,
            Err(e) => return Err(e),
        };
        let expr = match self.expr() {
            Ok(v) => Box::new(v),
            Err(e) => return Err(e),
        };
        Ok(Expression::Return(expr).start_end(start_span, self.get_span()))
    }

    fn continue_expr(&mut self) -> (r: ParseResult)
        requires
            old(self).inv(),
        ensures
            final(self).went_on_from(*old(self)),
            r is Ok ==> final(self).position() > old(self).position(),
        decreases old(self).remaining(), 0int,
    {
        let start_span = match self.expect(Token::Kcontinue) {
            Ok(s) => s,
            Err(e) => return Err(e),
        };
        Ok(Expression::Continue.start_end(start_span, self.get_span()))
    }

    fn break_expr(&mut self) -> (r: ParseResult)
        requires
            old(self).inv(),
        ensures
            final(self).went_on_from(*old(self)),
            r is Ok ==> final(self).position() > old(self).position(),
        decreases old(self).remaining(), 0int,
    {
        let start_span = match self.expect(Token::Kbreak) {
            Ok(s) => s,
            Err(e) => return Err(e),
        };
        Ok(Expression::Break.start_end(start_span, self.get_span()))
    }

    /// One expression that takes up every token before `End`.
    pub fn parse_expr(&mut self) -> (r: ParseResult)
        requires
            old(self).inv(),
        ensures
            final(self).went_on_from(*old(self)),
            r is Ok ==> final(self).position() > old(self).position() && final(self).current() is End,
    {
        let ast = match self.expr() {
            Ok(a) => a,
            Err(e) => return Err(e),
        };
        if self.index != self.tokens.len() - 1 {
            return Err(
                ParseError::UnconsumedTokenOrTokens(copy_token(self.current_token())).spanned(self.get_span()),
            );
        }
        Ok(ast)
    }

    /// Top-level `let` and `fun` definitions up to `End`.
    pub fn parse_top_level(&mut self) -> (r: Result<Vec<Spanned<TopLevel>>, Spanned<ParseError>>)
        requires
            old(self).inv(),
        ensures
            final(self).went_on_from(*old(self)),
            r is Ok ==> final(self).current() is End,
    {
        let mut definitions: Vec<Spanned<TopLevel>> = Vec::new();
        loop
            invariant
                self.went_on_from(*old(self)),
            ensures
                self.went_on_from(*old(self)),
                self.current() is End,
            decreases self.remaining(),
        {
            let def = match self.current_token() {
                Token::Klet => self.top_level_let(),
                Token::Kfun => self.top_level_fun(),
                Token::End => break,
                invalid => {
                    return Err(ParseError::InvalidTopLevelElement(copy_token(invalid)).spanned(self.get_span()));
                },
            };
            match def {
                Ok(d) => definitions.push(d),
                Err(e) => return Err(e),
            }
        }
        Ok(definitions)
    }

    fn top_level_let(&mut self) -> (r: Result<Spanned<TopLevel>, Spanned<ParseError>>)
        requires
            old(self).inv(),
        ensures
            final(self).went_on_from(*old(self)),
            r is Ok ==> final(self).position() > old(self).position(),
        decreases old(self).remaining(), 0int,
    {
        let start_span = match self.expect(Token::Klet) {
            Ok(s) => s,
            Err(e) => return Err(e),
        };
        let name = match self.expect_identifier() {
            Ok(n) => n,
            Err(e) => return Err(e),
        };
        let type_annot = if self.optional(Token::Colon) {
            match self.type_expr() {
                Ok(t) => Some(t),
                Err(e) => return Err(e),
            }
        } else {
            None
        };
        match self.expect(Token::Equal) {
            Ok(_) => {},
            Err(e) => return Err(e),
        }
        let value = match self.expr() {
            Ok(v) => Box::new(v),
            Err(e) => return Err(e),
        };
        Ok(TopLevel::Let { name, type_annot, value }.start_end(start_span, self.get_span()))
    }

    fn top_level_fun(&mut self) -> (r: Result<Spanned<TopLevel>, Spanned<ParseError>>)
        requires
            old(self).inv(),
        ensures
            final(self).went_on_from(*old(self)),
            r is Ok ==> final(self).position() > old(self).position(),
        decreases old(self).remaining(), 0int,
    {
        let start_span = match self.expect(Token::Kfun) {
            Ok(s) => s,
            Err(e) => return Err(e),
        };
        let name = match self.expect_identifier() {
            Ok(n) => n,
            Err(e) => return Err(e),
        };
        let args = match self.typed_identifier_list() {
            Ok(a) => a,
            Err(e) => return Err(e),
        };
        let return_type = if self.optional(Token::Arrow) {
            match self.type_expr() {
                Ok(t) => Some(t),
                Err(e) => return Err(e),
            }
        } else {
            None
        };
        match self.expect(Token::Equal) {
            Ok(_) => {},
            Err(e) => return Err(e),
        }
        let expr = match self.expr() {
            Ok(v) => v,
            Err(e) => return Err(e),
        };
        Ok(TopLevel::Fun { name, args, return_type, expr }.start_end(start_span, self.get_span()))
    }
}

impl Token {
    pub fn is_lparen(&self) -> (r: bool)
        ensures
            r == (*self is LParen),
    {
        match self {
            Token::LParen => true,
            _ => false,
        }
    }
}

} // verus!

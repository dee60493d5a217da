//! Splits source text into tokens.
use vstd::prelude::*;

use crate::common::{Error, HasSpan, Span, Spanned};

verus! {

/// Whether `c` is alphabetic, as Unicode's `Alphabetic` property says.
pub uninterp spec fn alphabetic(c: char) -> bool;

/// Whether `c` is alphabetic or numeric, as Unicode's properties say.
pub uninterp spec fn alphanumeric(c: char) -> bool;

pub open spec fn ascii_letter(c: char) -> bool {
    ('a' <= c && c <= 'z') || ('A' <= c && c <= 'Z')
}

pub open spec fn ascii_digit(c: char) -> bool {
    '0' <= c && c <= '9'
}

/// Relies on `char::is_alphabetic`; ASCII letters are alphabetic, ASCII
/// digits are not.
#[verifier::external_body]
fn is_alphabetic(c: char) -> (r: bool)
    ensures
        r == alphabetic(c),
        ascii_letter(c) ==> r,
        ascii_digit(c) ==> !r,
{
    c.is_alphabetic()
}

/// Relies on `char::is_alphanumeric`: alphabetic or numeric, so ASCII
/// letters and digits and every alphabetic character are alphanumeric.
#[verifier::external_body]
fn is_alphanumeric(c: char) -> (r: bool)
    ensures
        r == alphanumeric(c),
        ascii_letter(c) || ascii_digit(c) ==> r,
        alphabetic(c) ==> r,
{
    c.is_alphanumeric()
}

#[derive(Debug, PartialEq, Clone)]
pub enum Token {
    NaturalNumber(String),
    RealNumber(String),
    Identifier(String),
    Plus,
    Minus,
    Star,
    Slash,
    Bang,
    Equal,
    DoubleEqual,
    BangEqual,
    Less,
    LessEqual,
    Greater,
    GreaterEqual,
    LParen,
    RParen,
    LSquare,
    RSquare,
    Colon,
    SemiColon,
    Comma,
    Arrow,
    Klet,
    Kin,
    Kfun,
    Kif,
    Kelse,
    Kwhile,
    Kreturn,
    Kcontinue,
    Kbreak,
    Ktrue,
    Kfalse,
    Kand,
    Kor,
    End,
}

/// A token with its text as a sequence of characters.
pub enum Lexeme {
    NaturalNumber(Seq<char>),
    RealNumber(Seq<char>),
    Identifier(Seq<char>),
    /// A token without text, which is itself.
    Fixed(Token),
}

impl View for Token {
    type V = Lexeme;

    open spec fn view(&self) -> Lexeme {
        match self {
            Token::NaturalNumber(s) => Lexeme::NaturalNumber(s@),
            Token::RealNumber(s) => Lexeme::RealNumber(s@),
            Token::Identifier(s) => Lexeme::Identifier(s@),
            _ => Lexeme::Fixed(*self),
        }
    }
}

impl HasSpan for Token {

}

#[derive(Debug, Clone, Copy, PartialEq, Eq)]
pub enum LexError {
    UnknownStartOfAToken(char),
    InvalidNumericLiteral,
}

impl HasSpan for LexError {

}

/// Relies on `String::from_iter` over characters: the string of them, in
/// order.
#[verifier::external_body]
pub(crate) fn string_from_chars(chars: Vec<char>) -> (r: String)
    ensures
        r@ == chars@,
{
    String::from_iter(chars)
}

/// Whether two character sequences are equal.
fn same_chars(a: &[char], b: &[char]) -> (r: bool)
    ensures
        r == (a@ == b@),
{
    if a.len() != b.len() {
        return false;
    }
    let mut i: usize = 0;
    while i < a.len()
        invariant
            a@.len() == b@.len(),
            i <= a@.len(),
            a@.subrange(0, i as int) == b@.subrange(0, i as int),
        decreases a@.len() - i,
    {
        if a[i] != b[i] {
            assert(a@[i as int] != b@[i as int]);
            return false;
        }
        assert(a@.subrange(0, i + 1) == a@.subrange(0, i as int).push(a@[i as int]));
        assert(b@.subrange(0, i + 1) == b@.subrange(0, i as int).push(b@[i as int]));
        i += 1;
    }
    assert(a@.subrange(0, i as int) == a@);
    assert(b@.subrange(0, i as int) == b@);
    true
}

/// The keyword spelled by `text`, if any.
fn keyword_of(text: &Vec<char>) -> (r: Option<Token>)
    ensures
        r == keyword(text@),
{
    let t = text.as_slice();
    if same_chars(t, &['l', 'e', 't']) {
        Some(Token::Klet)
    } else if same_chars(t, &['i', 'n']) {
        Some(Token::Kin)
    } else if same_chars(t, &['f', 'u', 'n']) {
        Some(Token::Kfun)
    } else if same_chars(t, &['i', 'f']) {
        Some(Token::Kif)
    } else if same_chars(t, &['e', 'l', 's', 'e']) {
        Some(Token::Kelse)
    } else if same_chars(t, &['w', 'h', 'i', 'l', 'e']) {
        Some(Token::Kwhile)
    } else if same_chars(t, &['r', 'e', 't', 'u', 'r', 'n']) {
        Some(Token::Kreturn)
    } else if same_chars(t, &['c', 'o', 'n', 't', 'i', 'n', 'u', 'e']) {
        Some(Token::Kcontinue)
    } else if same_chars(t, &['b', 'r', 'e', 'a', 'k']) {
        Some(Token::Kbreak)
    } else if same_chars(t, &['t', 'r', 'u', 'e']) {
        Some(Token::Ktrue)
    } else if same_chars(t, &['f', 'a', 'l', 's', 'e']) {
        Some(Token::Kfalse)
    } else if same_chars(t, &['a', 'n', 'd']) {
        Some(Token::Kand)
    } else if same_chars(t, &['o', 'r']) {
        Some(Token::Kor)
    } else {
        None
    }
}

/// Relies on `char::to_string`: the one-character string.
#[verifier::external_body]
fn char_string(c: char) -> (r: String)
    ensures
        r@ == seq![c],
{
    c.to_string()
}

impl Error for LexError {
    fn message(&self) -> String {
        match self {
            LexError::UnknownStartOfAToken(ch) => {
                let mut m = String::from_str("Encountered an unknown start of a token: `");
                m.append(char_string(*ch).as_str());
                m.append("`");
                m
            },
            LexError::InvalidNumericLiteral => String::from_str(
                "Numeric Literal contains alphabetic character(s)",
            ),
        }
    }
}

pub open spec fn whitespace(c: char) -> bool {
    c == ' ' || c == '\t' || c == '\r' || c == '\n'
}

pub open spec fn symbol_char(c: char) -> bool {
    alphanumeric(c) || c == '_'
}

/// The character at `i`, or the end marker past the end.
pub open spec fn char_at(chars: Seq<char>, i: int) -> char {
    if 0 <= i < chars.len() {
        chars[i]
    } else {
        '\0'
    }
}

/// The token of one or two characters that starts with `c` followed by
/// `next`, and its length.
pub open spec fn punctuation(c: char, next: char) -> Option<(Token, nat)> {
    if c == '+' {
        Some((Token::Plus, 1))
    } else if c == '-' {
        if next == '>' { Some((Token::Arrow, 2)) } else { Some((Token::Minus, 1)) }
    } else if c == '*' {
        Some((Token::Star, 1))
    } else if c == '/' {
        Some((Token::Slash, 1))
    } else if c == '!' {
        if next == '=' { Some((Token::BangEqual, 2)) } else { Some((Token::Bang, 1)) }
    } else if c == '=' {
        if next == '=' { Some((Token::DoubleEqual, 2)) } else { Some((Token::Equal, 1)) }
    } else if c == '<' {
        if next == '=' { Some((Token::LessEqual, 2)) } else { Some((Token::Less, 1)) }
    } else if c == '>' {
        if next == '=' { Some((Token::GreaterEqual, 2)) } else { Some((Token::Greater, 1)) }
    } else if c == '(' {
        Some((Token::LParen, 1))
    } else if c == ')' {
        Some((Token::RParen, 1))
    } else if c == '[' {
        Some((Token::LSquare, 1))
    } else if c == ']' {
        Some((Token::RSquare, 1))
    } else if c == ':' {
        Some((Token::Colon, 1))
    } else if c == ';' {
        Some((Token::SemiColon, 1))
    } else if c == ',' {
        Some((Token::Comma, 1))
    } else if c == '\0' {
        Some((Token::End, 1))
    } else {
        None
    }
}

/// The keyword spelled `s`, if any.
pub open spec fn keyword(s: Seq<char>) -> Option<Token> {
    if s == seq!['l', 'e', 't'] {
        Some(Token::Klet)
    } else if s == seq!['i', 'n'] {
        Some(Token::Kin)
    } else if s == seq!['f', 'u', 'n'] {
        Some(Token::Kfun)
    } else if s == seq!['i', 'f'] {
        Some(Token::Kif)
    } else if s == seq!['e', 'l', 's', 'e'] {
        Some(Token::Kelse)
    } else if s == seq!['w', 'h', 'i', 'l', 'e'] {
        Some(Token::Kwhile)
    } else if s == seq!['r', 'e', 't', 'u', 'r', 'n'] {
        Some(Token::Kreturn)
    } else if s == seq!['c', 'o', 'n', 't', 'i', 'n', 'u', 'e'] {
        Some(Token::Kcontinue)
    } else if s == seq!['b', 'r', 'e', 'a', 'k'] {
        Some(Token::Kbreak)
    } else if s == seq!['t', 'r', 'u', 'e'] {
        Some(Token::Ktrue)
    } else if s == seq!['f', 'a', 'l', 's', 'e'] {
        Some(Token::Kfalse)
    } else if s == seq!['a', 'n', 'd'] {
        Some(Token::Kand)
    } else if s == seq!['o', 'r'] {
        Some(Token::Kor)
    } else {
        None
    }
}

/// The first position at or after `i` whose character is not a digit.
pub open spec fn digits_end(chars: Seq<char>, i: int) -> int
    decreases chars.len() - i,
{
    if 0 <= i < chars.len() && ascii_digit(chars[i]) {
        digits_end(chars, i + 1)
    } else {
        i
    }
}

/// The first position at or after `i` whose character cannot continue a
/// symbol.
pub open spec fn symbol_end(chars: Seq<char>, i: int) -> int
    decreases chars.len() - i,
{
    if 0 <= i < chars.len() && symbol_char(chars[i]) {
        symbol_end(chars, i + 1)
    } else {
        i
    }
}

/// The first position at or after `i` that is not whitespace.
pub open spec fn skip_whitespace(chars: Seq<char>, i: int) -> int
    decreases chars.len() - i,
{
    if 0 <= i < chars.len() && whitespace(chars[i]) {
        skip_whitespace(chars, i + 1)
    } else {
        i
    }
}

pub open spec fn span(start: int, end: int) -> Span {
    Span { start: start as usize, end: end as usize }
}

/// The number that starts at `start`: digits, then a `.` and digits for a
/// real; a letter, digit or `_` right after it is an error.
pub open spec fn scan_number(chars: Seq<char>, start: int) -> Result<(Lexeme, Span), Spanned<LexError>> {
    let whole = digits_end(chars, start);
    let is_real = char_at(chars, whole) == '.';
    let end = if is_real { digits_end(chars, whole + 1) } else { whole };
    if 0 <= end < chars.len() && symbol_char(chars[end]) {
        Err(Spanned { data: LexError::InvalidNumericLiteral, span: span(start, end + 1) })
    } else if is_real {
        Ok((Lexeme::RealNumber(chars.subrange(start, end)), span(start, end)))
    } else {
        Ok((Lexeme::NaturalNumber(chars.subrange(start, end)), span(start, end)))
    }
}

/// The keyword or identifier that starts at `start`.
pub open spec fn scan_symbol(chars: Seq<char>, start: int) -> (Lexeme, Span) {
    let end = symbol_end(chars, start);
    let text = chars.subrange(start, end);
    match keyword(text) {
        Some(k) => (Lexeme::Fixed(k), span(start, end)),
        None => (Lexeme::Identifier(text), span(start, end)),
    }
}

/// The token at or after `i`, past whitespace; `None` at the end of input.
pub open spec fn scan(chars: Seq<char>, i: int) -> Option<Result<(Lexeme, Span), Spanned<LexError>>> {
    let start = skip_whitespace(chars, i);
    if start >= chars.len() {
        None
    } else {
        let c = chars[start];
        match punctuation(c, char_at(chars, start + 1)) {
            Some((t, len)) => Some(Ok((Lexeme::Fixed(t), span(start, start + len)))),
            None => if ascii_digit(c) {
                Some(scan_number(chars, start))
            } else if alphabetic(c) || c == '_' {
                Some(Ok(scan_symbol(chars, start)))
            } else {
                Some(Err(Spanned { data: LexError::UnknownStartOfAToken(c), span: span(start, start) }))
            },
        }
    }
}

/// Every token from position `i` on, or the first error.
pub open spec fn lex_from(chars: Seq<char>, i: int) -> Result<Seq<(Lexeme, Span)>, Spanned<LexError>>
    decreases chars.len() - i,
{
    match scan(chars, i) {
        None => Ok(Seq::empty()),
        Some(Err(e)) => Err(e),
        Some(Ok((t, s))) => if i < s.end <= chars.len() {
            match lex_from(chars, s.end as int) {
                Ok(rest) => Ok(seq![(t, s)] + rest),
                Err(e) => Err(e),
            }
        } else {
            Ok(seq![(t, s)])
        },
    }
}

pub open spec fn lexemes(tokens: Seq<Spanned<Token>>) -> Seq<(Lexeme, Span)> {
    tokens.map_values(|t: Spanned<Token>| (t.data@, t.span))
}

pub struct Lexer {
    chars: Vec<char>,
    index: usize,
}

impl Lexer {
    /// The characters being lexed, the end marker `'\0'` last.
    pub closed spec fn chars(&self) -> Seq<char> {
        self.chars@
    }

    /// Where lexing goes on.
    pub closed spec fn position(&self) -> int {
        self.index as int
    }

    pub open spec fn inv(&self) -> bool {
        self.position() <= self.chars().len()
    }

    pub fn new(source: &str) -> (r: Lexer)
        ensures
            r.chars() == source@.push('\0'),
            r.position() == 0,
            r.inv(),
    {
        let mut chars: Vec<char> = Vec::new();
        for c in it: source.chars()
            invariant
                chars@ == it.seq().subrange(0, it.index() as int),
        {
            chars.push(c);
        }
        chars.push('\0');
        Lexer { chars, index: 0 }
    }

    fn current_char(&self) -> (r: char)
        requires
            self.position() < self.chars().len(),
        ensures
            r == self.chars()[self.position()],
    {
        self.chars[self.index]
    }

    fn advance(&mut self)
        requires
            old(self).position() < old(self).chars().len(),
        ensures
            final(self).chars() == old(self).chars(),
            final(self).position() == old(self).position() + 1,
    {
        if self.index < self.chars.len() {
            self.index += 1;
        }
    }

    /// Moves past the current character if it is `expected`.
    fn advance_if(&mut self, expected: char) -> (r: bool)
        requires
            old(self).inv(),
        ensures
            final(self).chars() == old(self).chars(),
            r == (char_at(old(self).chars(), old(self).position()) == expected && old(self).position() < old(
                self,
            ).chars().len()),
            final(self).position() == old(self).position() + if r { 1int } else { 0int },
    {
        let r = self.index < self.chars.len() && self.current_char() == expected;
        if r {
            self.advance();
        }
        r
    }

    /// Moves past the current character if the one after it is `expected`.
    fn peek_is(&mut self, expected: char) -> (r: bool)
        requires
            old(self).position() < old(self).chars().len(),
        ensures
            final(self).chars() == old(self).chars(),
            r == (char_at(old(self).chars(), old(self).position() + 1) == expected),
            final(self).position() == old(self).position() + if r { 1int } else { 0int },
    {
        let r = if self.index < self.chars.len() - 1 {
            self.chars[self.index + 1] == expected
        } else {
            expected == '\0'
        };
        if r {
            self.advance();
        }
        r
    }

    fn valid_symbol_character(&self) -> (r: bool)
        requires
            self.position() < self.chars().len(),
        ensures
            r == symbol_char(self.chars()[self.position()]),
            alphabetic(self.chars()[self.position()]) || self.chars()[self.position()] == '_' ==> r,
    {
        let c = self.current_char();
        is_alphanumeric(c) || c == '_'
    }

    fn at_whitespace(&self) -> (r: bool)
        requires
            self.position() < self.chars().len(),
        ensures
            r == whitespace(self.chars()[self.position()]),
    {
        let c = self.current_char();
        c == ' ' || c == '\t' || c == '\r' || c == '\n'
    }

    /// The characters from `start` to the current position.
    fn text_from(&self, start: usize) -> (r: Vec<char>)
        requires
            start <= self.position() <= self.chars().len(),
        ensures
            r@ == self.chars().subrange(start as int, self.position()),
    {
        let mut text: Vec<char> = Vec::new();
        let mut i: usize = start;
        while i < self.index
            invariant
                start <= i <= self.position() <= self.chars().len(),
                text@ == self.chars().subrange(start as int, i as int),
            decreases self.position() - i,
        {
            text.push(self.chars[i]);
            assert(self.chars().subrange(start as int, i + 1) == self.chars().subrange(start as int, i as int).push(self.chars()[i as int]));
            i += 1;
        }
        text
    }

    /// Moves past the digits at the current position.
    fn skip_digits(&mut self)
        requires
            old(self).inv(),
        ensures
            final(self).chars() == old(self).chars(),
            final(self).position() == digits_end(old(self).chars(), old(self).position()),
            final(self).inv(),
    {
        while self.index < self.chars.len() && '0' <= self.current_char() && self.current_char() <= '9'
            invariant
                self.inv(),
                self.chars() == old(self).chars(),
                digits_end(self.chars(), self.position()) == digits_end(old(self).chars(), old(self).position()),
            decreases self.chars().len() - self.position(),
        {
            self.advance();
        }
    }

    fn lex_number(&mut self) -> (r: Result<Spanned<Token>, Spanned<LexError>>)
        requires
            old(self).inv(),
            old(self).position() < old(self).chars().len(),
            ascii_digit(old(self).chars()[old(self).position()]),
        ensures
            final(self).chars() == old(self).chars(),
            final(self).inv(),
            match scan_number(old(self).chars(), old(self).position()) {
                Ok((t, s)) => r is Ok && r->Ok_0.data@ == t && r->Ok_0.span == s && final(self).position()
                    == s.end && s.end > old(self).position(),
                Err(e) => r == Err::<Spanned<Token>, Spanned<LexError>>(e),
            },
    {
        let start = self.index;
        proof {
            lemma_digits_end(self.chars(), start as int);
        }
        self.skip_digits();
        let mut is_real = false;
        if self.advance_if('.') {
            is_real = true;
            proof {
                lemma_digits_end(self.chars(), self.position());
            }
            self.skip_digits();
        }
        if self.index < self.chars.len() && self.valid_symbol_character() {
            return Err(LexError::InvalidNumericLiteral.spanned(Span { start, end: self.index + 1 }));
        }
        let number = string_from_chars(self.text_from(start));
        let token = if is_real {
            Token::RealNumber(number)
        } else {
            Token::NaturalNumber(number)
        };
        Ok(token.spanned(Span { start, end: self.index }))
    }

    fn lex_symbol(&mut self) -> (r: Result<Spanned<Token>, Spanned<LexError>>)
        requires
            old(self).inv(),
            old(self).position() < old(self).chars().len(),
            alphabetic(old(self).chars()[old(self).position()]) || old(self).chars()[old(self).position()] == '_',
        ensures
            final(self).chars() == old(self).chars(),
            final(self).inv(),
            r is Ok,
            r->Ok_0.data@ == scan_symbol(old(self).chars(), old(self).position()).0,
            r->Ok_0.span == scan_symbol(old(self).chars(), old(self).position()).1,
            final(self).position() == r->Ok_0.span.end,
            r->Ok_0.span.end > old(self).position(),
    {
        let start = self.index;
        let first = self.valid_symbol_character();
        proof {
            lemma_symbol_end(self.chars(), start as int);
        }
        while self.index < self.chars.len() && self.valid_symbol_character()
            invariant
                self.inv(),
                self.chars() == old(self).chars(),
                start == old(self).position(),
                start <= self.position(),
                symbol_end(self.chars(), start as int) > start,
                symbol_end(self.chars(), self.position()) == symbol_end(old(self).chars(), start as int),
            decreases self.chars().len() - self.position(),
        {
            self.advance();
        }
        let text = self.text_from(start);
        let token = match keyword_of(&text) {
            Some(k) => k,
            None => Token::Identifier(string_from_chars(text)),
        };
        Ok(token.spanned(Span { start, end: self.index }))
    }

    /// The next token, `None` at the end of the input.
    pub fn next_token(&mut self) -> (r: Option<Result<Spanned<Token>, Spanned<LexError>>>)
        requires
            old(self).inv(),
        ensures
            final(self).chars() == old(self).chars(),
            final(self).inv(),
            match scan(old(self).chars(), old(self).position()) {
                None => r is None,
                Some(Err(e)) => r == Some(Err::<Spanned<Token>, Spanned<LexError>>(e)),
                Some(Ok((t, s))) => r is Some && r->Some_0 is Ok && r->Some_0->Ok_0.data@ == t
                    && r->Some_0->Ok_0.span == s && final(self).position() == s.end
                    && old(self).position() < s.end,
            },
    {
        while self.index < self.chars.len() && self.at_whitespace()
            invariant
                self.inv(),
                self.chars() == old(self).chars(),
                old(self).position() <= self.position(),
                skip_whitespace(self.chars(), self.position()) == skip_whitespace(
                    old(self).chars(),
                    old(self).position(),
                ),
            decreases self.chars().len() - self.position(),
        {
            self.advance();
        }
        if self.index >= self.chars.len() {
            return None;
        }
        let start = self.index;
        proof {
            lemma_skip_whitespace(self.chars(), old(self).position());
        }
        let token = match self.current_char() {
            '+' => Token::Plus,
            '-' => if self.peek_is('>') { Token::Arrow } else { Token::Minus },
            '*' => Token::Star,
            '/' => Token::Slash,
            '!' => if self.peek_is('=') { Token::BangEqual } else { Token::Bang },
            '=' => if self.peek_is('=') { Token::DoubleEqual } else { Token::Equal },
            '<' => if self.peek_is('=') { Token::LessEqual } else { Token::Less },
            '>' => if self.peek_is('=') { Token::GreaterEqual } else { Token::Greater },
            '(' => Token::LParen,
            ')' => Token::RParen,
            '[' => Token::LSquare,
            ']' => Token::RSquare,
            ':' => Token::Colon,
            ';' => Token::SemiColon,
            ',' => Token::Comma,
            '\0' => Token::End,
            c => {
                if '0' <= c && c <= '9' {
                    return Some(self.lex_number());
                } else if is_alphabetic(c) || c == '_' {
                    return Some(self.lex_symbol());
                } else {
                    return Some(Err(LexError::UnknownStartOfAToken(c).spanned(Span { start, end: start })));
                }
            },
        };
        self.advance();
        Some(Ok(token.spanned(Span { start, end: self.index })))
    }

    /// Every token of the input, the end marker's `End` last; or the first
    /// error.
    pub fn collect(self) -> (r: Result<Vec<Spanned<Token>>, Spanned<LexError>>)
        requires
            self.inv(),
        ensures
            r is Ok <==> lex_from(self.chars(), self.position()) is Ok,
            r is Ok ==> lexemes(r->Ok_0@) == lex_from(self.chars(), self.position())->Ok_0,
            r is Err ==> lex_from(self.chars(), self.position()) == Err::<Seq<(Lexeme, Span)>, Spanned<LexError>>(
                r->Err_0,
            ),
    {
        let ghost chars = self.chars();
        let ghost start = self.position();
        let mut lexer = self;
        let mut tokens: Vec<Spanned<Token>> = Vec::new();
        loop
            invariant
                lexer.inv(),
                lexer.chars() == chars,
                chars == self.chars(),
                start == self.position(),
                lex_from(chars, start) == match lex_from(chars, lexer.position()) {
                    Ok(rest) => Ok(lexemes(tokens@) + rest),
                    Err(e) => Err::<Seq<(Lexeme, Span)>, Spanned<LexError>>(e),
                },
            decreases chars.len() - lexer.position(),
        {
            let ghost before = lexer.position();
            match lexer.next_token() {
                None => {
                    assert(scan(chars, before) is None);
                    assert(lex_from(chars, before) == Ok::<Seq<(Lexeme, Span)>, Spanned<LexError>>(Seq::empty()));
                    assert(lexemes(tokens@) + Seq::<(Lexeme, Span)>::empty() =~= lexemes(tokens@));
                    return Ok(tokens);
                },
                Some(Err(e)) => return Err(e),
                Some(Ok(token)) => {
                    let ghost item = (token.data@, token.span);
                    let ghost prefix = lexemes(tokens@);
                    tokens.push(token);
                    assert(lexemes(tokens@) =~= prefix.push(item));
                    assert forall|rest: Seq<(Lexeme, Span)>| prefix + (seq![item] + rest) =~= prefix.push(item) + rest by {}
                },
            }
        }
    }
}

proof fn lemma_digits_end(chars: Seq<char>, i: int)
    requires
        0 <= i,
    ensures
        digits_end(chars, i) >= i,
        i < chars.len() ==> digits_end(chars, i) <= chars.len(),
        0 <= i < chars.len() && ascii_digit(chars[i]) ==> digits_end(chars, i) > i,
    decreases chars.len() - i,
{
    if 0 <= i < chars.len() && ascii_digit(chars[i]) {
        lemma_digits_end(chars, i + 1);
    }
}

proof fn lemma_symbol_end(chars: Seq<char>, i: int)
    requires
        0 <= i,
    ensures
        symbol_end(chars, i) >= i,
        0 <= i < chars.len() && symbol_char(chars[i]) ==> symbol_end(chars, i) > i,
    decreases chars.len() - i,
{
    if 0 <= i < chars.len() && symbol_char(chars[i]) {
        lemma_symbol_end(chars, i + 1);
    }
}

proof fn lemma_skip_whitespace(chars: Seq<char>, i: int)
    requires
        0 <= i,
    ensures
        skip_whitespace(chars, i) >= i,
    decreases chars.len() - i,
{
    if 0 <= i < chars.len() && whitespace(chars[i]) {
        lemma_skip_whitespace(chars, i + 1);
    }
}

} // verus!

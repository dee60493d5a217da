//! Checks the types of expressions and top-level definitions.
use vstd::prelude::*;

use crate::common::{Environment, Error, HasSpan, Span, Spanned};
use crate::parser::{BinaryOp, Expression, TopLevel, TypeExpr, UnaryOp};

verus! {

/// Types as mathematical values.
pub enum Ty {
    Natural,
    Integer,
    Real,
    Bool,
    Function(Seq<Ty>, Box<Ty>),
    List(Box<Ty>),
    Unit,
    Undetermined,
}

#[derive(Debug)]
pub enum Type {
    Natural,
    Integer,
    Real,
    Bool,
    Function { arg_types: Vec<Type>, return_type: Box<Type> },
    List(Box<Type>),
    Unit,
    Undetermined,
}

pub open spec fn type_view(t: Type) -> Ty
    decreases t, 0int,
{
    match t {
        Type::Natural => Ty::Natural,
        Type::Integer => Ty::Integer,
        Type::Real => Ty::Real,
        Type::Bool => Ty::Bool,
        Type::Function { arg_types, return_type } => Ty::Function(
            types_view(arg_types@, 0),
            Box::new(type_view(*return_type)),
        ),
        Type::List(element) => Ty::List(Box::new(type_view(*element))),
        Type::Unit => Ty::Unit,
        Type::Undetermined => Ty::Undetermined,
    }
}

/// The views of the types of `ts` from index `i` on.
pub open spec fn types_view(ts: Seq<Type>, i: int) -> Seq<Ty>
    decreases ts, ts.len() - i,
{
    if 0 <= i < ts.len() {
        seq![type_view(ts[i])] + types_view(ts, i + 1)
    } else {
        Seq::empty()
    }
}

impl View for Type {
    type V = Ty;

    open spec fn view(&self) -> Ty {
        type_view(*self)
    }
}

proof fn lemma_types_view(ts: Seq<Type>, i: int)
    requires
        0 <= i <= ts.len(),
    ensures
        types_view(ts, i).len() == ts.len() - i,
        forall|k: int| 0 <= k < ts.len() - i ==> #[trigger] types_view(ts, i)[k] == type_view(ts[i + k]),
    decreases ts.len() - i,
{
    if i < ts.len() {
        lemma_types_view(ts, i + 1);
        assert(types_view(ts, i) == seq![type_view(ts[i])] + types_view(ts, i + 1));
        assert forall|k: int| 0 <= k < ts.len() - i implies #[trigger] types_view(ts, i)[k] == type_view(ts[i + k]) by {
            if k > 0 {
                assert(types_view(ts, i)[k] == types_view(ts, i + 1)[k - 1]);
            }
        }
    }
}

/// `a` is a subtype of `b`: naturals, integers and reals widen in that
/// order, functions and lists compare by their parts, and the undetermined
/// type is below every type.
pub open spec fn subtype(a: Ty, b: Ty) -> bool
    decreases a, 0int,
{
    match a {
        Ty::Undetermined => true,
        Ty::Natural => b is Natural || b is Integer || b is Real,
        Ty::Integer => b is Integer || b is Real,
        Ty::Function(args, ret) => match b {
            Ty::Function(sargs, sret) => args.len() == sargs.len() && subtypes_from(args, sargs, 0) && subtype(
                *ret,
                *sret,
            ),
            _ => false,
        },
        Ty::List(t) => match b {
            Ty::List(s) => subtype(*t, *s),
            _ => false,
        },
        _ => a == b,
    }
}

/// Each of `a` from index `i` on is a subtype of the one of `b`.
pub open spec fn subtypes_from(a: Seq<Ty>, b: Seq<Ty>, i: int) -> bool
    decreases a, a.len() - i,
{
    if 0 <= i < a.len() {
        subtype(a[i], b[i]) && subtypes_from(a, b, i + 1)
    } else {
        true
    }
}

pub open spec fn numeric(t: Ty) -> bool {
    t is Natural || t is Integer || t is Real
}

/// The wider of two types one of which is below the other.
pub open spec fn compatible(a: Ty, b: Ty) -> Option<Ty> {
    if subtype(a, b) {
        Some(b)
    } else if subtype(b, a) {
        Some(a)
    } else {
        None
    }
}

impl Type {
    /// A copy of this type.
    pub fn duplicate(&self) -> (r: Type)
        ensures
            r@ == self@,
        decreases self,
    {
        match self {
            Type::Natural => Type::Natural,
            Type::Integer => Type::Integer,
            Type::Real => Type::Real,
            Type::Bool => Type::Bool,
            Type::Function { arg_types, return_type } => {
                let mut args: Vec<Type> = Vec::new();
                let mut i: usize = 0;
                while i < arg_types.len()
                    invariant
                        *self is Function,
                        self->arg_types == *arg_types,
                        i <= arg_types@.len(),
                        args@.len() == i,
                        forall|j: int| 0 <= j < i ==> (#[trigger] args@[j])@ == arg_types@[j]@,
                    decreases arg_types@.len() - i,
                {
                    proof {
                        assert(decreases_to!(*self => self->arg_types));
                        assert(decreases_to!(*arg_types => arg_types@));
                        assert(decreases_to!(arg_types@ => arg_types@[i as int]));
                    }
                    args.push(arg_types[i].duplicate());
                    i += 1;
                }
                proof {
                    lemma_types_view(args@, 0);
                    lemma_types_view(arg_types@, 0);
                    assert(types_view(args@, 0) =~= types_view(arg_types@, 0));
                }
                Type::Function { arg_types: args, return_type: Box::new(return_type.duplicate()) }
            },
            Type::List(element) => Type::List(Box::new(element.duplicate())),
            Type::Unit => Type::Unit,
            Type::Undetermined => Type::Undetermined,
        }
    }

    pub fn is_subtype_of(&self, super_type: &Type) -> (r: bool)
        ensures
            r == subtype(self@, super_type@),
        decreases self,
    {
        match self {
            Type::Undetermined => true,
            Type::Natural => match super_type {
                Type::Natural | Type::Integer | Type::Real => true,
                _ => false,
            },
            Type::Integer => match super_type {
                Type::Integer | Type::Real => true,
                _ => false,
            },
            Type::Function { arg_types, return_type } => {
                let (sarg_types, sreturn_type) = match super_type {
                    Type::Function { arg_types: s, return_type: t } => (s, t),
                    _ => return false,
                };
                proof {
                    lemma_types_view(arg_types@, 0);
                    lemma_types_view(sarg_types@, 0);
                }
                if arg_types.len() != sarg_types.len() {
                    return false;
                }
                let ghost a = types_view(arg_types@, 0);
                let ghost b = types_view(sarg_types@, 0);
                let mut i: usize = 0;
                while i < arg_types.len()
                    invariant
                        *self is Function,
                        self->arg_types == *arg_types,
                        *super_type is Function,
                        super_type->arg_types == *sarg_types,
                        i <= arg_types@.len(),
                        arg_types@.len() == sarg_types@.len(),
                        a == types_view(arg_types@, 0),
                        b == types_view(sarg_types@, 0),
                        a.len() == arg_types@.len(),
                        b.len() == arg_types@.len(),
                        forall|k: int| 0 <= k < a.len() ==> #[trigger] a[k] == arg_types@[k]@,
                        forall|k: int| 0 <= k < b.len() ==> #[trigger] b[k] == sarg_types@[k]@,
                        subtypes_from(a, b, i as int) == subtypes_from(a, b, 0),
                    decreases arg_types@.len() - i,
                {
                    proof {
                        assert(decreases_to!(*self => self->arg_types));
                        assert(decreases_to!(*arg_types => arg_types@));
                        assert(decreases_to!(arg_types@ => arg_types@[i as int]));
                    }
                    assert(a[i as int] == arg_types@[i as int]@);
                    assert(b[i as int] == sarg_types@[i as int]@);
                    assert(subtypes_from(a, b, i as int) == (subtype(a[i as int], b[i as int]) && subtypes_from(a, b, i + 1)));
                    if !arg_types[i].is_subtype_of(&sarg_types[i]) {
                        return false;
                    }
                    i += 1;
                }
                return_type.is_subtype_of(sreturn_type)
            },
            Type::List(t) => match super_type {
                Type::List(s) => t.is_subtype_of(s),
                _ => false,
            },
            Type::Real => match super_type {
                Type::Real => true,
                _ => false,
            },
            Type::Bool => match super_type {
                Type::Bool => true,
                _ => false,
            },
            Type::Unit => match super_type {
                Type::Unit => true,
                _ => false,
            },
        }
    }

    pub fn is_numeric(&self) -> (r: bool)
        ensures
            r == numeric(self@),
    {
        match self {
            Type::Natural | Type::Integer | Type::Real => true,
            _ => false,
        }
    }

    /// This type if `ty` is below it, else `ty`.
    pub fn minimum_type(&self, ty: Type) -> (r: Type)
        ensures
            r@ == if subtype(ty@, self@) {
                self@
            } else {
                ty@
            },
    {
        if ty.is_subtype_of(self) {
            self.duplicate()
        } else {
            ty
        }
    }

    pub fn is_compatable_with(&self, other: &Type) -> (r: Option<Type>)
        ensures
            r is Some <==> compatible(self@, other@) is Some,
            r is Some ==> r->Some_0@ == compatible(self@, other@)->Some_0,
    {
        if self.is_subtype_of(other) {
            Some(other.duplicate())
        } else if other.is_subtype_of(self) {
            Some(self.duplicate())
        } else {
            None
        }
    }
}

#[derive(Debug)]
pub enum TypeCheckError {
    ExpectedNumericType(Type),
    MismatchedType { found: Type, expected: Type },
    EqualityCheckOfDifferentTypes { left: Type, right: Type },
    UndefinedTypeName(String),
    UndefinedIdentifier(String),
    UnexpectedReturnType { function_name: String, found: Type, expected: Type },
    EntryPointNotProvided,
    UncallableType(Type),
    ArgumentNumberMismatch { found: usize, expected: usize },
    DifferentTypedBranches { true_branch: Type, false_branch: Type },
    InvalidAssignmentTarget,
    ReturnOutsideOfAFunction,
}

impl HasSpan for TypeCheckError {

}

/// The text a type is shown as in messages.
fn type_text(t: &Type) -> String
    decreases t,
{
    match t {
        Type::Natural => String::from_str("Natural"),
        Type::Integer => String::from_str("Integer"),
        Type::Real => String::from_str("Real"),
        Type::Bool => String::from_str("Bool"),
        Type::Function { arg_types, return_type } => {
            let mut text = String::from_str("fun(");
            let mut i: usize = 0;
            while i < arg_types.len()
                invariant
                    *t is Function,
                    t->arg_types == *arg_types,
                    i <= arg_types@.len(),
                decreases arg_types@.len() - i,
            {
                proof {
                    assert(decreases_to!(*t => t->arg_types));
                    assert(decreases_to!(*arg_types => arg_types@));
                    assert(decreases_to!(arg_types@ => arg_types@[i as int]));
                }
                text.append(type_text(&arg_types[i]).as_str());
                text.append(",");
                i += 1;
            }
            text.append(") -> ");
            text.append(type_text(return_type).as_str());
            text
        },
        Type::List(element) => {
            let mut text = String::from_str("[");
            text.append(type_text(element).as_str());
            text.append("]");
            text
        },
        Type::Unit => String::from_str("()"),
        Type::Undetermined => String::from_str("*"),
    }
}

impl Type {
    /// The type as it is written in messages.
    pub fn text(&self) -> String {
        type_text(self)
    }
}

/// `first`, then the text of `t` between backquotes, then `rest`.
fn join(first: &str, t: &Type, rest: &str) -> String {
    let mut m = String::from_str(first);
    m.append("`");
    m.append(type_text(t).as_str());
    m.append("`");
    m.append(rest);
    m
}

impl Error for TypeCheckError {
    fn message(&self) -> String {
        match self {
            TypeCheckError::ExpectedNumericType(t) => join(
                "Expected an expression type one of `Natural`, `Integer`, or `Real` instead found ",
                t,
                "",
            ),
            TypeCheckError::MismatchedType { found, expected } => {
                let head = join("Expected an expression type of ", expected, " instead found ");
                join(head.as_str(), found, "")
            },
            TypeCheckError::EqualityCheckOfDifferentTypes { left, right } => {
                let head = join("Cannot determine the equality of different types: ", left, " == ");
                join(head.as_str(), right, " ")
            },
            TypeCheckError::UndefinedTypeName(name) => {
                let mut m = String::from_str("A type named `");
                m.append(name.as_str());
                m.append("` does not exist.");
                m
            },
            TypeCheckError::UndefinedIdentifier(name) => {
                let mut m = String::from_str("Identifier `");
                m.append(name.as_str());
                m.append("` was never defined.");
                m
            },
            TypeCheckError::UnexpectedReturnType { function_name, found, expected } => {
                let mut m = String::from_str("Function ");
                m.append(function_name.as_str());
                m.append(" expected to return ");
                let head = join(m.as_str(), expected, " instead found ");
                join(head.as_str(), found, "")
            },
            TypeCheckError::EntryPointNotProvided => String::from_str("Entry point (main) for the program is not provided"),
            TypeCheckError::UncallableType(t) => join("Cannot call a ", t, ", only functions are callable"),
            TypeCheckError::ArgumentNumberMismatch { found, expected } => {
                let mut m = String::from_str("Expected `");
                m.append(number_text(*expected).as_str());
                m.append("` number of arguments instead found `");
                m.append(number_text(*found).as_str());
                m.append("` number of arguments");
                m
            },
            TypeCheckError::DifferentTypedBranches { true_branch, false_branch } => {
                let head = join("Branches of if expression have uncompatable types: ", true_branch, " and ");
                join(head.as_str(), false_branch, "")
            },
            TypeCheckError::InvalidAssignmentTarget => String::from_str("Invalid assignment target"),
            TypeCheckError::ReturnOutsideOfAFunction => String::from_str("Returns are only allowed in function contexts"),
        }
    }
}

/// The character of the decimal digit `d`.
pub open spec fn digit(d: nat) -> char {
    if d == 0 {
        '0'
    } else if d == 1 {
        '1'
    } else if d == 2 {
        '2'
    } else if d == 3 {
        '3'
    } else if d == 4 {
        '4'
    } else if d == 5 {
        '5'
    } else if d == 6 {
        '6'
    } else if d == 7 {
        '7'
    } else if d == 8 {
        '8'
    } else {
        '9'
    }
}

/// The decimal digits of `n`, most significant first.
pub open spec fn decimal(n: nat) -> Seq<char>
    decreases n,
{
    if n < 10 {
        seq![digit(n)]
    } else {
        decimal(n / 10).push(digit(n % 10))
    }
}

fn digit_char(d: usize) -> (r: char)
    requires
        d < 10,
    ensures
        r == digit(d as nat),
{
    if d == 0 {
        '0'
    } else if d == 1 {
        '1'
    } else if d == 2 {
        '2'
    } else if d == 3 {
        '3'
    } else if d == 4 {
        '4'
    } else if d == 5 {
        '5'
    } else if d == 6 {
        '6'
    } else if d == 7 {
        '7'
    } else if d == 8 {
        '8'
    } else {
        '9'
    }
}

fn decimal_digits(n: usize) -> (r: Vec<char>)
    ensures
        r@ == decimal(n as nat),
    decreases n,
{
    if n < 10 {
        vec![digit_char(n)]
    } else {
        let mut digits = decimal_digits(n / 10);
        digits.push(digit_char(n % 10));
        digits
    }
}

/// `n` in decimal.
pub fn number_text(n: usize) -> (r: String)
    ensures
        r@ == decimal(n as nat),
{
    crate::lexer::string_from_chars(decimal_digits(n))
}

/// The type a type name stands for.
pub open spec fn named_type(name: Seq<char>) -> Option<Ty> {
    if name == "Nat"@ {
        Some(Ty::Natural)
    } else if name == "Int"@ {
        Some(Ty::Integer)
    } else if name == "Bool"@ {
        Some(Ty::Bool)
    } else if name == "Real"@ {
        Some(Ty::Real)
    } else {
        None
    }
}

/// The type a type expression denotes, if every name in it is a type.
pub open spec fn denoted(e: Spanned<TypeExpr>) -> Option<Ty>
    decreases e, 0int,
{
    match e.data {
        TypeExpr::Identifier(name) => named_type(name@),
        TypeExpr::UnitValue => Some(Ty::Unit),
        TypeExpr::List(element) => match denoted(*element) {
            Some(t) => Some(Ty::List(Box::new(t))),
            None => None,
        },
        TypeExpr::Function { arg_types, return_type } => match denoted_from(arg_types@, 0) {
            Some(args) => match return_type {
                Some(r) => match denoted(*r) {
                    Some(t) => Some(Ty::Function(args, Box::new(t))),
                    None => None,
                },
                None => Some(Ty::Function(args, Box::new(Ty::Unit))),
            },
            None => None,
        },
    }
}

/// The types that `es` from index `i` on denote, if they all denote one.
pub open spec fn denoted_from(es: Seq<Spanned<TypeExpr>>, i: int) -> Option<Seq<Ty>>
    decreases es, es.len() - i,
{
    if 0 <= i < es.len() {
        match denoted(es[i]) {
            Some(t) => match denoted_from(es, i + 1) {
                Some(rest) => Some(seq![t] + rest),
                None => None,
            },
            None => None,
        }
    } else {
        Some(Seq::empty())
    }
}

proof fn lemma_denoted_from(es: Seq<Spanned<TypeExpr>>, i: int, ts: Seq<Type>)
    requires
        0 <= i <= es.len(),
        ts.len() == es.len(),
        forall|k: int| i <= k < es.len() ==> denoted(#[trigger] es[k]) == Some(ts[k]@),
    ensures
        denoted_from(es, i) == Some(types_view(ts, i)),
    decreases es.len() - i,
{
    if i < es.len() {
        lemma_denoted_from(es, i + 1, ts);
    }
}

proof fn lemma_denoted_from_none(es: Seq<Spanned<TypeExpr>>, i: int, k: int)
    requires
        0 <= i <= k < es.len(),
        denoted(es[k]) is None,
    ensures
        denoted_from(es, i) is None,
    decreases k - i,
{
    if i < k {
        lemma_denoted_from_none(es, i + 1, k);
    }
}

/// Whether `t` is of type `expected`, else the error that says it is not.
fn expect_type(t: &Type, expected: &Type) -> (r: Result<(), TypeCheckError>)
    ensures
        r is Ok <==> subtype(t@, expected@),
        r is Err ==> r->Err_0 is MismatchedType,
{
    if !t.is_subtype_of(expected) {
        return Err(TypeCheckError::MismatchedType { found: t.duplicate(), expected: expected.duplicate() });
    }
    Ok(())
}

fn expect_numeric(t: &Type) -> (r: Result<(), TypeCheckError>)
    ensures
        r is Ok <==> numeric(t@),
        r is Err ==> r->Err_0 is ExpectedNumericType,
{
    if !t.is_numeric() {
        return Err(TypeCheckError::ExpectedNumericType(t.duplicate()));
    }
    Ok(())
}

/// The type that a type expression denotes.
pub fn eval_type_e(e: &Spanned<TypeExpr>) -> (r: Result<Type, Spanned<TypeCheckError>>)
    ensures
        r is Ok <==> denoted(*e) is Some,
        r is Ok ==> r->Ok_0@ == denoted(*e)->Some_0,
        r is Err ==> r->Err_0.data is UndefinedTypeName,
    decreases e,
{
    match &e.data {
        TypeExpr::Identifier(symbol) => {
            if *symbol == String::from_str("Nat") {
                Ok(Type::Natural)
            } else if *symbol == String::from_str("Int") {
                Ok(Type::Integer)
            } else if *symbol == String::from_str("Bool") {
                Ok(Type::Bool)
            } else if *symbol == String::from_str("Real") {
                Ok(Type::Real)
            } else {
                Err(TypeCheckError::UndefinedTypeName(symbol.clone()).spanned(e.span))
            }
        },
        TypeExpr::UnitValue => Ok(Type::Unit),
        TypeExpr::Function { arg_types, return_type } => {
            let mut args: Vec<Type> = Vec::new();
            let mut i: usize = 0;
            while i < arg_types.len()
                invariant
                    e.data is Function,
                    e.data->arg_types == *arg_types,
                    i <= arg_types@.len(),
                    args@.len() == i,
                    forall|k: int| 0 <= k < i ==> denoted(#[trigger] arg_types@[k]) == Some(args@[k]@),
                decreases arg_types@.len() - i,
            {
                proof {
                    assert(decreases_to!(e.data => e.data->arg_types));
                    assert(decreases_to!(*arg_types => arg_types@));
                    assert(decreases_to!(arg_types@ => arg_types@[i as int]));
                }
                match eval_type_e(&arg_types[i]) {
                    Ok(t) => args.push(t),
                    Err(err) => {
                        proof {
                            lemma_denoted_from_none(arg_types@, 0, i as int);
                        }
                        return Err(err);
                    },
                }
                i += 1;
            }
            proof {
                lemma_denoted_from(arg_types@, 0, args@);
            }
            let return_type = match return_type {
                Some(r) => match eval_type_e(r) {
                    Ok(t) => Box::new(t),
                    Err(err) => return Err(err),
                },
                None => Box::new(Type::Unit),
            };
            let r = Type::Function { arg_types: args, return_type };
            assert(denoted_from(e.data->arg_types@, 0) == Some(types_view(r->arg_types@, 0)));
            assert(r@ == Ty::Function(types_view(r->arg_types@, 0), Box::new(type_view(*r->return_type))));
            Ok(r)
        },
        TypeExpr::List(element) => match eval_type_e(element) {
            Ok(t) => Ok(Type::List(Box::new(t))),
            Err(err) => Err(err),
        },
    }
}

type TypeCheckResult = Result<Type, Spanned<TypeCheckError>>;

/// The type of an expression that needs no checking.
pub open spec fn literal_type(e: Expression) -> Option<Ty> {
    match e {
        Expression::NaturalNumber(_) => Some(Ty::Natural),
        Expression::RealNumber(_) => Some(Ty::Real),
        Expression::BoolValue(_) => Some(Ty::Bool),
        Expression::UnitValue => Some(Ty::Unit),
        Expression::Break => Some(Ty::Unit),
        Expression::Continue => Some(Ty::Unit),
        _ => None,
    }
}

/// What checking reads: the local and global bindings, as types, and the
/// return type of the function being checked, if any.
pub struct Typing {
    pub locals: Seq<(Seq<char>, Ty)>,
    pub globals: Seq<(Seq<char>, Ty)>,
    pub ret: Option<Ty>,
}

impl Typing {
    pub open spec fn with_ret(self, ret: Option<Ty>) -> Typing {
        Typing { ret, ..self }
    }

    pub open spec fn bind(self, bindings: Seq<(Seq<char>, Ty)>) -> Typing {
        Typing { locals: self.locals + bindings, ..self }
    }
}

pub open spec fn binding_views(b: Seq<(String, Type)>) -> Seq<(Seq<char>, Ty)> {
    b.map_values(|p: (String, Type)| (p.0@, p.1@))
}

pub open spec fn option_view(t: Option<Type>) -> Option<Ty> {
    match t {
        Some(t) => Some(t@),
        None => None,
    }
}

/// The type of the last binding of `name` among the first `n`.
pub open spec fn last_binding(b: Seq<(Seq<char>, Ty)>, name: Seq<char>, n: int) -> Option<Ty>
    decreases n,
{
    if n <= 0 || n > b.len() {
        None
    } else if b[n - 1].0 == name {
        Some(b[n - 1].1)
    } else {
        last_binding(b, name, n - 1)
    }
}

/// The type of the first binding of `name` from index `i` on.
pub open spec fn first_binding(b: Seq<(Seq<char>, Ty)>, name: Seq<char>, i: int) -> Option<Ty>
    decreases b.len() - i,
{
    if i < 0 || i >= b.len() {
        None
    } else if b[i].0 == name {
        Some(b[i].1)
    } else {
        first_binding(b, name, i + 1)
    }
}

/// The type `name` stands for: its innermost local binding, else its
/// first global one.
pub open spec fn type_of_name(env: Typing, name: Seq<char>) -> Option<Ty> {
    match last_binding(env.locals, name, env.locals.len() as int) {
        Some(t) => Some(t),
        None => first_binding(env.globals, name, 0),
    }
}

/// `t` if `ty` is below it, else `ty`.
pub open spec fn minimum(t: Ty, ty: Ty) -> Ty {
    if subtype(ty, t) {
        t
    } else {
        ty
    }
}

/// The type of an arithmetic operation on numbers of types `lt` and `rt`:
/// the larger of the two, at least `Integer` for a difference and at least
/// `Real` for a quotient.
pub open spec fn arithmetic_type(op: BinaryOp, lt: Ty, rt: Ty) -> Option<Ty> {
    if numeric(lt) && numeric(rt) {
        let larger = if subtype(lt, rt) {
            rt
        } else {
            lt
        };
        Some(
            match op {
                BinaryOp::Subtraction => minimum(larger, Ty::Integer),
                BinaryOp::Division => minimum(larger, Ty::Real),
                _ => larger,
            },
        )
    } else {
        None
    }
}

/// The type of `left op right` where the operands have types `lt` and `rt`.
pub open spec fn binary_type(env: Typing, op: BinaryOp, left: Spanned<Expression>, lt: Ty, rt: Ty) -> Option<Ty> {
    match op {
        BinaryOp::Addition | BinaryOp::Multiplication | BinaryOp::Subtraction | BinaryOp::Division => arithmetic_type(op, lt, rt),
        BinaryOp::And | BinaryOp::Or => if subtype(lt, Ty::Bool) && subtype(rt, Ty::Bool) {
            Some(Ty::Bool)
        } else {
            None
        },
        BinaryOp::Equal | BinaryOp::NotEqual => if compatible(lt, rt) is Some {
            Some(Ty::Bool)
        } else {
            None
        },
        BinaryOp::Less | BinaryOp::LessEqual | BinaryOp::Greater | BinaryOp::GreaterEqual => if numeric(lt)
            && numeric(rt) {
            Some(Ty::Bool)
        } else {
            None
        },
        BinaryOp::Sequence => Some(rt),
        BinaryOp::Assignment => match left.data {
            Expression::Identifier(s) => match type_of_name(env, s@) {
                Some(t) => if subtype(rt, t) {
                    Some(Ty::Unit)
                } else {
                    None
                },
                None => None,
            },
            _ => None,
        },
    }
}

/// The types the annotations of `args` denote, from index `i` on.
pub open spec fn denoted_args(args: Seq<(Spanned<String>, Spanned<TypeExpr>)>, i: int) -> Option<Seq<Ty>>
    decreases args.len() - i,
{
    if 0 <= i < args.len() {
        match denoted(args[i].1) {
            Some(t) => match denoted_args(args, i + 1) {
                Some(rest) => Some(seq![t] + rest),
                None => None,
            },
            None => None,
        }
    } else {
        Some(Seq::empty())
    }
}

pub open spec fn denoted_return(return_type: Option<Spanned<TypeExpr>>) -> Option<Ty> {
    match return_type {
        Some(r) => denoted(r),
        None => Some(Ty::Unit),
    }
}

/// The arguments' names bound to `types`.
pub open spec fn argument_bindings(args: Seq<(Spanned<String>, Spanned<TypeExpr>)>, types: Seq<Ty>) -> Seq<(Seq<char>, Ty)> {
    Seq::new(args.len(), |i: int| (args[i].0.data@, types[i]))
}

/// The type of `e` in `env` and the return type in force afterwards, or
/// `None` where `e` has a type error.
pub open spec fn typed(env: Typing, e: Spanned<Expression>) -> Option<(Ty, Option<Ty>)>
    decreases e, 1int,
{
    match e.data {
        Expression::Identifier(s) => match type_of_name(env, s@) {
            Some(t) => Some((t, env.ret)),
            None => None,
        },
        Expression::NaturalNumber(_) => Some((Ty::Natural, env.ret)),
        Expression::RealNumber(_) => Some((Ty::Real, env.ret)),
        Expression::BoolValue(_) => Some((Ty::Bool, env.ret)),
        Expression::UnitValue => Some((Ty::Unit, env.ret)),
        Expression::Binary { op, left, right } => match typed(env, *left) {
            Some((lt, r1)) => match typed(env.with_ret(r1), *right) {
                Some((rt, r2)) => match binary_type(env, op, *left, lt, rt) {
                    Some(t) => Some((t, r2)),
                    None => None,
                },
                None => None,
            },
            None => None,
        },
        Expression::Unary { op, operand } => match typed(env, *operand) {
            Some((t, r1)) => match op {
                UnaryOp::Negation => if t is Natural || t is Integer {
                    Some((Ty::Integer, r1))
                } else if t is Real {
                    Some((Ty::Real, r1))
                } else {
                    None
                },
                UnaryOp::Not => if subtype(t, Ty::Bool) {
                    Some((Ty::Bool, r1))
                } else {
                    None
                },
            },
            None => None,
        },
        Expression::Let { name, type_annot, value, expr } => {
            let bound = match type_annot {
                Some(a) => match denoted(a) {
                    Some(at) => match typed(env, *value) {
                        Some((vt, r1)) => if subtype(vt, at) {
                            Some((at, r1))
                        } else {
                            None
                        },
                        None => None,
                    },
                    None => None,
                },
                None => typed(env, *value),
            };
            match bound {
                Some((t, r1)) => typed(env.with_ret(r1).bind(seq![(name.data@, t)]), *expr),
                None => None,
            }
        },
        Expression::Fun { name, args, return_type, expr, in_expr } => match denoted_args(args@, 0) {
            Some(ats) => match denoted_return(return_type) {
                Some(rt) => {
                    let f = (name.data@, Ty::Function(ats, Box::new(rt)));
                    match typed(env.bind(seq![f] + argument_bindings(args@, ats)).with_ret(Some(rt)), *expr) {
                        Some((ft, _)) => if subtype(ft, rt) {
                            typed(env.bind(seq![f]).with_ret(None), *in_expr)
                        } else {
                            None
                        },
                        None => None,
                    }
                },
                None => None,
            },
            None => None,
        },
        Expression::FunctionCall { f, args } => match typed(env, *f) {
            Some((Ty::Function(params, rt), r1)) => if args@.len() == params.len() {
                match typed_args_from(env.with_ret(r1), params, args@, 0) {
                    Some(r2) => Some((*rt, r2)),
                    None => None,
                }
            } else {
                None
            },
            _ => None,
        },
        Expression::If { condition, true_expr, false_expr } => match typed(env, *condition) {
            Some((ct, r1)) => if subtype(ct, Ty::Bool) {
                match typed(env.with_ret(r1), *true_expr) {
                    Some((tt, r2)) => match false_expr {
                        None => Some((Ty::Unit, r2)),
                        Some(fe) => match typed(env.with_ret(r2), *fe) {
                            Some((ft, r3)) => match compatible(tt, ft) {
                                Some(t) => Some((t, r3)),
                                None => None,
                            },
                            None => None,
                        },
                    },
                    None => None,
                }
            } else {
                None
            },
            None => None,
        },
        Expression::While { condition, expr } => match typed(env, *condition) {
            Some((ct, r1)) => if subtype(ct, Ty::Bool) {
                match typed(env.with_ret(r1), *expr) {
                    Some((_, r2)) => Some((Ty::Unit, r2)),
                    None => None,
                }
            } else {
                None
            },
            None => None,
        },
        Expression::Return(value) => match typed(env, *value) {
            Some((vt, r1)) => match r1 {
                Some(rt) => if subtype(vt, rt) {
                    Some((vt, r1))
                } else {
                    None
                },
                None => None,
            },
            None => None,
        },
        Expression::Break => Some((Ty::Unit, env.ret)),
        Expression::Continue => Some((Ty::Unit, env.ret)),
        Expression::List(items) => if items@.len() == 0 {
            Some((Ty::List(Box::new(Ty::Undetermined)), env.ret))
        } else {
            match typed(env, items@[0]) {
                Some((t, r1)) => match typed_items_from(env.with_ret(r1), t, items@, 1) {
                    Some(r2) => Some((Ty::List(Box::new(t)), r2)),
                    None => None,
                },
                None => None,
            }
        },
    }
}

/// Whether each of `es` from index `i` on has a type below the one of
/// `params`; the return type in force afterwards.
pub open spec fn typed_args_from(env: Typing, params: Seq<Ty>, es: Seq<Spanned<Expression>>, i: int) -> Option<Option<Ty>>
    decreases es, es.len() - i,
{
    if 0 <= i < es.len() {
        match typed(env, es[i]) {
            Some((t, r1)) => if subtype(t, params[i]) {
                typed_args_from(env.with_ret(r1), params, es, i + 1)
            } else {
                None
            },
            None => None,
        }
    } else {
        Some(env.ret)
    }
}

/// Whether each of `es` from index `i` on has a type below `t`; the return
/// type in force afterwards.
pub open spec fn typed_items_from(env: Typing, t: Ty, es: Seq<Spanned<Expression>>, i: int) -> Option<Option<Ty>>
    decreases es, es.len() - i,
{
    if 0 <= i < es.len() {
        match typed(env, es[i]) {
            Some((et, r1)) => if subtype(et, t) {
                typed_items_from(env.with_ret(r1), t, es, i + 1)
            } else {
                None
            },
            None => None,
        }
    } else {
        Some(env.ret)
    }
}

proof fn lemma_last_binding(b: Seq<(String, Type)>, name: Seq<char>, n: int)
    requires
        0 <= n <= b.len(),
    ensures
        last_binding(binding_views(b), name, n) == option_view(crate::common::last_entry(b, name, n)),
    decreases n,
{
    if n > 0 {
        lemma_last_binding(b, name, n - 1);
    }
}

proof fn lemma_first_binding(b: Seq<(String, Type)>, name: Seq<char>, i: int)
    requires
        0 <= i <= b.len(),
    ensures
        first_binding(binding_views(b), name, i) == option_view(crate::common::first_entry(b, name, i)),
    decreases b.len() - i,
{
    if i < b.len() {
        lemma_first_binding(b, name, i + 1);
    }
}

/// The position of the first binding of `name` from index `i` on.
pub open spec fn first_binding_position(b: Seq<(Seq<char>, Ty)>, name: Seq<char>, i: int) -> Option<int>
    decreases b.len() - i,
{
    if i < 0 || i >= b.len() {
        None
    } else if b[i].0 == name {
        Some(i)
    } else {
        first_binding_position(b, name, i + 1)
    }
}

/// `b` with `name` bound to `t`: its first binding gets the type, or a new
/// binding goes last.
pub open spec fn define_binding(b: Seq<(Seq<char>, Ty)>, name: Seq<char>, t: Ty) -> Seq<(Seq<char>, Ty)> {
    match first_binding_position(b, name, 0) {
        Some(i) => b.update(i, (b[i].0, t)),
        None => b.push((name, t)),
    }
}

/// The type a `let` binds: the annotation's, which the value's must be
/// below, or else the value's; and the return type in force afterwards.
pub open spec fn let_bound(env: Typing, type_annot: Option<Spanned<TypeExpr>>, value: Spanned<Expression>) -> Option<(Ty, Option<Ty>)> {
    match type_annot {
        Some(a) => match denoted(a) {
            Some(at) => match typed(env, value) {
                Some((vt, r1)) => if subtype(vt, at) {
                    Some((at, r1))
                } else {
                    None
                },
                None => None,
            },
            None => None,
        },
        None => typed(env, value),
    }
}

/// The globals once the functions among `defs` from index `i` on are
/// declared with their signatures.
pub open spec fn declare_functions(globals: Seq<(Seq<char>, Ty)>, defs: Seq<Spanned<TopLevel>>, i: int) -> Option<
    Seq<(Seq<char>, Ty)>,
>
    decreases defs.len() - i,
{
    if 0 <= i < defs.len() {
        match defs[i].data {
            TopLevel::Fun { name, args, return_type, .. } => match denoted_args(args@, 0) {
                Some(ats) => match denoted_return(return_type) {
                    Some(rt) => declare_functions(
                        define_binding(globals, name.data@, Ty::Function(ats, Box::new(rt))),
                        defs,
                        i + 1,
                    ),
                    None => None,
                },
                None => None,
            },
            _ => declare_functions(globals, defs, i + 1),
        }
    } else {
        Some(globals)
    }
}

/// Checking the definitions of `defs` from index `i` on: a `let` binds its
/// global, a function body must have a type below its return type.
pub open spec fn check_definitions(env: Typing, defs: Seq<Spanned<TopLevel>>, i: int) -> Option<Typing>
    decreases defs.len() - i,
{
    if 0 <= i < defs.len() {
        match defs[i].data {
            TopLevel::Let { name, type_annot, value } => match let_bound(env, type_annot, *value) {
                Some((t, r1)) => check_definitions(
                    Typing { globals: define_binding(env.globals, name.data@, t), ret: r1, ..env },
                    defs,
                    i + 1,
                ),
                None => None,
            },
            TopLevel::Fun { name, args, return_type, expr } => match denoted_args(args@, 0) {
                Some(ats) => match denoted_return(return_type) {
                    Some(rt) => {
                        let f = (name.data@, Ty::Function(ats, Box::new(rt)));
                        match typed(env.bind(seq![f] + argument_bindings(args@, ats)).with_ret(Some(rt)), expr) {
                            Some((ft, _)) => if subtype(ft, rt) {
                                check_definitions(env.with_ret(None), defs, i + 1)
                            } else {
                                None
                            },
                            None => None,
                        }
                    },
                    None => None,
                },
                None => None,
            },
        }
    } else {
        Some(env)
    }
}

/// Checking a program: `None` where a definition has a type error, else
/// the return type of `main`, `None` inside where `main` is no function.
pub open spec fn program_outcome(env: Typing, defs: Seq<Spanned<TopLevel>>) -> Option<Option<Ty>> {
    match declare_functions(env.globals, defs, 0) {
        None => None,
        Some(globals) => match check_definitions(Typing { globals, ..env }, defs, 0) {
            None => None,
            Some(done) => Some(
                match first_binding(done.globals, "main"@, 0) {
                    Some(Ty::Function(_, rt)) => Some(*rt),
                    _ => None,
                },
            ),
        },
    }
}

proof fn lemma_first_position(b: Seq<(String, Type)>, name: Seq<char>, i: int)
    requires
        0 <= i <= b.len(),
    ensures
        first_binding_position(binding_views(b), name, i) == crate::common::first_position(b, name, i),
    decreases b.len() - i,
{
    if i < b.len() {
        lemma_first_position(b, name, i + 1);
    }
}

proof fn lemma_first_position_bounds(b: Seq<(String, Type)>, name: Seq<char>, i: int)
    requires
        0 <= i,
    ensures
        crate::common::first_position(b, name, i) is Some ==> i <= crate::common::first_position(b, name, i)->Some_0 < b.len(),
    decreases b.len() - i,
{
    if i < b.len() {
        lemma_first_position_bounds(b, name, i + 1);
    }
}

proof fn lemma_define_binding(b: Seq<(String, Type)>, name: String, value: Type)
    ensures
        binding_views(crate::common::define_entry(b, name, value)) == define_binding(binding_views(b), name@, value@),
{
    lemma_first_position(b, name@, 0);
    match crate::common::first_position(b, name@, 0) {
        Some(i) => {
            lemma_first_position_bounds(b, name@, 0);
            assert(binding_views(b.update(i, (b[i].0, value))) =~= binding_views(b).update(i, (b[i].0@, value@)));
        },
        None => {
            assert(binding_views(b.push((name, value))) =~= binding_views(b).push((name@, value@)));
        },
    }
}

pub struct TypeCheker {
    env: Environment<Type>,
    current_function_return_type: Option<Type>,
}

impl TypeCheker {
    /// The local bindings, innermost last.
    pub closed spec fn locals(&self) -> Seq<(String, Type)> {
        self.env.locals()
    }

    /// The type a global name is bound to.
    pub closed spec fn global(&self, name: Seq<char>) -> Option<Type> {
        self.env.global(name)
    }

    /// The global bindings, in order of definition.
    pub closed spec fn globals(&self) -> Seq<(String, Type)> {
        self.env.globals()
    }

    /// The type `name` stands for: its innermost local binding, else its
    /// global one.
    pub closed spec fn lookup(&self, name: Seq<char>) -> Option<Type> {
        self.env.lookup(name)
    }

    /// What checking the next expression reads.
    pub closed spec fn typing(&self) -> Typing {
        Typing {
            locals: binding_views(self.env.locals()),
            globals: binding_views(self.env.globals()),
            ret: option_view(self.current_function_return_type),
        }
    }

    proof fn lemma_lookup(&self, name: Seq<char>)
        ensures
            type_of_name(self.typing(), name) == option_view(self.lookup(name)),
    {
        self.env.lemma_global(name);
        lemma_last_binding(self.env.locals(), name, self.env.locals().len() as int);
        lemma_first_binding(self.env.globals(), name, 0);
    }

    pub fn new() -> (r: TypeCheker)
        ensures
            r.locals().len() == 0,
            forall|n: Seq<char>| #[trigger] r.global(n) is None,
            r.typing() == (Typing { locals: Seq::empty(), globals: Seq::empty(), ret: None }),
    {
        let r = TypeCheker { env: Environment::new(), current_function_return_type: None };
        proof {
            assert(r.env.globals().len() == 0) by {
                if r.env.globals().len() > 0 {
                    r.env.lemma_global(r.env.globals()[0].0@);
                    assert(r.global(r.env.globals()[0].0@) is None);
                }
            }
            assert(binding_views(r.env.locals()) =~= Seq::<(Seq<char>, Ty)>::empty());
            assert(binding_views(r.env.globals()) =~= Seq::<(Seq<char>, Ty)>::empty());
        }
        r
    }

    /// The type of `e`, or the first type error in it.
    pub fn verify_type(&mut self, e: &Spanned<Expression>) -> (r: TypeCheckResult)
        ensures
            final(self).globals() == old(self).globals(),
            r is Ok ==> final(self).locals() == old(self).locals(),
            match typed(old(self).typing(), *e) {
                Some((t, ret)) => r is Ok && r->Ok_0@ == t && final(self).typing().ret == ret,
                None => r is Err,
            },
            e.data is Identifier && r is Err ==> r->Err_0.data is UndefinedIdentifier,
        decreases *e, 1int,
    {
        match &e.data {
            Expression::Identifier(symbol) => {
                proof {
                    self.lemma_lookup(symbol@);
                }
                match self.env.resolve(symbol) {
                    Some(ty) => Ok(ty.duplicate()),
                    None => Err(TypeCheckError::UndefinedIdentifier(symbol.clone()).spanned(e.span)),
                }
            },
            Expression::NaturalNumber(_) => Ok(Type::Natural),
            Expression::RealNumber(_) => Ok(Type::Real),
            Expression::BoolValue(_) => Ok(Type::Bool),
            Expression::UnitValue => Ok(Type::Unit),
            Expression::Binary { op, left, right } => self.verify_binary_op(op, left, right, Ghost(*e)),
            Expression::Unary { op, operand } => self.verify_unary_op(op, operand, Ghost(*e)),
            Expression::Let { name, type_annot, value, expr } => self.verify_let_expr(
                name,
                type_annot,
                value,
                expr,
                Ghost(*e),
            ),
            Expression::Fun { name, args, return_type, expr, in_expr } => self.verify_fun_expr(
                name,
                args,
                return_type,
                expr,
                in_expr,
                Ghost(*e),
            ),
            Expression::FunctionCall { f, args } => self.verify_function_call(f, args, Ghost(*e)),
            Expression::If { condition, true_expr, false_expr } => self.verify_if_expr(
                condition,
                true_expr,
                false_expr,
                Ghost(*e),
            ),
            Expression::While { condition, expr } => self.verify_while_expr(condition, expr, Ghost(*e)),
            Expression::Return(value) => {
                let vtype = match self.verify_type(value) {
                    Ok(t) => t,
                    Err(x) => return Err(x),
                };
                match &self.current_function_return_type {
                    None => return Err(TypeCheckError::ReturnOutsideOfAFunction.spanned(e.span)),
                    Some(rtype) => match expect_type(&vtype, rtype) {
                        Ok(()) => {},
                        Err(err) => return Err(err.spanned(value.span)),
                    },
                }
                Ok(vtype)
            },
            Expression::Break => Ok(Type::Unit),
            Expression::Continue => Ok(Type::Unit),
            Expression::List(list) => {
                if list.len() == 0 {
                    let empty = Type::List(Box::new(Type::Undetermined));
                    assert(empty@ == Ty::List(Box::new(Ty::Undetermined))) by {
                        reveal_with_fuel(type_view, 2);
                    }
                    return Ok(empty);
                }
                proof {
                    assert(decreases_to!(*e => e.data));
                    assert(decreases_to!(e.data => e.data->List_0));
                    assert(decreases_to!(*list => list@));
                    assert(decreases_to!(list@ => list@[0]));
                }
                let t = match self.verify_type(&list[0]) {
                    Ok(t) => t,
                    Err(x) => return Err(x),
                };
                let ghost start = old(self).typing().with_ret(self.typing().ret);
                assert(self.typing() == start);
                assert(typed(old(self).typing(), *e) == match typed_items_from(start, t@, list@, 1) {
                    Some(r2) => Some((Ty::List(Box::new(t@)), r2)),
                    None => None,
                });
                let mut i: usize = 1;
                while i < list.len()
                    invariant
                        e.data is List,
                        e.data->List_0 == *list,
                        1 <= i <= list@.len(),
                        self.globals() == old(self).globals(),
                        self.locals() == old(self).locals(),
                        self.typing() == old(self).typing().with_ret(self.typing().ret),
                        typed_items_from(start, t@, list@, 1) == typed_items_from(self.typing(), t@, list@, i as int),
                        typed(old(self).typing(), *e) == match typed_items_from(start, t@, list@, 1) {
                            Some(r2) => Some((Ty::List(Box::new(t@)), r2)),
                            None => None,
                        },
                    decreases list@.len() - i,
                {
                    proof {
                        assert(decreases_to!(*e => e.data));
                        assert(decreases_to!(e.data => e.data->List_0));
                        assert(decreases_to!(*list => list@));
                        assert(decreases_to!(list@ => list@[i as int]));
                    }
                    assert(typed_items_from(self.typing(), t@, list@, i as int) == match typed(self.typing(), list@[i as int]) {
                        Some((et, r1)) => if subtype(et, t@) {
                            typed_items_from(self.typing().with_ret(r1), t@, list@, i + 1)
                        } else {
                            None
                        },
                        None => None,
                    });
                    let te = match self.verify_type(&list[i]) {
                        Ok(t) => t,
                        Err(x) => return Err(x),
                    };
                    match expect_type(&te, &t) {
                        Ok(()) => {},
                        Err(err) => return Err(err.spanned(list[i].span)),
                    }
                    i += 1;
                }
                Ok(Type::List(Box::new(t)))
            },
        }
    }

    fn verify_binary_op(
        &mut self,
        op: &BinaryOp,
        left: &Spanned<Expression>,
        right: &Spanned<Expression>,
        parent: Ghost<Spanned<Expression>>,
    ) -> (r: TypeCheckResult)
        requires
            decreases_to!(parent@ => *left),
            decreases_to!(parent@ => *right),
            parent@.data == (Expression::Binary { op: *op, left: Box::new(*left), right: Box::new(*right) }),
        ensures
            final(self).globals() == old(self).globals(),
            r is Ok ==> final(self).locals() == old(self).locals(),
            match typed(old(self).typing(), parent@) {
                Some((t, ret)) => r is Ok && r->Ok_0@ == t && final(self).typing().ret == ret,
                None => r is Err,
            },
        decreases parent@, 0int,
    {
        let ghost env = self.typing();
        let ltype = match self.verify_type(left) {
            Ok(t) => t,
            Err(x) => return Err(x),
        };
        let rtype = match self.verify_type(right) {
            Ok(t) => t,
            Err(x) => return Err(x),
        };
        match op {
            BinaryOp::Addition | BinaryOp::Multiplication | BinaryOp::Subtraction | BinaryOp::Division => {
                match expect_numeric(&ltype) {
                    Ok(()) => {},
                    Err(err) => return Err(err.spanned(left.span)),
                }
                match expect_numeric(&rtype) {
                    Ok(()) => {},
                    Err(err) => return Err(err.spanned(right.span)),
                }
                // Subtyping among the numeric types is total.
                let super_type = if ltype.is_subtype_of(&rtype) {
                    rtype
                } else {
                    ltype
                };
                Ok(
                    match op {
                        BinaryOp::Subtraction => super_type.minimum_type(Type::Integer),
                        BinaryOp::Division => super_type.minimum_type(Type::Real),
                        _ => super_type,
                    },
                )
            },
            BinaryOp::And | BinaryOp::Or => {
                match expect_type(&ltype, &Type::Bool) {
                    Ok(()) => {},
                    Err(err) => return Err(err.spanned(left.span)),
                }
                match expect_type(&rtype, &Type::Bool) {
                    Ok(()) => {},
                    Err(err) => return Err(err.spanned(right.span)),
                }
                Ok(Type::Bool)
            },
            BinaryOp::Equal | BinaryOp::NotEqual => {
                if ltype.is_compatable_with(&rtype).is_none() {
                    return Err(
                        TypeCheckError::EqualityCheckOfDifferentTypes { left: ltype, right: rtype }.start_end(
                            left.span,
                            right.span,
                        ),
                    );
                }
                Ok(Type::Bool)
            },
            BinaryOp::Less | BinaryOp::LessEqual | BinaryOp::Greater | BinaryOp::GreaterEqual => {
                match expect_numeric(&ltype) {
                    Ok(()) => {},
                    Err(err) => return Err(err.spanned(left.span)),
                }
                match expect_numeric(&rtype) {
                    Ok(()) => {},
                    Err(err) => return Err(err.spanned(right.span)),
                }
                Ok(Type::Bool)
            },
            BinaryOp::Sequence => Ok(rtype),
            BinaryOp::Assignment => {
                match &left.data {
                    Expression::Identifier(symbol) => {
                        proof {
                            self.lemma_lookup(symbol@);
                        }
                        match self.env.resolve(symbol) {
                            Some(ty) => match expect_type(&rtype, ty) {
                                Ok(()) => {},
                                Err(err) => return Err(err.spanned(right.span)),
                            },
                            None => {
                                return Err(TypeCheckError::UndefinedIdentifier(symbol.clone()).spanned(left.span));
                            },
                        }
                    },
                    _ => return Err(TypeCheckError::InvalidAssignmentTarget.spanned(left.span)),
                }
                Ok(Type::Unit)
            },
        }
    }

    fn verify_unary_op(&mut self, op: &UnaryOp, operand: &Spanned<Expression>, parent: Ghost<Spanned<Expression>>) -> (r: TypeCheckResult)
        requires
            decreases_to!(parent@ => *operand),
            parent@.data == (Expression::Unary { op: *op, operand: Box::new(*operand) }),
        ensures
            final(self).globals() == old(self).globals(),
            r is Ok ==> final(self).locals() == old(self).locals(),
            match typed(old(self).typing(), parent@) {
                Some((t, ret)) => r is Ok && r->Ok_0@ == t && final(self).typing().ret == ret,
                None => r is Err,
            },
        decreases parent@, 0int,
    {
        let otype = match self.verify_type(operand) {
            Ok(t) => t,
            Err(x) => return Err(x),
        };
        match op {
            UnaryOp::Negation => match otype {
                Type::Natural | Type::Integer => Ok(Type::Integer),
                Type::Real => Ok(Type::Real),
                _ => Err(TypeCheckError::ExpectedNumericType(otype).spanned(operand.span)),
            },
            UnaryOp::Not => {
                match expect_type(&otype, &Type::Bool) {
                    Ok(()) => {},
                    Err(err) => return Err(err.spanned(operand.span)),
                }
                Ok(Type::Bool)
            },
        }
    }

    fn verify_let_expr(
        &mut self,
        name: &Spanned<String>,
        type_annot: &Option<Spanned<TypeExpr>>,
        value: &Spanned<Expression>,
        expr: &Spanned<Expression>,
        parent: Ghost<Spanned<Expression>>,
    ) -> (r: TypeCheckResult)
        requires
            decreases_to!(parent@ => *value),
            decreases_to!(parent@ => *expr),
            parent@.data == (Expression::Let {
                name: *name,
                type_annot: *type_annot,
                value: Box::new(*value),
                expr: Box::new(*expr),
            }),
        ensures
            final(self).globals() == old(self).globals(),
            r is Ok ==> final(self).locals() == old(self).locals(),
            match typed(old(self).typing(), parent@) {
                Some((t, ret)) => r is Ok && r->Ok_0@ == t && final(self).typing().ret == ret,
                None => r is Err,
            },
        decreases parent@, 0int,
    {
        let vtype = match type_annot {
            Some(type_annot) => {
                let annotated_type = match eval_type_e(type_annot) {
                    Ok(t) => t,
                    Err(x) => return Err(x),
                };
                let value_type = match self.verify_type(value) {
                    Ok(t) => t,
                    Err(x) => return Err(x),
                };
                match expect_type(&value_type, &annotated_type) {
                    Ok(()) => {},
                    Err(err) => return Err(err.spanned(value.span)),
                }
                annotated_type
            },
            None => match self.verify_type(value) {
                Ok(t) => t,
                Err(x) => return Err(x),
            },
        };
        let ghost before = self.locals();
        let ghost bound = self.typing().bind(seq![(name.data@, vtype@)]);
        self.env.define_local(name.data.clone(), vtype);
        assert(binding_views(self.env.locals()) =~= binding_views(before).push((name.data@, bound.locals.last().1)));
        assert(self.typing().locals =~= bound.locals);
        assert(self.typing() == bound);
        let texpr = match self.verify_type(expr) {
            Ok(t) => t,
            Err(x) => return Err(x),
        };
        self.env.shallow(1);
        assert(self.locals() =~= before);
        Ok(texpr)
    }

    /// The types that the annotations of `args` denote.
    fn argument_types(args: &Vec<(Spanned<String>, Spanned<TypeExpr>)>) -> (r: Result<Vec<Type>, Spanned<TypeCheckError>>)
        ensures
            r is Ok <==> denoted_args(args@, 0) is Some,
            r is Ok ==> r->Ok_0@.len() == args@.len() && denoted_args(args@, 0)->Some_0 == types_view(r->Ok_0@, 0),
    {
        let mut arg_types: Vec<Type> = Vec::new();
        let mut i: usize = 0;
        while i < args.len()
            invariant
                i <= args@.len(),
                arg_types@.len() == i,
                forall|k: int| 0 <= k < i ==> denoted(#[trigger] args@[k].1) == Some(arg_types@[k]@),
            decreases args@.len() - i,
        {
            match eval_type_e(&args[i].1) {
                Ok(t) => arg_types.push(t),
                Err(x) => {
                    proof {
                        lemma_denoted_args_none(args@, 0, i as int);
                    }
                    return Err(x);
                },
            }
            i += 1;
        }
        proof {
            lemma_denoted_args(args@, 0, arg_types@);
        }
        Ok(arg_types)
    }

    /// The type of a function with arguments `args` and return type
    /// `return_type`, where given.
    fn function_type(args: &Vec<(Spanned<String>, Spanned<TypeExpr>)>, return_type: &Option<Spanned<TypeExpr>>) -> (r: Result<
        (Vec<Type>, Type),
        Spanned<TypeCheckError>,
    >)
        ensures
            r is Ok <==> denoted_args(args@, 0) is Some && denoted_return(*return_type) is Some,
            r is Ok ==> r->Ok_0.0@.len() == args@.len() && denoted_args(args@, 0)->Some_0 == types_view(
                r->Ok_0.0@,
                0,
            ) && denoted_return(*return_type)->Some_0 == r->Ok_0.1@,
    {
        let arg_types = match Self::argument_types(args) {
            Ok(v) => v,
            Err(x) => return Err(x),
        };
        let return_type = match return_type {
            Some(return_type) => match eval_type_e(return_type) {
                Ok(t) => t,
                Err(x) => return Err(x),
            },
            None => Type::Unit,
        };
        Ok((arg_types, return_type))
    }

    /// Binds the argument names of `args` to `arg_types`, in order.
    fn bind_arguments(&mut self, args: &Vec<(Spanned<String>, Spanned<TypeExpr>)>, arg_types: &Vec<Type>)
        requires
            arg_types@.len() == args@.len(),
        ensures
            final(self).locals().len() == old(self).locals().len() + args@.len(),
            final(self).locals().subrange(0, old(self).locals().len() as int) == old(self).locals(),
            final(self).globals() == old(self).globals(),
            final(self).current_function_return_type == old(self).current_function_return_type,
            final(self).typing() == old(self).typing().bind(argument_bindings(args@, types_view(arg_types@, 0))),
    {
        let ghost ats = types_view(arg_types@, 0);
        proof {
            lemma_types_view(arg_types@, 0);
        }
        let mut i: usize = 0;
        while i < args.len()
            invariant
                i <= args@.len(),
                arg_types@.len() == args@.len(),
                ats == types_view(arg_types@, 0),
                ats.len() == arg_types@.len(),
                forall|k: int| 0 <= k < ats.len() ==> #[trigger] ats[k] == arg_types@[k]@,
                self.locals().len() == old(self).locals().len() + i,
                self.locals().subrange(0, old(self).locals().len() as int) == old(self).locals(),
                self.globals() == old(self).globals(),
                self.current_function_return_type == old(self).current_function_return_type,
                binding_views(self.env.locals()) == binding_views(old(self).env.locals()) + argument_bindings(
                    args@,
                    ats,
                ).subrange(0, i as int),
            decreases args@.len() - i,
        {
            let ghost before = self.locals();
            self.env.define_local(args[i].0.data.clone(), arg_types[i].duplicate());
            assert(binding_views(self.env.locals()) =~= binding_views(before).push((args@[i as int].0.data@, ats[i as int])));
            assert(argument_bindings(args@, ats).subrange(0, i + 1) =~= argument_bindings(args@, ats).subrange(0, i as int).push(
                (args@[i as int].0.data@, ats[i as int]),
            ));
            assert(self.locals().subrange(0, old(self).locals().len() as int) =~= before.subrange(
                0,
                old(self).locals().len() as int,
            ));
            assert(binding_views(self.env.locals()) =~= binding_views(old(self).env.locals()) + argument_bindings(
                args@,
                ats,
            ).subrange(0, i + 1));
            i += 1;
        }
        assert(argument_bindings(args@, ats).subrange(0, args@.len() as int) =~= argument_bindings(args@, ats));
    }

    fn verify_fun_expr(
        &mut self,
        name: &Spanned<String>,
        args: &Vec<(Spanned<String>, Spanned<TypeExpr>)>,
        return_type: &Option<Spanned<TypeExpr>>,
        expr: &Spanned<Expression>,
        in_expr: &Spanned<Expression>,
        parent: Ghost<Spanned<Expression>>,
    ) -> (r: TypeCheckResult)
        requires
            decreases_to!(parent@ => *expr),
            decreases_to!(parent@ => *in_expr),
            parent@.data == (Expression::Fun {
                name: *name,
                args: *args,
                return_type: *return_type,
                expr: Box::new(*expr),
                in_expr: Box::new(*in_expr),
            }),
        ensures
            final(self).globals() == old(self).globals(),
            r is Ok ==> final(self).locals() == old(self).locals(),
            match typed(old(self).typing(), parent@) {
                Some((t, ret)) => r is Ok && r->Ok_0@ == t && final(self).typing().ret == ret,
                None => r is Err,
            },
        decreases parent@, 0int,
    {
        let ghost env = self.typing();
        let (arg_types, return_type) = match Self::function_type(args, return_type) {
            Ok(p) => p,
            Err(x) => return Err(x),
        };
        let ghost ats = types_view(arg_types@, 0);
        let copied = copy_types(&arg_types);
        proof {
            lemma_types_view(arg_types@, 0);
            lemma_types_view(copied@, 0);
            assert(types_view(copied@, 0) =~= ats);
        }
        let t = Type::Function { arg_types: copied, return_type: Box::new(return_type.duplicate()) };
        let ghost f = (name.data@, Ty::Function(ats, Box::new(return_type@)));
        let ghost before = self.locals();
        self.env.define_local(name.data.clone(), t);
        assert(binding_views(self.env.locals()) =~= binding_views(before).push(f));
        let ghost with_name = self.locals();
        assert(self.typing().locals =~= env.bind(seq![f]).locals);
        assert(self.typing() == env.bind(seq![f]));
        self.bind_arguments(args, &arg_types);
        self.current_function_return_type = Some(return_type.duplicate());
        assert(env.bind(seq![f]).bind(argument_bindings(args@, ats)).locals =~= env.bind(
            seq![f] + argument_bindings(args@, ats),
        ).locals);
        assert(self.typing() == env.bind(seq![f] + argument_bindings(args@, ats)).with_ret(Some(return_type@)));
        let ftype = match self.verify_type(expr) {
            Ok(t) => t,
            Err(x) => return Err(x),
        };
        self.current_function_return_type = None;
        match expect_type(&ftype, &return_type) {
            Ok(()) => {},
            Err(_) => {
                return Err(
                    TypeCheckError::UnexpectedReturnType {
                        function_name: name.data.clone(),
                        found: ftype,
                        expected: return_type,
                    }.spanned(name.span),
                );
            },
        }
        self.env.shallow(args.len());
        assert(self.locals() =~= with_name);
        assert(self.typing().locals =~= env.bind(seq![f]).locals);
        assert(self.typing() == env.bind(seq![f]).with_ret(None));
        let result = match self.verify_type(in_expr) {
            Ok(t) => t,
            Err(x) => return Err(x),
        };
        self.env.shallow(1);
        assert(self.locals() =~= before);
        Ok(result)
    }

    fn verify_if_expr(
        &mut self,
        condition: &Spanned<Expression>,
        true_expr: &Spanned<Expression>,
        false_expr: &Option<Box<Spanned<Expression>>>,
        parent: Ghost<Spanned<Expression>>,
    ) -> (r: TypeCheckResult)
        requires
            decreases_to!(parent@ => *condition),
            decreases_to!(parent@ => *true_expr),
            false_expr is Some ==> decreases_to!(parent@ => *false_expr->Some_0),
            parent@.data == (Expression::If {
                condition: Box::new(*condition),
                true_expr: Box::new(*true_expr),
                false_expr: *false_expr,
            }),
        ensures
            final(self).globals() == old(self).globals(),
            r is Ok ==> final(self).locals() == old(self).locals(),
            match typed(old(self).typing(), parent@) {
                Some((t, ret)) => r is Ok && r->Ok_0@ == t && final(self).typing().ret == ret,
                None => r is Err,
            },
        decreases parent@, 0int,
    {
        let ctype = match self.verify_type(condition) {
            Ok(t) => t,
            Err(x) => return Err(x),
        };
        match expect_type(&ctype, &Type::Bool) {
            Ok(()) => {},
            Err(err) => return Err(err.spanned(condition.span)),
        }
        let ttrue = match self.verify_type(true_expr) {
            Ok(t) => t,
            Err(x) => return Err(x),
        };
        let tfalse = match false_expr {
            Some(false_expr) => match self.verify_type(false_expr) {
                Ok(t) => t,
                Err(x) => return Err(x),
            },
            None => return Ok(Type::Unit),
        };
        match ttrue.is_compatable_with(&tfalse) {
            Some(t) => Ok(t),
            None => Err(
                TypeCheckError::DifferentTypedBranches { true_branch: ttrue, false_branch: tfalse }.spanned(
                    condition.span,
                ),
            ),
        }
    }

    fn verify_while_expr(
        &mut self,
        condition: &Spanned<Expression>,
        expr: &Spanned<Expression>,
        parent: Ghost<Spanned<Expression>>,
    ) -> (r: TypeCheckResult)
        requires
            decreases_to!(parent@ => *condition),
            decreases_to!(parent@ => *expr),
            parent@.data == (Expression::While { condition: Box::new(*condition), expr: Box::new(*expr) }),
        ensures
            final(self).globals() == old(self).globals(),
            r is Ok ==> final(self).locals() == old(self).locals(),
            match typed(old(self).typing(), parent@) {
                Some((t, ret)) => r is Ok && r->Ok_0@ == t && final(self).typing().ret == ret,
                None => r is Err,
            },
        decreases parent@, 0int,
    {
        let ctype = match self.verify_type(condition) {
            Ok(t) => t,
            Err(x) => return Err(x),
        };
        match expect_type(&ctype, &Type::Bool) {
            Ok(()) => {},
            Err(err) => return Err(err.spanned(condition.span)),
        }
        match self.verify_type(expr) {
            Ok(_) => {},
            Err(x) => return Err(x),
        }
        Ok(Type::Unit)
    }

    fn verify_function_call(
        &mut self,
        f: &Spanned<Expression>,
        args: &Vec<Spanned<Expression>>,
        parent: Ghost<Spanned<Expression>>,
    ) -> (r: TypeCheckResult)
        requires
            decreases_to!(parent@ => *f),
            forall|i: int| 0 <= i < args@.len() ==> decreases_to!(parent@ => #[trigger] args@[i]),
            parent@.data == (Expression::FunctionCall { f: Box::new(*f), args: *args }),
        ensures
            final(self).globals() == old(self).globals(),
            r is Ok ==> final(self).locals() == old(self).locals(),
            match typed(old(self).typing(), parent@) {
                Some((t, ret)) => r is Ok && r->Ok_0@ == t && final(self).typing().ret == ret,
                None => r is Err,
            },
        decreases parent@, 0int,
    {
        let t = match self.verify_type(f) {
            Ok(t) => t,
            Err(x) => return Err(x),
        };
        let ghost start = self.typing();
        let (arg_types, return_type) = match t {
            Type::Function { arg_types, return_type } => (arg_types, return_type),
            other => return Err(TypeCheckError::UncallableType(other).spanned(f.span)),
        };
        let ghost params = types_view(arg_types@, 0);
        proof {
            lemma_types_view(arg_types@, 0);
        }
        assert(typed(old(self).typing(), parent@) == if args@.len() == params.len() {
            match typed_args_from(start, params, args@, 0) {
                Some(r2) => Some(((*return_type)@, r2)),
                None => None,
            }
        } else {
            None
        });
        if args.len() != arg_types.len() {
            return Err(
                TypeCheckError::ArgumentNumberMismatch { found: args.len(), expected: arg_types.len() }.spanned(
                    f.span,
                ),
            );
        }
        let mut i: usize = 0;
        while i < args.len()
            invariant
                i <= args@.len(),
                arg_types@.len() == args@.len(),
                params == types_view(arg_types@, 0),
                params.len() == arg_types@.len(),
                forall|k: int| 0 <= k < params.len() ==> #[trigger] params[k] == arg_types@[k]@,
                forall|k: int| 0 <= k < args@.len() ==> decreases_to!(parent@ => #[trigger] args@[k]),
                self.globals() == old(self).globals(),
                self.locals() == old(self).locals(),
                self.typing() == old(self).typing().with_ret(self.typing().ret),
                typed_args_from(start, params, args@, 0) == typed_args_from(self.typing(), params, args@, i as int),
                typed(old(self).typing(), parent@) == match typed_args_from(start, params, args@, 0) {
                    Some(r2) => Some(((*return_type)@, r2)),
                    None => None,
                },
            decreases args@.len() - i,
        {
            assert(typed_args_from(self.typing(), params, args@, i as int) == match typed(self.typing(), args@[i as int]) {
                Some((t, r1)) => if subtype(t, params[i as int]) {
                    typed_args_from(self.typing().with_ret(r1), params, args@, i + 1)
                } else {
                    None
                },
                None => None,
            });
            let arg_type = match self.verify_type(&args[i]) {
                Ok(t) => t,
                Err(x) => return Err(x),
            };
            match expect_type(&arg_type, &arg_types[i]) {
                Ok(()) => {},
                Err(err) => return Err(err.spanned(args[i].span)),
            }
            i += 1;
        }
        Ok(*return_type)
    }

    /// Checks every definition and gives the return type of `main`.
    /// Functions are declared first, so that any definition may call any
    /// function; each function body is checked against its own signature.
    pub fn verify_top_level(&mut self, definitions: &Vec<Spanned<TopLevel>>) -> (r: TypeCheckResult)
        ensures
            match program_outcome(old(self).typing(), definitions@) {
                Some(Some(t)) => r is Ok && r->Ok_0@ == t,
                Some(None) => r is Err && r->Err_0.data is EntryPointNotProvided && r->Err_0.span == (Span {
                    start: 0,
                    end: 0,
                }),
                None => r is Err,
            },
            r is Ok ==> final(self).global("main"@) is Some,
            r is Ok ==> final(self).global("main"@)->Some_0 is Function,
            r is Ok ==> r->Ok_0@ == type_view(*final(self).global("main"@)->Some_0->return_type),
    {
        let ghost env0 = self.typing();
        let mut i: usize = 0;
        while i < definitions.len()
            invariant
                i <= definitions@.len(),
                env0 == old(self).typing(),
                self.typing() == (Typing { globals: self.typing().globals, ..env0 }),
                declare_functions(env0.globals, definitions@, 0) == declare_functions(
                    self.typing().globals,
                    definitions@,
                    i as int,
                ),
            decreases definitions@.len() - i,
        {
            if let TopLevel::Fun { name, args, return_type, .. } = &definitions[i].data {
                let (arg_types, return_type) = match Self::function_type(args, return_type) {
                    Ok(p) => p,
                    Err(x) => return Err(x),
                };
                let ghost before = self.env.globals();
                let t = Type::Function { arg_types, return_type: Box::new(return_type) };
                let ghost tv = t;
                self.env.define_global(name.data.clone(), t);
                proof {
                    lemma_define_binding(before, name.data, tv);
                }
            }
            i += 1;
        }
        let ghost globals = self.typing().globals;
        assert(self.typing() == (Typing { globals, ..env0 }));
        let mut i: usize = 0;
        while i < definitions.len()
            invariant
                i <= definitions@.len(),
                env0 == old(self).typing(),
                self.typing().locals == env0.locals,
                declare_functions(env0.globals, definitions@, 0) == Some(globals),
                check_definitions(Typing { globals, ..env0 }, definitions@, 0) == check_definitions(
                    self.typing(),
                    definitions@,
                    i as int,
                ),
            decreases definitions@.len() - i,
        {
            let ghost env = self.typing();
            match &definitions[i].data {
                TopLevel::Let { name, type_annot, value } => {
                    let vtype = match type_annot {
                        Some(type_annot) => {
                            let annotated_type = match eval_type_e(type_annot) {
                                Ok(t) => t,
                                Err(x) => return Err(x),
                            };
                            let value_type = match self.verify_type(value) {
                                Ok(t) => t,
                                Err(x) => return Err(x),
                            };
                            match expect_type(&value_type, &annotated_type) {
                                Ok(()) => {},
                                Err(err) => return Err(err.spanned(value.span)),
                            }
                            annotated_type
                        },
                        None => match self.verify_type(value) {
                            Ok(t) => t,
                            Err(x) => return Err(x),
                        },
                    };
                    let ghost before = self.env.globals();
                    let ghost tv = vtype;
                    self.env.define_global(name.data.clone(), vtype);
                    proof {
                        lemma_define_binding(before, name.data, tv);
                    }
                },
                TopLevel::Fun { name, args, return_type, expr } => {
                    let (arg_types, return_type) = match Self::function_type(args, return_type) {
                        Ok(p) => p,
                        Err(x) => return Err(x),
                    };
                    let ghost ats = types_view(arg_types@, 0);
                    let copied = copy_types(&arg_types);
                    proof {
                        lemma_types_view(arg_types@, 0);
                        lemma_types_view(copied@, 0);
                        assert(types_view(copied@, 0) =~= ats);
                    }
                    let t = Type::Function { arg_types: copied, return_type: Box::new(return_type.duplicate()) };
                    let ghost f = (name.data@, Ty::Function(ats, Box::new(return_type@)));
                    let ghost before = self.locals();
                    self.env.define_local(name.data.clone(), t);
                    assert(binding_views(self.env.locals()) =~= binding_views(before).push(f));
                    assert(self.typing().locals =~= env.bind(seq![f]).locals);
                    self.bind_arguments(args, &arg_types);
                    self.current_function_return_type = Some(return_type.duplicate());
                    assert(env.bind(seq![f]).bind(argument_bindings(args@, ats)).locals =~= env.bind(
                        seq![f] + argument_bindings(args@, ats),
                    ).locals);
                    assert(self.typing() == env.bind(seq![f] + argument_bindings(args@, ats)).with_ret(
                        Some(return_type@),
                    ));
                    let ftype = match self.verify_type(expr) {
                        Ok(t) => t,
                        Err(x) => return Err(x),
                    };
                    self.current_function_return_type = None;
                    match expect_type(&ftype, &return_type) {
                        Ok(()) => {},
                        Err(_) => {
                            return Err(
                                TypeCheckError::UnexpectedReturnType {
                                    function_name: name.data.clone(),
                                    found: ftype,
                                    expected: return_type,
                                }.spanned(name.span),
                            );
                        },
                    }
                    self.env.shallow(args.len());
                    self.env.shallow(1);
                    assert(self.locals() =~= before);
                    assert(self.typing() == env.with_ret(None));
                },
            }
            i += 1;
        }
        proof {
            self.env.lemma_global("main"@);
            lemma_first_binding(self.env.globals(), "main"@, 0);
        }
        match self.env.resolve_global(&String::from_str("main")) {
            Some(Type::Function { return_type, .. }) => Ok(return_type.duplicate()),
            _ => Err(TypeCheckError::EntryPointNotProvided.spanned(Span { start: 0, end: 0 })),
        }
    }
}

/// Copies of the types of `ts`.
fn copy_types(ts: &Vec<Type>) -> (r: Vec<Type>)
    ensures
        r@.len() == ts@.len(),
        forall|i: int| 0 <= i < ts@.len() ==> (#[trigger] r@[i])@ == ts@[i]@,
{
    let mut out: Vec<Type> = Vec::new();
    let mut i: usize = 0;
    while i < ts.len()
        invariant
            i <= ts@.len(),
            out@.len() == i,
            forall|k: int| 0 <= k < i ==> (#[trigger] out@[k])@ == ts@[k]@,
        decreases ts@.len() - i,
    {
        out.push(ts[i].duplicate());
        i += 1;
    }
    out
}

proof fn lemma_denoted_args(args: Seq<(Spanned<String>, Spanned<TypeExpr>)>, i: int, ts: Seq<Type>)
    requires
        0 <= i <= args.len(),
        ts.len() == args.len(),
        forall|k: int| i <= k < args.len() ==> denoted(#[trigger] args[k].1) == Some(ts[k]@),
    ensures
        denoted_args(args, i) == Some(types_view(ts, i)),
    decreases args.len() - i,
{
    if i < args.len() {
        lemma_denoted_args(args, i + 1, ts);
    }
}

proof fn lemma_denoted_args_none(args: Seq<(Spanned<String>, Spanned<TypeExpr>)>, i: int, k: int)
    requires
        0 <= i <= k < args.len(),
        denoted(args[k].1) is None,
    ensures
        denoted_args(args, i) is None,
    decreases k - i,
{
    if i < k {
        lemma_denoted_args_none(args, i + 1, k);
    }
}

} // verus!

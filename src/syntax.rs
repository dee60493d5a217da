use vstd::prelude::*;

use crate::path::{Bound, Path, Symbol};

verus! {

/// A span of source text, as start and end offsets.
#[derive(Clone, Copy, Debug, PartialEq, Eq, Structural)]
pub struct SourceLocation {
    pub start: usize,
    pub end: usize,
}

impl SourceLocation {
    pub fn new(start: usize, end: usize) -> (r: SourceLocation)
        ensures
            r.start == start,
            r.end == end,
    {
        SourceLocation { start, end }
    }

    /// The location blamed when no token is at fault: the start of the program.
    pub fn dummy() -> (r: SourceLocation)
        ensures
            r == dummy_location(),
    {
        SourceLocation { start: 0, end: 0 }
    }
}

pub open spec fn dummy_location() -> SourceLocation {
    SourceLocation { start: 0, end: 0 }
}

/// A node together with the place in the source it came from.
#[derive(Debug)]
pub struct Located<T> {
    pub data: T,
    pub location: SourceLocation,
}

impl<T> Located<T> {
    pub fn new(data: T, location: SourceLocation) -> (r: Located<T>)
        ensures
            r.data == data,
            r.location == location,
    {
        Located { data, location }
    }
}

#[derive(Debug)]
pub enum Expression {
    /// A possibly qualified name, `a.b.c`.
    Path { parts: Vec<Symbol>, bound: Bound },
    Application { function: Box<Located<Expression>>, arguments: Vec<Located<Expression>> },
    Projection { expression: Box<Located<Expression>>, field: Located<Symbol> },
    /// `let name = value in body`.
    Let { name: Located<Symbol>, value: Box<Located<Expression>>, body: Box<Located<Expression>> },
    Natural(u64),
}

#[derive(Debug)]
pub enum TypeExpression {
    Path { parts: Vec<Symbol>, bound: Bound },
    Procedure { arguments: Vec<Located<TypeExpression>>, return_type: Box<Located<TypeExpression>> },
    Application { function: Box<Located<TypeExpression>>, arguments: Vec<Located<TypeExpression>> },
}

#[derive(Debug)]
pub enum Pattern {
    /// A variant case, with the names bound to its fields if it has any.
    VariantCase { name: Located<Symbol>, fields: Option<Vec<Located<Symbol>>> },
}

#[derive(Debug)]
pub enum Statement {
    Expression(Located<Expression>),
    Return(Located<Expression>),
    Match { expression: Located<Expression>, branches: Vec<Located<Branch>> },
}

#[derive(Debug)]
pub struct Branch {
    pub pattern: Located<Pattern>,
    pub statement: Box<Located<Statement>>,
}

/// A type parameter and the interfaces it must implement; resolution fills
/// in the path of each interface.
#[derive(Debug)]
pub struct TypeVar {
    pub name: Located<Symbol>,
    pub interfaces: Vec<(Located<Symbol>, Path)>,
}

#[derive(Debug)]
pub struct Argument {
    pub identifier: Located<Symbol>,
    pub type_expression: Located<TypeExpression>,
}

#[derive(Debug)]
pub struct ModuleDeclaration {
    pub name: Located<Symbol>,
}

#[derive(Debug)]
pub struct ImportDeclaration {
    pub name: Located<Symbol>,
}

#[derive(Debug)]
pub struct ProcedureDeclaration {
    pub name: Located<Symbol>,
    pub path: Path,
    pub type_vars: Vec<Located<TypeVar>>,
    pub arguments: Vec<Located<Argument>>,
    pub return_type: Located<TypeExpression>,
    pub body: Vec<Located<Statement>>,
}

#[derive(Debug)]
pub struct VariantCase {
    pub identifier: Located<Symbol>,
    pub arguments: Option<Vec<Located<TypeExpression>>>,
    pub path: Path,
}

/// A constraint on a type parameter of the enclosing variant, and the
/// position of that parameter, which resolution fills in.
#[derive(Debug)]
pub struct Constraint {
    pub type_var: Located<TypeVar>,
    pub index: usize,
}

#[derive(Debug)]
pub struct MethodDeclaration {
    pub name: Located<Symbol>,
    pub constraints: Vec<Constraint>,
    pub instance: Located<Symbol>,
    pub arguments: Vec<Located<Argument>>,
    pub return_type: Located<TypeExpression>,
    pub body: Vec<Located<Statement>>,
}

#[derive(Debug)]
pub struct VariantDeclaration {
    pub name: Located<Symbol>,
    pub path: Path,
    pub type_vars: Vec<Located<Symbol>>,
    pub cases: Vec<Located<VariantCase>>,
    pub methods: Vec<MethodDeclaration>,
}

#[derive(Debug)]
pub struct MethodSignature {
    pub name: Located<Symbol>,
    pub arguments: Vec<Located<Argument>>,
    pub return_type: Located<TypeExpression>,
}

#[derive(Debug)]
pub struct InterfaceDeclaration {
    pub name: Located<Symbol>,
    pub path: Path,
    pub receiver: Located<Symbol>,
    pub methods: Vec<MethodSignature>,
}

#[derive(Debug)]
pub enum Declaration {
    Module(ModuleDeclaration),
    Import(ImportDeclaration),
    Procedure(ProcedureDeclaration),
    Variant(VariantDeclaration),
    Interface(InterfaceDeclaration),
}

/// One compilation unit: its source text and its declarations. `name` is
/// filled in by resolution.
#[derive(Debug)]
pub struct Module {
    pub name: Symbol,
    pub source: String,
    pub declarations: Vec<Declaration>,
}

impl Module {
    pub fn new(source: String, declarations: Vec<Declaration>) -> (r: Module)
        ensures
            r.name == Symbol::spec_dummy(),
            r.source == source,
            r.declarations == declarations,
    {
        Module { name: Symbol::dummy(), source, declarations }
    }

    pub fn source(&self) -> (r: &str)
        ensures
            r@ == self.source@,
    {
        self.source.as_str()
    }
}

} // verus!

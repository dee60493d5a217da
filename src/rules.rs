//! What resolution computes, stated over the syntax tree: the faults each
//! pass detects, in the order it meets them, and how a resolved tree relates
//! to the tree it came from.
use vstd::prelude::*;

use crate::path::{Binding, Symbol};
use crate::syntax::{
    dummy_location,
    Argument, Branch, Declaration, Expression, InterfaceDeclaration, Located, MethodDeclaration,
    MethodSignature, Module, Pattern, ProcedureDeclaration, SourceLocation, Statement, TypeExpression,
    TypeVar, VariantCase, VariantDeclaration, Constraint,
};

verus! {

/// The failures of resolution, as mathematical values.
pub enum Fault {
    ModuleIsNotDeclared,
    ModuleDoesNotExist(Symbol),
    CollidingModuleNames(Symbol),
    DuplicateModuleDeclaration,
    DuplicateProcedureDeclaration(Seq<Symbol>),
    DuplicateTypeDeclaration(Seq<Symbol>),
    DuplicateConstructorDeclaration { constructor: Symbol, variant_path: Seq<Symbol> },
    UnboundValuePath(Seq<Symbol>),
    UnboundTypePath(Seq<Symbol>),
    /// A tree that no parser produces: an empty path, a qualified path that
    /// starts at a local, or a constraint on a name that is not a type
    /// parameter of the enclosing declaration. Resolution requires its absence.
    Malformed,
}

pub open spec fn fault_at(fault: Fault, location: SourceLocation) -> Option<Located<Fault>> {
    Some(Located { data: fault, location })
}

/// The first of two outcomes that is a fault.
pub open spec fn either<T>(a: Option<T>, b: Option<T>) -> Option<T> {
    if a is Some {
        a
    } else {
        b
    }
}

/// Everything a lookup inside one declaration body depends on.
pub struct Scope {
    /// Value bindings in scope, innermost last.
    pub values: Seq<Symbol>,
    /// Type parameters in scope, innermost last.
    pub types: Seq<Symbol>,
    /// Modules imported by the current module.
    pub imports: Seq<Symbol>,
    /// The current module's name.
    pub module: Symbol,
    /// Every declared module.
    pub modules: Seq<Symbol>,
    pub value_names: Seq<Seq<Symbol>>,
    pub type_names: Seq<Seq<Symbol>>,
}

impl Scope {
    pub open spec fn bind_values(self, names: Seq<Symbol>) -> Scope {
        Scope { values: self.values + names, ..self }
    }

    pub open spec fn bind_types(self, names: Seq<Symbol>) -> Scope {
        Scope { types: self.types + names, ..self }
    }
}

/// Distance from the top of `locals` of the innermost binding of `s`.
pub open spec fn innermost(locals: Seq<Symbol>, s: Symbol) -> Option<nat> {
    innermost_below(locals, s, locals.len() as int)
}

/// Distance from the top of `locals` of the innermost binding of `s` among
/// the first `n`.
pub open spec fn innermost_below(locals: Seq<Symbol>, s: Symbol, n: int) -> Option<nat>
    decreases n,
{
    if n <= 0 {
        None
    } else if locals[n - 1] == s {
        Some((locals.len() - n) as nat)
    } else {
        innermost_below(locals, s, n - 1)
    }
}

/// Position of the outermost binding of `s` in `locals` at or after `i`.
pub open spec fn outermost_from(locals: Seq<Symbol>, s: Symbol, i: int) -> Option<nat>
    decreases locals.len() - i,
{
    if i < 0 || i >= locals.len() {
        None
    } else if locals[i] == s {
        Some(i as nat)
    } else {
        outermost_from(locals, s, i + 1)
    }
}

/// Where the first segment of a path leads: a local, an imported module, or
/// else a declaration of the current module.
pub open spec fn base_of(locals: Seq<Symbol>, imports: Seq<Symbol>, module: Symbol, s: Symbol) -> Binding {
    match innermost(locals, s) {
        Some(d) => Binding::Local(d),
        None => Binding::Absolute(global_base(imports, module, s)),
    }
}

pub open spec fn global_base(imports: Seq<Symbol>, module: Symbol, s: Symbol) -> Seq<Symbol> {
    if imports.contains(s) {
        seq![s]
    } else {
        seq![module, s]
    }
}

/// The binding of a path, looked up among `locals` and `names`.
pub open spec fn lookup(
    locals: Seq<Symbol>,
    imports: Seq<Symbol>,
    module: Symbol,
    names: Seq<Seq<Symbol>>,
    parts: Seq<Symbol>,
) -> Option<Binding> {
    if parts.len() == 0 {
        None
    } else {
        match base_of(locals, imports, module, parts[0]) {
            Binding::Local(d) => if parts.len() == 1 {
                Some(Binding::Local(d))
            } else {
                None
            },
            Binding::Absolute(b) => Some(Binding::Absolute(b + parts.drop_first())),
            Binding::Undetermined => None,
        }
    }
}

/// The binding of a value path, or the fault it raises.
pub open spec fn value_outcome(sc: Scope, parts: Seq<Symbol>) -> Result<Binding, Fault> {
    match lookup(sc.values, sc.imports, sc.module, sc.value_names, parts) {
        None => Err(Fault::Malformed),
        Some(Binding::Absolute(full)) => if sc.value_names.contains(full) {
            Ok(Binding::Absolute(full))
        } else {
            Err(Fault::UnboundValuePath(full))
        },
        Some(b) => Ok(b),
    }
}

/// The binding of a type path, or the fault it raises.
pub open spec fn type_outcome(sc: Scope, parts: Seq<Symbol>) -> Result<Binding, Fault> {
    match lookup(sc.types, sc.imports, sc.module, sc.type_names, parts) {
        None => Err(Fault::Malformed),
        Some(Binding::Absolute(full)) => if sc.type_names.contains(full) {
            Ok(Binding::Absolute(full))
        } else {
            Err(Fault::UnboundTypePath(full))
        },
        Some(b) => Ok(b),
    }
}

/// The path of an interface named by one segment, or the fault it raises.
pub open spec fn interface_outcome(sc: Scope, s: Symbol) -> Result<Seq<Symbol>, Fault> {
    let p = global_base(sc.imports, sc.module, s);
    if sc.type_names.contains(p) {
        Ok(p)
    } else {
        Err(Fault::UnboundTypePath(p))
    }
}

pub open spec fn names_of(located: Seq<Located<Symbol>>) -> Seq<Symbol> {
    located.map_values(|l: Located<Symbol>| l.data)
}

pub open spec fn argument_names(arguments: Seq<Located<Argument>>) -> Seq<Symbol> {
    arguments.map_values(|a: Located<Argument>| a.data.identifier.data)
}

pub open spec fn type_var_names(type_vars: Seq<Located<TypeVar>>) -> Seq<Symbol> {
    type_vars.map_values(|t: Located<TypeVar>| t.data.name.data)
}

pub open spec fn pattern_names(p: Pattern) -> Seq<Symbol> {
    match p {
        Pattern::VariantCase { fields, .. } => match fields {
            Some(fs) => names_of(fs@),
            None => Seq::empty(),
        },
    }
}

// ---------------------------------------------------------------------------
// Expressions

pub open spec fn expr_fault(sc: Scope, e: Located<Expression>) -> Option<Located<Fault>>
    decreases e, 0int,
{
    match e.data {
        Expression::Path { parts, .. } => match value_outcome(sc, parts@) {
            Ok(_) => None,
            Err(f) => fault_at(f, e.location),
        },
        Expression::Application { function, arguments } => either(
            expr_fault(sc, *function),
            exprs_fault(sc, arguments@, 0),
        ),
        Expression::Projection { expression, .. } => expr_fault(sc, *expression),
        Expression::Let { name, value, body } => either(
            expr_fault(sc, *value),
            expr_fault(sc.bind_values(seq![name.data]), *body),
        ),
        Expression::Natural(_) => None,
    }
}

pub open spec fn exprs_fault(sc: Scope, es: Seq<Located<Expression>>, i: int) -> Option<Located<Fault>>
    decreases es, es.len() - i,
{
    if 0 <= i < es.len() {
        either(expr_fault(sc, es[i]), exprs_fault(sc, es, i + 1))
    } else {
        None
    }
}

pub open spec fn expr_resolved(sc: Scope, old: Located<Expression>, new: Located<Expression>) -> bool
    decreases old, 0int,
{
    &&& new.location == old.location
    &&& match old.data {
        Expression::Path { parts, .. } => match new.data {
            Expression::Path { parts: p, bound } => p@ == parts@ && value_outcome(sc, parts@)
                == Ok::<Binding, Fault>(bound@),
            _ => false,
        },
        Expression::Application { function, arguments } => match new.data {
            Expression::Application { function: f, arguments: a } => expr_resolved(
                sc,
                *function,
                *f,
            ) && exprs_resolved(sc, arguments@, a@),
            _ => false,
        },
        Expression::Projection { expression, field } => match new.data {
            Expression::Projection { expression: x, field: y } => y == field && expr_resolved(
                sc,
                *expression,
                *x,
            ),
            _ => false,
        },
        Expression::Let { name, value, body } => match new.data {
            Expression::Let { name: n, value: v, body: b } => n == name && expr_resolved(
                sc,
                *value,
                *v,
            ) && expr_resolved(sc.bind_values(seq![name.data]), *body, *b),
            _ => false,
        },
        Expression::Natural(k) => new.data == Expression::Natural(k),
    }
}

pub open spec fn exprs_resolved(sc: Scope, olds: Seq<Located<Expression>>, news: Seq<Located<Expression>>) -> bool
    decreases olds, olds.len() + 1,
{
    &&& olds.len() == news.len()
    &&& exprs_resolved_from(sc, olds, news, 0)
}

/// Each of `news` from index `i` on is the one of `olds` resolved.
pub open spec fn exprs_resolved_from(
    sc: Scope,
    olds: Seq<Located<Expression>>,
    news: Seq<Located<Expression>>,
    i: int,
) -> bool
    decreases olds, olds.len() - i,
{
    if 0 <= i < olds.len() {
        expr_resolved(sc, olds[i], news[i]) && exprs_resolved_from(sc, olds, news, i + 1)
    } else {
        true
    }
}

// ---------------------------------------------------------------------------
// Type expressions

pub open spec fn type_fault(sc: Scope, t: Located<TypeExpression>) -> Option<Located<Fault>>
    decreases t, 0int,
{
    match t.data {
        TypeExpression::Path { parts, .. } => match type_outcome(sc, parts@) {
            Ok(_) => None,
            Err(f) => fault_at(f, t.location),
        },
        TypeExpression::Procedure { arguments, return_type } => either(
            types_fault(sc, arguments@, 0),
            type_fault(sc, *return_type),
        ),
        TypeExpression::Application { function, arguments } => either(
            type_fault(sc, *function),
            types_fault(sc, arguments@, 0),
        ),
    }
}

pub open spec fn types_fault(sc: Scope, ts: Seq<Located<TypeExpression>>, i: int) -> Option<Located<Fault>>
    decreases ts, ts.len() - i,
{
    if 0 <= i < ts.len() {
        either(type_fault(sc, ts[i]), types_fault(sc, ts, i + 1))
    } else {
        None
    }
}

pub open spec fn type_resolved(sc: Scope, old: Located<TypeExpression>, new: Located<TypeExpression>) -> bool
    decreases old, 0int,
{
    &&& new.location == old.location
    &&& match old.data {
        TypeExpression::Path { parts, .. } => match new.data {
            TypeExpression::Path { parts: p, bound } => p@ == parts@ && type_outcome(sc, parts@)
                == Ok::<Binding, Fault>(bound@),
            _ => false,
        },
        TypeExpression::Procedure { arguments, return_type } => match new.data {
            TypeExpression::Procedure { arguments: a, return_type: r } => types_resolved(
                sc,
                arguments@,
                a@,
            ) && type_resolved(sc, *return_type, *r),
            _ => false,
        },
        TypeExpression::Application { function, arguments } => match new.data {
            TypeExpression::Application { function: f, arguments: a } => type_resolved(
                sc,
                *function,
                *f,
            ) && types_resolved(sc, arguments@, a@),
            _ => false,
        },
    }
}

pub open spec fn types_resolved(sc: Scope, olds: Seq<Located<TypeExpression>>, news: Seq<Located<TypeExpression>>) -> bool
    decreases olds, olds.len() + 1,
{
    &&& olds.len() == news.len()
    &&& types_resolved_from(sc, olds, news, 0)
}

/// Each of `news` from index `i` on is the one of `olds` resolved.
pub open spec fn types_resolved_from(
    sc: Scope,
    olds: Seq<Located<TypeExpression>>,
    news: Seq<Located<TypeExpression>>,
    i: int,
) -> bool
    decreases olds, olds.len() - i,
{
    if 0 <= i < olds.len() {
        type_resolved(sc, olds[i], news[i]) && types_resolved_from(sc, olds, news, i + 1)
    } else {
        true
    }
}

// ---------------------------------------------------------------------------
// Statements

pub open spec fn stmt_fault(sc: Scope, s: Located<Statement>) -> Option<Located<Fault>>
    decreases s, 0int,
{
    match s.data {
        Statement::Expression(e) => expr_fault(sc, e),
        Statement::Return(e) => expr_fault(sc, e),
        Statement::Match { expression, branches } => either(
            expr_fault(sc, expression),
            branches_fault(sc, branches@, 0),
        ),
    }
}

pub open spec fn branch_fault(sc: Scope, b: Located<Branch>) -> Option<Located<Fault>>
    decreases b, 0int,
{
    stmt_fault(sc.bind_values(pattern_names(b.data.pattern.data)), *b.data.statement)
}

pub open spec fn branches_fault(sc: Scope, bs: Seq<Located<Branch>>, i: int) -> Option<Located<Fault>>
    decreases bs, bs.len() - i,
{
    if 0 <= i < bs.len() {
        either(branch_fault(sc, bs[i]), branches_fault(sc, bs, i + 1))
    } else {
        None
    }
}

pub open spec fn stmts_fault(sc: Scope, ss: Seq<Located<Statement>>, i: int) -> Option<Located<Fault>>
    decreases ss.len() - i,
{
    if 0 <= i < ss.len() {
        either(stmt_fault(sc, ss[i]), stmts_fault(sc, ss, i + 1))
    } else {
        None
    }
}

pub open spec fn stmt_resolved(sc: Scope, old: Located<Statement>, new: Located<Statement>) -> bool
    decreases old, 0int,
{
    &&& new.location == old.location
    &&& match old.data {
        Statement::Expression(e) => match new.data {
            Statement::Expression(x) => expr_resolved(sc, e, x),
            _ => false,
        },
        Statement::Return(e) => match new.data {
            Statement::Return(x) => expr_resolved(sc, e, x),
            _ => false,
        },
        Statement::Match { expression, branches } => match new.data {
            Statement::Match { expression: x, branches: b } => expr_resolved(sc, expression, x)
                && branches_resolved(sc, branches@, b@),
            _ => false,
        },
    }
}

pub open spec fn branch_resolved(sc: Scope, old: Located<Branch>, new: Located<Branch>) -> bool
    decreases old, 0int,
{
    &&& new.location == old.location
    &&& new.data.pattern == old.data.pattern
    &&& stmt_resolved(
        sc.bind_values(pattern_names(old.data.pattern.data)),
        *old.data.statement,
        *new.data.statement,
    )
}

pub open spec fn branches_resolved(sc: Scope, olds: Seq<Located<Branch>>, news: Seq<Located<Branch>>) -> bool
    decreases olds, olds.len() + 1,
{
    &&& olds.len() == news.len()
    &&& branches_resolved_from(sc, olds, news, 0)
}

/// Each of `news` from index `i` on is the one of `olds` resolved.
pub open spec fn branches_resolved_from(
    sc: Scope,
    olds: Seq<Located<Branch>>,
    news: Seq<Located<Branch>>,
    i: int,
) -> bool
    decreases olds, olds.len() - i,
{
    if 0 <= i < olds.len() {
        branch_resolved(sc, olds[i], news[i]) && branches_resolved_from(sc, olds, news, i + 1)
    } else {
        true
    }
}

pub open spec fn stmts_resolved(sc: Scope, olds: Seq<Located<Statement>>, news: Seq<Located<Statement>>) -> bool {
    &&& olds.len() == news.len()
    &&& forall|i: int| 0 <= i < olds.len() ==> #[trigger] stmt_resolved(sc, olds[i], news[i])
}

// ---------------------------------------------------------------------------
// Type parameters, arguments and constraints

pub open spec fn interfaces_fault(sc: Scope, is: Seq<(Located<Symbol>, crate::path::Path)>, i: int) -> Option<Located<Fault>>
    decreases is.len() - i,
{
    if 0 <= i < is.len() {
        either(
            match interface_outcome(sc, is[i].0.data) {
                Ok(_) => None,
                Err(f) => fault_at(f, is[i].0.location),
            },
            interfaces_fault(sc, is, i + 1),
        )
    } else {
        None
    }
}

pub open spec fn type_var_fault(sc: Scope, tv: TypeVar) -> Option<Located<Fault>> {
    interfaces_fault(sc, tv.interfaces@, 0)
}

pub open spec fn type_var_resolved(sc: Scope, old: TypeVar, new: TypeVar) -> bool {
    &&& new.name == old.name
    &&& new.interfaces@.len() == old.interfaces@.len()
    &&& forall|i: int| 0 <= i < old.interfaces@.len() ==> (#[trigger] new.interfaces@[i]).0 == old.interfaces@[i].0
        && interface_outcome(sc, old.interfaces@[i].0.data) == Ok::<Seq<Symbol>, Fault>(new.interfaces@[i].1@)
}

pub open spec fn type_vars_fault(sc: Scope, tvs: Seq<Located<TypeVar>>, i: int) -> Option<Located<Fault>>
    decreases tvs.len() - i,
{
    if 0 <= i < tvs.len() {
        either(type_var_fault(sc, tvs[i].data), type_vars_fault(sc, tvs, i + 1))
    } else {
        None
    }
}

pub open spec fn type_vars_resolved(sc: Scope, olds: Seq<Located<TypeVar>>, news: Seq<Located<TypeVar>>) -> bool {
    &&& olds.len() == news.len()
    &&& forall|i: int| 0 <= i < olds.len() ==> (#[trigger] news[i]).location == olds[i].location
        && type_var_resolved(sc, olds[i].data, news[i].data)
}

pub open spec fn args_fault(sc: Scope, args: Seq<Located<Argument>>, i: int) -> Option<Located<Fault>>
    decreases args.len() - i,
{
    if 0 <= i < args.len() {
        either(type_fault(sc, args[i].data.type_expression), args_fault(sc, args, i + 1))
    } else {
        None
    }
}

pub open spec fn args_resolved(sc: Scope, olds: Seq<Located<Argument>>, news: Seq<Located<Argument>>) -> bool {
    &&& olds.len() == news.len()
    &&& forall|i: int| 0 <= i < olds.len() ==> (#[trigger] news[i]).location == olds[i].location
        && news[i].data.identifier == olds[i].data.identifier
        && type_resolved(sc, olds[i].data.type_expression, news[i].data.type_expression)
}

pub open spec fn constraint_fault(sc: Scope, c: Constraint) -> Option<Located<Fault>> {
    match outermost_from(sc.types, c.type_var.data.name.data, 0) {
        None => fault_at(Fault::Malformed, c.type_var.location),
        Some(_) => type_var_fault(sc, c.type_var.data),
    }
}

pub open spec fn constraint_resolved(sc: Scope, old: Constraint, new: Constraint) -> bool {
    &&& new.type_var.location == old.type_var.location
    &&& type_var_resolved(sc, old.type_var.data, new.type_var.data)
    &&& outermost_from(sc.types, old.type_var.data.name.data, 0) == Some(new.index as nat)
}

pub open spec fn constraints_fault(sc: Scope, cs: Seq<Constraint>, i: int) -> Option<Located<Fault>>
    decreases cs.len() - i,
{
    if 0 <= i < cs.len() {
        either(constraint_fault(sc, cs[i]), constraints_fault(sc, cs, i + 1))
    } else {
        None
    }
}

pub open spec fn constraints_resolved(sc: Scope, olds: Seq<Constraint>, news: Seq<Constraint>) -> bool {
    &&& olds.len() == news.len()
    &&& forall|i: int| 0 <= i < olds.len() ==> #[trigger] constraint_resolved(sc, olds[i], news[i])
}

// ---------------------------------------------------------------------------
// Declarations

pub open spec fn procedure_fault(sc: Scope, p: ProcedureDeclaration) -> Option<Located<Fault>> {
    let tsc = sc.bind_types(type_var_names(p.type_vars@));
    either(
        type_vars_fault(sc, p.type_vars@, 0),
        either(
            args_fault(tsc, p.arguments@, 0),
            either(
                type_fault(tsc, p.return_type),
                stmts_fault(tsc.bind_values(argument_names(p.arguments@)), p.body@, 0),
            ),
        ),
    )
}

pub open spec fn procedure_resolved(sc: Scope, old: ProcedureDeclaration, new: ProcedureDeclaration) -> bool {
    let tsc = sc.bind_types(type_var_names(old.type_vars@));
    &&& new.name == old.name
    &&& type_vars_resolved(sc, old.type_vars@, new.type_vars@)
    &&& args_resolved(tsc, old.arguments@, new.arguments@)
    &&& type_resolved(tsc, old.return_type, new.return_type)
    &&& stmts_resolved(tsc.bind_values(argument_names(old.arguments@)), old.body@, new.body@)
}

pub open spec fn case_arguments(cases: Seq<Located<VariantCase>>) -> Seq<Option<Vec<Located<TypeExpression>>>> {
    cases.map_values(|c: Located<VariantCase>| c.data.arguments)
}

pub open spec fn case_fault(sc: Scope, arguments: Option<Vec<Located<TypeExpression>>>) -> Option<Located<Fault>> {
    match arguments {
        Some(ts) => types_fault(sc, ts@, 0),
        None => None,
    }
}

pub open spec fn cases_fault(sc: Scope, cases: Seq<Option<Vec<Located<TypeExpression>>>>, i: int) -> Option<Located<Fault>>
    decreases cases.len() - i,
{
    if 0 <= i < cases.len() {
        either(case_fault(sc, cases[i]), cases_fault(sc, cases, i + 1))
    } else {
        None
    }
}

pub open spec fn case_resolved(sc: Scope, old: Located<VariantCase>, new: Located<VariantCase>) -> bool {
    &&& new.location == old.location
    &&& new.data.identifier == old.data.identifier
    &&& match old.data.arguments {
        Some(ts) => new.data.arguments is Some && types_resolved(sc, ts@, new.data.arguments->Some_0@),
        None => new.data.arguments is None,
    }
}

pub open spec fn cases_resolved(sc: Scope, olds: Seq<Located<VariantCase>>, news: Seq<Located<VariantCase>>) -> bool {
    &&& olds.len() == news.len()
    &&& forall|i: int| 0 <= i < olds.len() ==> #[trigger] case_resolved(sc, olds[i], news[i])
}

pub open spec fn method_fault(sc: Scope, m: MethodDeclaration) -> Option<Located<Fault>> {
    either(
        constraints_fault(sc, m.constraints@, 0),
        either(
            args_fault(sc, m.arguments@, 0),
            either(
                type_fault(sc, m.return_type),
                stmts_fault(sc.bind_values(seq![m.instance.data] + argument_names(m.arguments@)), m.body@, 0),
            ),
        ),
    )
}

pub open spec fn method_resolved(sc: Scope, old: MethodDeclaration, new: MethodDeclaration) -> bool {
    &&& new.name == old.name
    &&& new.instance == old.instance
    &&& constraints_resolved(sc, old.constraints@, new.constraints@)
    &&& args_resolved(sc, old.arguments@, new.arguments@)
    &&& type_resolved(sc, old.return_type, new.return_type)
    &&& stmts_resolved(
        sc.bind_values(seq![old.instance.data] + argument_names(old.arguments@)),
        old.body@,
        new.body@,
    )
}

pub open spec fn methods_fault(sc: Scope, ms: Seq<MethodDeclaration>, i: int) -> Option<Located<Fault>>
    decreases ms.len() - i,
{
    if 0 <= i < ms.len() {
        either(method_fault(sc, ms[i]), methods_fault(sc, ms, i + 1))
    } else {
        None
    }
}

pub open spec fn methods_resolved(sc: Scope, olds: Seq<MethodDeclaration>, news: Seq<MethodDeclaration>) -> bool {
    &&& olds.len() == news.len()
    &&& forall|i: int| 0 <= i < olds.len() ==> #[trigger] method_resolved(sc, olds[i], news[i])
}

pub open spec fn variant_fault(sc: Scope, v: VariantDeclaration) -> Option<Located<Fault>> {
    let tsc = sc.bind_types(names_of(v.type_vars@));
    either(cases_fault(tsc, case_arguments(v.cases@), 0), methods_fault(tsc, v.methods@, 0))
}

pub open spec fn variant_resolved(sc: Scope, old: VariantDeclaration, new: VariantDeclaration) -> bool {
    let tsc = sc.bind_types(names_of(old.type_vars@));
    &&& new.name == old.name
    &&& new.type_vars == old.type_vars
    &&& cases_resolved(tsc, old.cases@, new.cases@)
    &&& methods_resolved(tsc, old.methods@, new.methods@)
}

pub open spec fn signature_fault(sc: Scope, m: MethodSignature) -> Option<Located<Fault>> {
    either(args_fault(sc, m.arguments@, 0), type_fault(sc, m.return_type))
}

pub open spec fn signatures_fault(sc: Scope, ms: Seq<MethodSignature>, i: int) -> Option<Located<Fault>>
    decreases ms.len() - i,
{
    if 0 <= i < ms.len() {
        either(signature_fault(sc, ms[i]), signatures_fault(sc, ms, i + 1))
    } else {
        None
    }
}

pub open spec fn signature_resolved(sc: Scope, old: MethodSignature, new: MethodSignature) -> bool {
    &&& new.name == old.name
    &&& args_resolved(sc, old.arguments@, new.arguments@)
    &&& type_resolved(sc, old.return_type, new.return_type)
}

pub open spec fn signatures_resolved(sc: Scope, olds: Seq<MethodSignature>, news: Seq<MethodSignature>) -> bool {
    &&& olds.len() == news.len()
    &&& forall|i: int| 0 <= i < olds.len() ==> #[trigger] signature_resolved(sc, olds[i], news[i])
}

pub open spec fn interface_fault(sc: Scope, d: InterfaceDeclaration) -> Option<Located<Fault>> {
    signatures_fault(sc.bind_types(seq![d.receiver.data]), d.methods@, 0)
}

pub open spec fn interface_resolved(sc: Scope, old: InterfaceDeclaration, new: InterfaceDeclaration) -> bool {
    &&& new.name == old.name
    &&& new.receiver == old.receiver
    &&& signatures_resolved(sc.bind_types(seq![old.receiver.data]), old.methods@, new.methods@)
}

/// The fault that resolving the body of `d` raises, if any.
pub open spec fn declaration_fault(sc: Scope, d: Declaration) -> Option<Located<Fault>> {
    match d {
        Declaration::Module(_) => None,
        Declaration::Import(i) => if sc.modules.contains(i.name.data) {
            None
        } else {
            fault_at(Fault::ModuleDoesNotExist(i.name.data), i.name.location)
        },
        Declaration::Procedure(p) => procedure_fault(sc, p),
        Declaration::Variant(v) => variant_fault(sc, v),
        Declaration::Interface(i) => interface_fault(sc, i),
    }
}

/// `new` is `old` with every occurrence in its body resolved in `sc`; the
/// paths of declarations are not compared here (see `declaration_named`).
pub open spec fn declaration_resolved(sc: Scope, old: Declaration, new: Declaration) -> bool {
    match old {
        Declaration::Module(_) => new == old,
        Declaration::Import(_) => new == old,
        Declaration::Procedure(p) => match new {
            Declaration::Procedure(q) => procedure_resolved(sc, p, q),
            _ => false,
        },
        Declaration::Variant(v) => match new {
            Declaration::Variant(w) => variant_resolved(sc, v, w),
            _ => false,
        },
        Declaration::Interface(i) => match new {
            Declaration::Interface(j) => interface_resolved(sc, i, j),
            _ => false,
        },
    }
}

pub open spec fn declarations_fault(sc: Scope, ds: Seq<Declaration>, i: int) -> Option<Located<Fault>>
    decreases ds.len() - i,
{
    if 0 <= i < ds.len() {
        either(declaration_fault(sc, ds[i]), declarations_fault(sc, ds, i + 1))
    } else {
        None
    }
}

pub open spec fn declarations_resolved(sc: Scope, olds: Seq<Declaration>, news: Seq<Declaration>) -> bool {
    &&& olds.len() == news.len()
    &&& forall|i: int| 0 <= i < olds.len() ==> #[trigger] declaration_resolved(sc, olds[i], news[i])
}

/// The path fields of `new` are those of `old`.
pub open spec fn paths_kept(old: Declaration, new: Declaration) -> bool {
    match old {
        Declaration::Procedure(p) => match new {
            Declaration::Procedure(q) => q.path == p.path,
            _ => true,
        },
        Declaration::Variant(v) => match new {
            Declaration::Variant(w) => w.path == v.path && w.cases@.len() == v.cases@.len() && forall|
                i: int,
            |
                0 <= i < v.cases@.len() ==> (#[trigger] w.cases@[i]).data.path == v.cases@[i].data.path,
            _ => true,
        },
        Declaration::Interface(i) => match new {
            Declaration::Interface(j) => j.path == i.path,
            _ => true,
        },
        _ => true,
    }
}

// ---------------------------------------------------------------------------
// Pass one: module names and imports

/// Position of the first module declaration at or after `i`.
pub open spec fn next_module_declaration(ds: Seq<Declaration>, i: int) -> Option<int>
    decreases ds.len() - i,
{
    if i < 0 || i >= ds.len() {
        None
    } else if ds[i] is Module {
        Some(i)
    } else {
        next_module_declaration(ds, i + 1)
    }
}

/// The fault that collecting a module with declarations `ds` raises, given
/// the names of the modules collected before it.
pub open spec fn module_fault(known: Seq<Symbol>, ds: Seq<Declaration>) -> Option<Located<Fault>> {
    match next_module_declaration(ds, 0) {
        None => fault_at(Fault::ModuleIsNotDeclared, dummy_location()),
        Some(f) => {
            let name = ds[f]->Module_0.name;
            if known.contains(name.data) {
                fault_at(Fault::CollidingModuleNames(name.data), name.location)
            } else {
                match next_module_declaration(ds, f + 1) {
                    Some(s) => fault_at(Fault::DuplicateModuleDeclaration, ds[s]->Module_0.name.location),
                    None => None,
                }
            }
        },
    }
}

/// The name a module declares for itself.
pub open spec fn module_name(ds: Seq<Declaration>) -> Symbol {
    ds[next_module_declaration(ds, 0)->Some_0]->Module_0.name.data
}

/// The modules imported among the first `k` declarations, in order.
pub open spec fn imports_upto(ds: Seq<Declaration>, k: int) -> Seq<Symbol>
    decreases k,
{
    if k <= 0 {
        Seq::empty()
    } else if ds[k - 1] is Import {
        imports_upto(ds, k - 1).push(ds[k - 1]->Import_0.name.data)
    } else {
        imports_upto(ds, k - 1)
    }
}

pub open spec fn imports_of(ds: Seq<Declaration>) -> Seq<Symbol> {
    imports_upto(ds, ds.len() as int)
}

/// Pass one from module `i` on, with the names collected so far: the names
/// of all modules, or the first fault and the module it is in.
pub open spec fn collect_modules(ms: Seq<Module>, i: int, known: Seq<Symbol>) -> Result<Seq<Symbol>, (Located<Fault>, int)>
    decreases ms.len() - i,
{
    if i < 0 || i >= ms.len() {
        Ok(known)
    } else {
        match module_fault(known, ms[i].declarations@) {
            Some(f) => Err((f, i)),
            None => collect_modules(ms, i + 1, known.push(module_name(ms[i].declarations@))),
        }
    }
}

// ---------------------------------------------------------------------------
// Pass two: qualified names of declarations

/// The global name tables.
pub struct Tables {
    pub values: Seq<Seq<Symbol>>,
    pub types: Seq<Seq<Symbol>>,
}

pub open spec fn collect_cases(
    values: Seq<Seq<Symbol>>,
    variant: Seq<Symbol>,
    cases: Seq<Located<VariantCase>>,
    i: int,
) -> Result<Seq<Seq<Symbol>>, Located<Fault>>
    decreases cases.len() - i,
{
    if i < 0 || i >= cases.len() {
        Ok(values)
    } else {
        let c = cases[i].data.identifier;
        let p = variant.push(c.data);
        if values.contains(p) {
            Err(
                Located {
                    data: Fault::DuplicateConstructorDeclaration { constructor: c.data, variant_path: variant },
                    location: c.location,
                },
            )
        } else {
            collect_cases(values.push(p), variant, cases, i + 1)
        }
    }
}

pub open spec fn collect_declaration(t: Tables, module: Symbol, d: Declaration) -> Result<Tables, Located<Fault>> {
    match d {
        Declaration::Procedure(p) => {
            let path = seq![module, p.name.data];
            if t.values.contains(path) {
                Err(Located { data: Fault::DuplicateProcedureDeclaration(path), location: p.name.location })
            } else {
                Ok(Tables { values: t.values.push(path), types: t.types })
            }
        },
        Declaration::Variant(v) => {
            let path = seq![module, v.name.data];
            if t.types.contains(path) {
                Err(Located { data: Fault::DuplicateTypeDeclaration(path), location: v.name.location })
            } else {
                match collect_cases(t.values, path, v.cases@, 0) {
                    Err(e) => Err(e),
                    Ok(values) => Ok(Tables { values, types: t.types.push(path) }),
                }
            }
        },
        Declaration::Interface(i) => {
            let path = seq![module, i.name.data];
            if t.types.contains(path) {
                Err(Located { data: Fault::DuplicateTypeDeclaration(path), location: i.name.location })
            } else {
                Ok(Tables { values: t.values, types: t.types.push(path) })
            }
        },
        _ => Ok(t),
    }
}

pub open spec fn collect_declarations(t: Tables, module: Symbol, ds: Seq<Declaration>, i: int) -> Result<Tables, Located<Fault>>
    decreases ds.len() - i,
{
    if i < 0 || i >= ds.len() {
        Ok(t)
    } else {
        match collect_declaration(t, module, ds[i]) {
            Err(e) => Err(e),
            Ok(t2) => collect_declarations(t2, module, ds, i + 1),
        }
    }
}

/// Pass two from module `i` on.
pub open spec fn collect_names(t: Tables, names: Seq<Symbol>, ms: Seq<Module>, i: int) -> Result<Tables, (Located<Fault>, int)>
    decreases ms.len() - i,
{
    if i < 0 || i >= ms.len() {
        Ok(t)
    } else {
        match collect_declarations(t, names[i], ms[i].declarations@, 0) {
            Err(e) => Err((e, i)),
            Ok(t2) => collect_names(t2, names, ms, i + 1),
        }
    }
}

/// The qualified paths that pass two gives `new`, the declaration `old`.
pub open spec fn declaration_named(module: Symbol, old: Declaration, new: Declaration) -> bool {
    match old {
        Declaration::Procedure(p) => match new {
            Declaration::Procedure(q) => q.path@ == seq![module, p.name.data],
            _ => false,
        },
        Declaration::Variant(v) => match new {
            Declaration::Variant(w) => w.path@ == seq![module, v.name.data] && w.cases@.len() == v.cases@.len()
                && forall|i: int| 0 <= i < v.cases@.len() ==> (#[trigger] w.cases@[i]).data.path@
                    == seq![module, v.name.data, v.cases@[i].data.identifier.data],
            _ => false,
        },
        Declaration::Interface(i) => match new {
            Declaration::Interface(j) => j.path@ == seq![module, i.name.data],
            _ => false,
        },
        _ => true,
    }
}

/// `new` is `old` but for the path fields.
pub open spec fn same_but_paths(old: Declaration, new: Declaration) -> bool {
    match old {
        Declaration::Procedure(p) => match new {
            Declaration::Procedure(q) => q.name == p.name && q.type_vars == p.type_vars && q.arguments
                == p.arguments && q.return_type == p.return_type && q.body == p.body,
            _ => false,
        },
        Declaration::Variant(v) => match new {
            Declaration::Variant(w) => w.name == v.name && w.type_vars == v.type_vars && w.methods
                == v.methods && w.cases@.len() == v.cases@.len() && forall|i: int|
                0 <= i < v.cases@.len() ==> (#[trigger] w.cases@[i]).location == v.cases@[i].location
                    && w.cases@[i].data.identifier == v.cases@[i].data.identifier
                    && w.cases@[i].data.arguments == v.cases@[i].data.arguments,
            _ => false,
        },
        Declaration::Interface(i) => match new {
            Declaration::Interface(j) => j.name == i.name && j.receiver == i.receiver && j.methods == i.methods,
            _ => false,
        },
        _ => new == old,
    }
}

// ---------------------------------------------------------------------------
// Pass three and the whole program

/// The scope in which the declarations of module `i` are resolved.
pub open spec fn module_scope(names: Seq<Symbol>, t: Tables, ms: Seq<Module>, i: int) -> Scope {
    Scope {
        values: Seq::empty(),
        types: Seq::empty(),
        imports: imports_of(ms[i].declarations@),
        module: names[i],
        modules: names,
        value_names: t.values,
        type_names: t.types,
    }
}

/// Pass three from module `i` on.
pub open spec fn bind_modules(names: Seq<Symbol>, t: Tables, ms: Seq<Module>, i: int) -> Option<(Located<Fault>, int)>
    decreases ms.len() - i,
{
    if i < 0 || i >= ms.len() {
        None
    } else {
        match declarations_fault(module_scope(names, t, ms, i), ms[i].declarations@, 0) {
            Some(f) => Some((f, i)),
            None => bind_modules(names, t, ms, i + 1),
        }
    }
}

pub open spec fn empty_tables() -> Tables {
    Tables { values: Seq::empty(), types: Seq::empty() }
}

/// The first fault that resolving `ms` meets, with the index of its module.
pub open spec fn resolution_fault(ms: Seq<Module>) -> Option<(Located<Fault>, int)> {
    match collect_modules(ms, 0, Seq::empty()) {
        Err(e) => Some(e),
        Ok(names) => match collect_names(empty_tables(), names, ms, 0) {
            Err(e) => Some(e),
            Ok(t) => bind_modules(names, t, ms, 0),
        },
    }
}

/// Resolution is defined on `ms`: it holds no malformed tree that would be
/// met before another fault.
pub open spec fn well_formed_program(ms: Seq<Module>) -> bool {
    !(resolution_fault(ms) is Some && resolution_fault(ms)->Some_0.0.data is Malformed)
}

pub open spec fn program_names(ms: Seq<Module>) -> Seq<Symbol> {
    collect_modules(ms, 0, Seq::empty())->Ok_0
}

pub open spec fn program_tables(ms: Seq<Module>) -> Tables {
    collect_names(empty_tables(), program_names(ms), ms, 0)->Ok_0
}

/// `new` is `olds[i]` resolved: named, with every declaration given its
/// qualified path and every occurrence in its bodies bound.
pub open spec fn module_resolved(olds: Seq<Module>, i: int, new: Module) -> bool {
    let names = program_names(olds);
    let old = olds[i];
    &&& new.name == names[i]
    &&& new.source == old.source
    &&& declarations_resolved(
        module_scope(names, program_tables(olds), olds, i),
        old.declarations@,
        new.declarations@,
    )
    &&& forall|k: int| 0 <= k < old.declarations@.len() ==> declaration_named(
        names[i],
        old.declarations@[k],
        #[trigger] new.declarations@[k],
    )
}

pub open spec fn program_resolved(olds: Seq<Module>, news: Seq<Module>) -> bool {
    &&& news.len() == olds.len()
    &&& forall|i: int| 0 <= i < olds.len() ==> #[trigger] module_resolved(olds, i, news[i])
}

// ---------------------------------------------------------------------------
// Outputs in which no occurrence is left undetermined

pub open spec fn expr_determined(e: Located<Expression>) -> bool
    decreases e, 0int,
{
    match e.data {
        Expression::Path { bound, .. } => !(bound@ is Undetermined),
        Expression::Application { function, arguments } => expr_determined(*function) && exprs_determined(
            arguments@,
        ),
        Expression::Projection { expression, .. } => expr_determined(*expression),
        Expression::Let { value, body, .. } => expr_determined(*value) && expr_determined(*body),
        Expression::Natural(_) => true,
    }
}

pub open spec fn exprs_determined(es: Seq<Located<Expression>>) -> bool
    decreases es, es.len() + 1,
{
    exprs_determined_from(es, 0)
}

pub open spec fn exprs_determined_from(es: Seq<Located<Expression>>, i: int) -> bool
    decreases es, es.len() - i,
{
    if 0 <= i < es.len() {
        expr_determined(es[i]) && exprs_determined_from(es, i + 1)
    } else {
        true
    }
}

pub open spec fn type_determined(t: Located<TypeExpression>) -> bool
    decreases t, 0int,
{
    match t.data {
        TypeExpression::Path { bound, .. } => !(bound@ is Undetermined),
        TypeExpression::Procedure { arguments, return_type } => types_determined(arguments@) && type_determined(
            *return_type,
        ),
        TypeExpression::Application { function, arguments } => type_determined(*function) && types_determined(
            arguments@,
        ),
    }
}

pub open spec fn types_determined(ts: Seq<Located<TypeExpression>>) -> bool
    decreases ts, ts.len() + 1,
{
    types_determined_from(ts, 0)
}

pub open spec fn types_determined_from(ts: Seq<Located<TypeExpression>>, i: int) -> bool
    decreases ts, ts.len() - i,
{
    if 0 <= i < ts.len() {
        type_determined(ts[i]) && types_determined_from(ts, i + 1)
    } else {
        true
    }
}

pub open spec fn stmt_determined(s: Located<Statement>) -> bool
    decreases s, 0int,
{
    match s.data {
        Statement::Expression(e) => expr_determined(e),
        Statement::Return(e) => expr_determined(e),
        Statement::Match { expression, branches } => expr_determined(expression) && branches_determined(
            branches@,
        ),
    }
}

pub open spec fn branch_determined(b: Located<Branch>) -> bool
    decreases b, 0int,
{
    stmt_determined(*b.data.statement)
}

pub open spec fn branches_determined(bs: Seq<Located<Branch>>) -> bool
    decreases bs, bs.len() + 1,
{
    branches_determined_from(bs, 0)
}

pub open spec fn branches_determined_from(bs: Seq<Located<Branch>>, i: int) -> bool
    decreases bs, bs.len() - i,
{
    if 0 <= i < bs.len() {
        branch_determined(bs[i]) && branches_determined_from(bs, i + 1)
    } else {
        true
    }
}

pub open spec fn stmts_determined(ss: Seq<Located<Statement>>) -> bool {
    forall|i: int| 0 <= i < ss.len() ==> #[trigger] stmt_determined(ss[i])
}

pub open spec fn args_determined(args: Seq<Located<Argument>>) -> bool {
    forall|i: int| 0 <= i < args.len() ==> #[trigger] type_determined(args[i].data.type_expression)
}

pub open spec fn case_determined(c: Located<VariantCase>) -> bool {
    match c.data.arguments {
        Some(ts) => types_determined(ts@),
        None => true,
    }
}

pub open spec fn method_determined(m: MethodDeclaration) -> bool {
    args_determined(m.arguments@) && type_determined(m.return_type) && stmts_determined(m.body@)
}

pub open spec fn signature_determined(m: MethodSignature) -> bool {
    args_determined(m.arguments@) && type_determined(m.return_type)
}

/// No identifier occurrence in `d` is left `Undetermined`.
pub open spec fn declaration_determined(d: Declaration) -> bool {
    match d {
        Declaration::Procedure(p) => args_determined(p.arguments@) && type_determined(p.return_type)
            && stmts_determined(p.body@),
        Declaration::Variant(v) => (forall|i: int| 0 <= i < v.cases@.len() ==> #[trigger] case_determined(v.cases@[i]))
            && (forall|i: int| 0 <= i < v.methods@.len() ==> #[trigger] method_determined(v.methods@[i])),
        Declaration::Interface(i) => forall|k: int| 0 <= k < i.methods@.len() ==> #[trigger] signature_determined(
            i.methods@[k],
        ),
        _ => true,
    }
}

/// No identifier occurrence in any module is left `Undetermined`.
pub open spec fn program_determined(ms: Seq<Module>) -> bool {
    forall|i: int, k: int| 0 <= i < ms.len() && 0 <= k < ms[i].declarations@.len() ==> #[trigger] declaration_determined(
        ms[i].declarations@[k],
    )
}

/// The quantified form of `exprs_resolved_from`.
pub proof fn lemma_exprs_resolved_from(sc: Scope, olds: Seq<Located<Expression>>, news: Seq<Located<Expression>>, i: int)
    requires
        0 <= i,
        olds.len() == news.len(),
    ensures
        exprs_resolved_from(sc, olds, news, i) <==> forall|j: int| i <= j < olds.len() ==> #[trigger] expr_resolved(
            sc,
            olds[j],
            news[j],
        ),
    decreases olds.len() - i,
{
    if i < olds.len() {
        lemma_exprs_resolved_from(sc, olds, news, i + 1);
        assert(exprs_resolved_from(sc, olds, news, i) == (expr_resolved(sc, olds[i], news[i]) && exprs_resolved_from(sc, olds, news, i + 1)));
    }
}

/// The quantified form of `exprs_determined_from`.
pub proof fn lemma_exprs_determined_from(items: Seq<Located<Expression>>, i: int)
    requires
        0 <= i,
    ensures
        exprs_determined_from(items, i) <==> forall|j: int| i <= j < items.len() ==> #[trigger] expr_determined(items[j]),
    decreases items.len() - i,
{
    if i < items.len() {
        lemma_exprs_determined_from(items, i + 1);
        assert(exprs_determined_from(items, i) == (expr_determined(items[i]) && exprs_determined_from(items, i + 1)));
    }
}

/// The quantified form of `types_resolved_from`.
pub proof fn lemma_types_resolved_from(sc: Scope, olds: Seq<Located<TypeExpression>>, news: Seq<Located<TypeExpression>>, i: int)
    requires
        0 <= i,
        olds.len() == news.len(),
    ensures
        types_resolved_from(sc, olds, news, i) <==> forall|j: int| i <= j < olds.len() ==> #[trigger] type_resolved(
            sc,
            olds[j],
            news[j],
        ),
    decreases olds.len() - i,
{
    if i < olds.len() {
        lemma_types_resolved_from(sc, olds, news, i + 1);
        assert(types_resolved_from(sc, olds, news, i) == (type_resolved(sc, olds[i], news[i]) && types_resolved_from(sc, olds, news, i + 1)));
    }
}

/// The quantified form of `types_determined_from`.
pub proof fn lemma_types_determined_from(items: Seq<Located<TypeExpression>>, i: int)
    requires
        0 <= i,
    ensures
        types_determined_from(items, i) <==> forall|j: int| i <= j < items.len() ==> #[trigger] type_determined(items[j]),
    decreases items.len() - i,
{
    if i < items.len() {
        lemma_types_determined_from(items, i + 1);
        assert(types_determined_from(items, i) == (type_determined(items[i]) && types_determined_from(items, i + 1)));
    }
}

/// The quantified form of `branches_resolved_from`.
pub proof fn lemma_branches_resolved_from(sc: Scope, olds: Seq<Located<Branch>>, news: Seq<Located<Branch>>, i: int)
    requires
        0 <= i,
        olds.len() == news.len(),
    ensures
        branches_resolved_from(sc, olds, news, i) <==> forall|j: int| i <= j < olds.len() ==> #[trigger] branch_resolved(
            sc,
            olds[j],
            news[j],
        ),
    decreases olds.len() - i,
{
    if i < olds.len() {
        lemma_branches_resolved_from(sc, olds, news, i + 1);
        assert(branches_resolved_from(sc, olds, news, i) == (branch_resolved(sc, olds[i], news[i]) && branches_resolved_from(sc, olds, news, i + 1)));
    }
}

/// The quantified form of `branches_determined_from`.
pub proof fn lemma_branches_determined_from(items: Seq<Located<Branch>>, i: int)
    requires
        0 <= i,
    ensures
        branches_determined_from(items, i) <==> forall|j: int| i <= j < items.len() ==> #[trigger] branch_determined(items[j]),
    decreases items.len() - i,
{
    if i < items.len() {
        lemma_branches_determined_from(items, i + 1);
        assert(branches_determined_from(items, i) == (branch_determined(items[i]) && branches_determined_from(items, i + 1)));
    }
}

} // verus!

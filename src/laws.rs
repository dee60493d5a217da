//! Properties of resolution stated over the rules that its contracts use.
use vstd::prelude::*;

use crate::path::{Binding, Symbol};
use crate::rules::{
    branch_fault, branches_fault, collect_cases, either, innermost, collect_declaration, collect_declarations, declaration_fault,
    fault_at, module_fault, next_module_declaration, pattern_names, stmt_fault, value_outcome,
    Fault, Scope, Tables,
};
use crate::rules::{
    args_resolved, branch_resolved, branches_resolved, branches_resolved_from, case_resolved,
    constraint_resolved, declaration_named, declaration_resolved, expr_resolved, exprs_resolved,
    exprs_resolved_from, method_resolved, module_resolved, program_resolved, signature_resolved,
    stmt_resolved, stmts_resolved, type_resolved, type_var_resolved, types_resolved,
    types_resolved_from,
};
use crate::syntax::{
    Argument, Branch, Constraint, Declaration, Expression, ImportDeclaration, Located,
    MethodDeclaration, MethodSignature, Module, Statement, TypeExpression, TypeVar, VariantCase,
};

verus! {

/// Collecting constructor names only adds to the value names.
proof fn lemma_cases_grow(values: Seq<Seq<Symbol>>, variant: Seq<Symbol>, cases: Seq<Located<crate::syntax::VariantCase>>, i: int, p: Seq<Symbol>)
    requires
        collect_cases(values, variant, cases, i) is Ok,
        values.contains(p),
    ensures
        collect_cases(values, variant, cases, i)->Ok_0.contains(p),
    decreases cases.len() - i,
{
    if 0 <= i < cases.len() {
        let q = variant.push(cases[i].data.identifier.data);
        assert(values.push(q)[values.index_of(p)] == p);
        lemma_cases_grow(values.push(q), variant, cases, i + 1, p);
    }
}

/// Collecting a declaration only adds to the value names.
proof fn lemma_declaration_grows(t: Tables, module: Symbol, d: Declaration, p: Seq<Symbol>)
    requires
        collect_declaration(t, module, d) is Ok,
        t.values.contains(p),
    ensures
        collect_declaration(t, module, d)->Ok_0.values.contains(p),
{
    match d {
        Declaration::Procedure(q) => {
            assert(t.values.push(seq![module, q.name.data])[t.values.index_of(p)] == p);
        },
        Declaration::Variant(v) => {
            lemma_cases_grow(t.values, seq![module, v.name.data], v.cases@, 0, p);
        },
        _ => {},
    }
}

/// Collecting declarations from `i` on only adds to the value names.
proof fn lemma_declarations_grow(t: Tables, module: Symbol, ds: Seq<Declaration>, i: int, p: Seq<Symbol>)
    requires
        collect_declarations(t, module, ds, i) is Ok,
        t.values.contains(p),
    ensures
        collect_declarations(t, module, ds, i)->Ok_0.values.contains(p),
    decreases ds.len() - i,
{
    if 0 <= i < ds.len() {
        lemma_declaration_grows(t, module, ds[i], p);
        lemma_declarations_grow(collect_declaration(t, module, ds[i])->Ok_0, module, ds, i + 1, p);
    }
}

/// Collecting the declarations of `ds` before `k`, then the rest, is
/// collecting all of them.
proof fn lemma_collect_prefix(t: Tables, module: Symbol, ds: Seq<Declaration>, k: int, i: int)
    requires
        0 <= i <= k <= ds.len(),
    ensures
        collect_declarations(t, module, ds, i) == match collect_declarations(t, module, ds.subrange(0, k), i) {
            Ok(t2) => collect_declarations(t2, module, ds, k),
            Err(e) => Err(e),
        },
    decreases k - i,
{
    if i < k {
        assert(ds.subrange(0, k)[i] == ds[i]);
        if let Ok(t2) = collect_declaration(t, module, ds[i]) {
            lemma_collect_prefix(t2, module, ds, k, i + 1);
        }
    }
}

/// The value names after collecting `ds` up to `k` hold the path of every
/// procedure among them.
proof fn lemma_prefix_holds_procedure(t: Tables, module: Symbol, ds: Seq<Declaration>, i: int, j: int)
    requires
        0 <= i <= j < ds.len(),
        ds[j] is Procedure,
        collect_declarations(t, module, ds, i) is Ok,
    ensures
        collect_declarations(t, module, ds, i)->Ok_0.values.contains(seq![module, ds[j]->Procedure_0.name.data]),
    decreases j - i,
{
    let t2 = collect_declaration(t, module, ds[i])->Ok_0;
    if i < j {
        lemma_prefix_holds_procedure(t2, module, ds, i + 1, j);
    } else {
        let p = seq![module, ds[j]->Procedure_0.name.data];
        assert(t2.values[t2.values.len() - 1] == p);
        lemma_declarations_grow(t2, module, ds, i + 1, p);
    }
}

/// Two procedures with one name in one module: pass two fails on the
/// module, and where nothing before the second one fails, with
/// `DuplicateProcedureDeclaration` of their path at the second one's name.
pub proof fn lemma_duplicate_procedure(t: Tables, module: Symbol, ds: Seq<Declaration>, j: int, k: int)
    requires
        0 <= j < k < ds.len(),
        ds[j] is Procedure,
        ds[k] is Procedure,
        ds[j]->Procedure_0.name.data == ds[k]->Procedure_0.name.data,
    ensures
        collect_declarations(t, module, ds, 0) is Err,
        collect_declarations(t, module, ds.subrange(0, k), 0) is Ok ==> collect_declarations(t, module, ds, 0)
            == Err::<Tables, Located<Fault>>(
            Located {
                data: Fault::DuplicateProcedureDeclaration(seq![module, ds[k]->Procedure_0.name.data]),
                location: ds[k]->Procedure_0.name.location,
            },
        ),
{
    let prefix = ds.subrange(0, k);
    lemma_collect_prefix(t, module, ds, k, 0);
    if let Ok(t2) = collect_declarations(t, module, prefix, 0) {
        assert(prefix[j] == ds[j]);
        lemma_prefix_holds_procedure(t, module, prefix, 0, j);
    }
}

/// A case whose constructor path is already a value name stops pass two
/// with `DuplicateConstructorDeclaration` at the case's name.
pub proof fn lemma_duplicate_constructor(values: Seq<Seq<Symbol>>, variant: Seq<Symbol>, cases: Seq<Located<crate::syntax::VariantCase>>, i: int)
    requires
        0 <= i < cases.len(),
        values.contains(variant.push(cases[i].data.identifier.data)),
    ensures
        collect_cases(values, variant, cases, i) == Err::<Seq<Seq<Symbol>>, Located<Fault>>(
            Located {
                data: Fault::DuplicateConstructorDeclaration {
                    constructor: cases[i].data.identifier.data,
                    variant_path: variant,
                },
                location: cases[i].data.identifier.location,
            },
        ),
{
}

/// A one-segment name that is neither local, nor an imported module, nor
/// declared in the current module is `UnboundValuePath` of its path in
/// the current module.
pub proof fn lemma_unbound_name(sc: Scope, s: Symbol)
    requires
        !sc.values.contains(s),
        !sc.imports.contains(s),
        !sc.value_names.contains(seq![sc.module, s]),
    ensures
        value_outcome(sc, seq![s]) == Err::<Binding, Fault>(Fault::UnboundValuePath(seq![sc.module, s])),
{
    lemma_innermost_absent(sc.values, s, sc.values.len() as int);
    assert(seq![sc.module, s] + seq![s].drop_first() =~= seq![sc.module, s]);
}

proof fn lemma_innermost_absent(locals: Seq<Symbol>, s: Symbol, n: int)
    requires
        !locals.contains(s),
        n <= locals.len(),
    ensures
        crate::rules::innermost_below(locals, s, n) is None,
    decreases n,
{
    if n > 0 {
        assert(locals[n - 1] != s);
        lemma_innermost_absent(locals, s, n - 1);
    }
}

/// Importing a module that no module body declares is `ModuleDoesNotExist`
/// at the import's name.
pub proof fn lemma_missing_import(sc: Scope, i: ImportDeclaration)
    requires
        !sc.modules.contains(i.name.data),
    ensures
        declaration_fault(sc, Declaration::Import(i)) == fault_at(Fault::ModuleDoesNotExist(i.name.data), i.name.location),
{
}

/// A module body whose first module declaration names a module collected
/// before it is `CollidingModuleNames` of that name.
pub proof fn lemma_colliding_modules(known: Seq<Symbol>, ds: Seq<Declaration>, f: int)
    requires
        next_module_declaration(ds, 0) == Some(f),
        known.contains(ds[f]->Module_0.name.data),
    ensures
        module_fault(known, ds) == fault_at(
            Fault::CollidingModuleNames(ds[f]->Module_0.name.data),
            ds[f]->Module_0.name.location,
        ),
{
}

/// Every branch of a match is resolved in the scope around the match and
/// the names its own pattern binds, not those of another branch.
pub proof fn lemma_branch_scope(sc: Scope, bs: Seq<Located<Branch>>, i: int)
    requires
        0 <= i < bs.len(),
    ensures
        branches_fault(sc, bs, i) == either(
            stmt_fault(sc.bind_values(pattern_names(bs[i].data.pattern.data)), *bs[i].data.statement),
            branches_fault(sc, bs, i + 1),
        ),
{
    assert(branch_fault(sc, bs[i]) == stmt_fault(
        sc.bind_values(pattern_names(bs[i].data.pattern.data)),
        *bs[i].data.statement,
    ));
}

/// The most recent binding of a name shadows every earlier one: it is at
/// distance 0.
pub proof fn lemma_shadowing(locals: Seq<Symbol>, s: Symbol)
    ensures
        innermost(locals.push(s), s) == Some(0nat),
{
}

// ---------------------------------------------------------------------------
// Determinism: two outputs for one input agree everywhere

pub open spec fn expr_same(a: Located<Expression>, b: Located<Expression>) -> bool
    decreases a, 0int,
{
    &&& a.location == b.location
    &&& match a.data {
        Expression::Path { parts, bound } => match b.data {
            Expression::Path { parts: q, bound: c } => parts@ == q@ && bound@ == c@,
            _ => false,
        },
        Expression::Application { function, arguments } => match b.data {
            Expression::Application { function: g, arguments: c } => expr_same(*function, *g)
                && arguments@.len() == c@.len() && exprs_same_from(arguments@, c@, 0),
            _ => false,
        },
        Expression::Projection { expression, field } => match b.data {
            Expression::Projection { expression: x, field: y } => field == y && expr_same(*expression, *x),
            _ => false,
        },
        Expression::Let { name, value, body } => match b.data {
            Expression::Let { name: n, value: v, body: w } => name == n && expr_same(*value, *v) && expr_same(
                *body,
                *w,
            ),
            _ => false,
        },
        Expression::Natural(k) => b.data == Expression::Natural(k),
    }
}

pub open spec fn exprs_same_from(a: Seq<Located<Expression>>, b: Seq<Located<Expression>>, i: int) -> bool
    decreases a, a.len() - i,
{
    if 0 <= i < a.len() {
        expr_same(a[i], b[i]) && exprs_same_from(a, b, i + 1)
    } else {
        true
    }
}

pub open spec fn type_same(a: Located<TypeExpression>, b: Located<TypeExpression>) -> bool
    decreases a, 0int,
{
    &&& a.location == b.location
    &&& match a.data {
        TypeExpression::Path { parts, bound } => match b.data {
            TypeExpression::Path { parts: q, bound: c } => parts@ == q@ && bound@ == c@,
            _ => false,
        },
        TypeExpression::Procedure { arguments, return_type } => match b.data {
            TypeExpression::Procedure { arguments: c, return_type: r } => arguments@.len() == c@.len()
                && types_same_from(arguments@, c@, 0) && type_same(*return_type, *r),
            _ => false,
        },
        TypeExpression::Application { function, arguments } => match b.data {
            TypeExpression::Application { function: g, arguments: c } => type_same(*function, *g)
                && arguments@.len() == c@.len() && types_same_from(arguments@, c@, 0),
            _ => false,
        },
    }
}

pub open spec fn types_same_from(a: Seq<Located<TypeExpression>>, b: Seq<Located<TypeExpression>>, i: int) -> bool
    decreases a, a.len() - i,
{
    if 0 <= i < a.len() {
        type_same(a[i], b[i]) && types_same_from(a, b, i + 1)
    } else {
        true
    }
}

pub open spec fn stmt_same(a: Located<Statement>, b: Located<Statement>) -> bool
    decreases a, 0int,
{
    &&& a.location == b.location
    &&& match a.data {
        Statement::Expression(e) => match b.data {
            Statement::Expression(x) => expr_same(e, x),
            _ => false,
        },
        Statement::Return(e) => match b.data {
            Statement::Return(x) => expr_same(e, x),
            _ => false,
        },
        Statement::Match { expression, branches } => match b.data {
            Statement::Match { expression: x, branches: c } => expr_same(expression, x) && branches@.len()
                == c@.len() && branches_same_from(branches@, c@, 0),
            _ => false,
        },
    }
}

pub open spec fn branch_same(a: Located<Branch>, b: Located<Branch>) -> bool
    decreases a, 0int,
{
    a.location == b.location && a.data.pattern == b.data.pattern && stmt_same(*a.data.statement, *b.data.statement)
}

pub open spec fn branches_same_from(a: Seq<Located<Branch>>, b: Seq<Located<Branch>>, i: int) -> bool
    decreases a, a.len() - i,
{
    if 0 <= i < a.len() {
        branch_same(a[i], b[i]) && branches_same_from(a, b, i + 1)
    } else {
        true
    }
}

pub open spec fn stmts_same(a: Seq<Located<Statement>>, b: Seq<Located<Statement>>) -> bool {
    a.len() == b.len() && forall|i: int| 0 <= i < a.len() ==> #[trigger] stmt_same(a[i], b[i])
}

pub open spec fn type_var_same(a: TypeVar, b: TypeVar) -> bool {
    &&& a.name == b.name
    &&& a.interfaces@.len() == b.interfaces@.len()
    &&& forall|i: int| 0 <= i < a.interfaces@.len() ==> (#[trigger] a.interfaces@[i]).0 == b.interfaces@[i].0
        && a.interfaces@[i].1@ == b.interfaces@[i].1@
}

pub open spec fn args_same(a: Seq<Located<Argument>>, b: Seq<Located<Argument>>) -> bool {
    &&& a.len() == b.len()
    &&& forall|i: int| 0 <= i < a.len() ==> (#[trigger] a[i]).location == b[i].location && a[i].data.identifier
        == b[i].data.identifier && type_same(a[i].data.type_expression, b[i].data.type_expression)
}

pub open spec fn constraint_same(a: Constraint, b: Constraint) -> bool {
    a.type_var.location == b.type_var.location && type_var_same(a.type_var.data, b.type_var.data) && a.index
        == b.index
}

pub open spec fn method_same(a: MethodDeclaration, b: MethodDeclaration) -> bool {
    &&& a.name == b.name
    &&& a.instance == b.instance
    &&& a.constraints@.len() == b.constraints@.len()
    &&& forall|i: int| 0 <= i < a.constraints@.len() ==> #[trigger] constraint_same(a.constraints@[i], b.constraints@[i])
    &&& args_same(a.arguments@, b.arguments@)
    &&& type_same(a.return_type, b.return_type)
    &&& stmts_same(a.body@, b.body@)
}

pub open spec fn case_same(a: Located<VariantCase>, b: Located<VariantCase>) -> bool {
    &&& a.location == b.location
    &&& a.data.identifier == b.data.identifier
    &&& a.data.path@ == b.data.path@
    &&& match a.data.arguments {
        Some(ts) => b.data.arguments is Some && ts@.len() == b.data.arguments->Some_0@.len() && types_same_from(
            ts@,
            b.data.arguments->Some_0@,
            0,
        ),
        None => b.data.arguments is None,
    }
}

pub open spec fn signature_same(a: MethodSignature, b: MethodSignature) -> bool {
    a.name == b.name && args_same(a.arguments@, b.arguments@) && type_same(a.return_type, b.return_type)
}

/// `a` and `b` hold the same values: equal fields, and paths and bindings
/// with equal views.
pub open spec fn declaration_same(a: Declaration, b: Declaration) -> bool {
    match a {
        Declaration::Procedure(p) => match b {
            Declaration::Procedure(q) => {
                &&& p.name == q.name
                &&& p.path@ == q.path@
                &&& p.type_vars@.len() == q.type_vars@.len()
                &&& forall|i: int| 0 <= i < p.type_vars@.len() ==> (#[trigger] p.type_vars@[i]).location
                    == q.type_vars@[i].location && type_var_same(p.type_vars@[i].data, q.type_vars@[i].data)
                &&& args_same(p.arguments@, q.arguments@)
                &&& type_same(p.return_type, q.return_type)
                &&& stmts_same(p.body@, q.body@)
            },
            _ => false,
        },
        Declaration::Variant(v) => match b {
            Declaration::Variant(w) => {
                &&& v.name == w.name
                &&& v.path@ == w.path@
                &&& v.type_vars == w.type_vars
                &&& v.cases@.len() == w.cases@.len()
                &&& forall|i: int| 0 <= i < v.cases@.len() ==> #[trigger] case_same(v.cases@[i], w.cases@[i])
                &&& v.methods@.len() == w.methods@.len()
                &&& forall|i: int| 0 <= i < v.methods@.len() ==> #[trigger] method_same(v.methods@[i], w.methods@[i])
            },
            _ => false,
        },
        Declaration::Interface(i) => match b {
            Declaration::Interface(j) => {
                &&& i.name == j.name
                &&& i.path@ == j.path@
                &&& i.receiver == j.receiver
                &&& i.methods@.len() == j.methods@.len()
                &&& forall|k: int| 0 <= k < i.methods@.len() ==> #[trigger] signature_same(i.methods@[k], j.methods@[k])
            },
            _ => false,
        },
        _ => a == b,
    }
}

pub open spec fn program_same(a: Seq<Module>, b: Seq<Module>) -> bool {
    &&& a.len() == b.len()
    &&& forall|i: int| 0 <= i < a.len() ==> (#[trigger] a[i]).name == b[i].name && a[i].source == b[i].source
        && a[i].declarations@.len() == b[i].declarations@.len() && forall|k: int|
        0 <= k < a[i].declarations@.len() ==> #[trigger] declaration_same(
            a[i].declarations@[k],
            b[i].declarations@[k],
        )
}

proof fn lemma_expr_same(sc: Scope, old: Located<Expression>, a: Located<Expression>, b: Located<Expression>)
    requires
        expr_resolved(sc, old, a),
        expr_resolved(sc, old, b),
    ensures
        expr_same(a, b),
    decreases old, 0int,
{
    match old.data {
        Expression::Application { function, arguments } => {
            if let Expression::Application { function: f, arguments: x } = a.data {
                if let Expression::Application { function: g, arguments: y } = b.data {
                    lemma_expr_same(sc, *function, *f, *g);
                    assert(exprs_resolved(sc, arguments@, x@));
                    assert(exprs_resolved(sc, arguments@, y@));
                    lemma_exprs_same(sc, arguments@, x@, y@, 0);
                }
            }
        },
        Expression::Projection { expression, .. } => {
            if let Expression::Projection { expression: x, .. } = a.data {
                if let Expression::Projection { expression: y, .. } = b.data {
                    lemma_expr_same(sc, *expression, *x, *y);
                }
            }
        },
        Expression::Let { name, value, body } => {
            if let Expression::Let { value: v, body: w, .. } = a.data {
                if let Expression::Let { value: v2, body: w2, .. } = b.data {
                    lemma_expr_same(sc, *value, *v, *v2);
                    lemma_expr_same(sc.bind_values(seq![name.data]), *body, *w, *w2);
                }
            }
        },
        _ => {},
    }
}

proof fn lemma_exprs_same(sc: Scope, olds: Seq<Located<Expression>>, a: Seq<Located<Expression>>, b: Seq<Located<Expression>>, i: int)
    requires
        olds.len() == a.len(),
        olds.len() == b.len(),
        exprs_resolved_from(sc, olds, a, i),
        exprs_resolved_from(sc, olds, b, i),
    ensures
        exprs_same_from(a, b, i),
    decreases olds, olds.len() - i,
{
    if 0 <= i < olds.len() {
        assert(exprs_resolved_from(sc, olds, a, i) == (expr_resolved(sc, olds[i], a[i]) && exprs_resolved_from(sc, olds, a, i + 1)));
        assert(exprs_resolved_from(sc, olds, b, i) == (expr_resolved(sc, olds[i], b[i]) && exprs_resolved_from(sc, olds, b, i + 1)));
        lemma_expr_same(sc, olds[i], a[i], b[i]);
        lemma_exprs_same(sc, olds, a, b, i + 1);
        assert(exprs_same_from(a, b, i) == (expr_same(a[i], b[i]) && exprs_same_from(a, b, i + 1)));
    }
}

proof fn lemma_type_same(sc: Scope, old: Located<TypeExpression>, a: Located<TypeExpression>, b: Located<TypeExpression>)
    requires
        type_resolved(sc, old, a),
        type_resolved(sc, old, b),
    ensures
        type_same(a, b),
    decreases old, 0int,
{
    match old.data {
        TypeExpression::Procedure { arguments, return_type } => {
            if let TypeExpression::Procedure { arguments: x, return_type: r } = a.data {
                if let TypeExpression::Procedure { arguments: y, return_type: q } = b.data {
                    assert(types_resolved(sc, arguments@, x@));
                    assert(types_resolved(sc, arguments@, y@));
                    lemma_types_same(sc, arguments@, x@, y@, 0);
                    lemma_type_same(sc, *return_type, *r, *q);
                }
            }
        },
        TypeExpression::Application { function, arguments } => {
            if let TypeExpression::Application { function: f, arguments: x } = a.data {
                if let TypeExpression::Application { function: g, arguments: y } = b.data {
                    lemma_type_same(sc, *function, *f, *g);
                    assert(types_resolved(sc, arguments@, x@));
                    assert(types_resolved(sc, arguments@, y@));
                    lemma_types_same(sc, arguments@, x@, y@, 0);
                }
            }
        },
        _ => {},
    }
}

proof fn lemma_types_same(sc: Scope, olds: Seq<Located<TypeExpression>>, a: Seq<Located<TypeExpression>>, b: Seq<Located<TypeExpression>>, i: int)
    requires
        olds.len() == a.len(),
        olds.len() == b.len(),
        types_resolved_from(sc, olds, a, i),
        types_resolved_from(sc, olds, b, i),
    ensures
        types_same_from(a, b, i),
    decreases olds, olds.len() - i,
{
    if 0 <= i < olds.len() {
        assert(types_resolved_from(sc, olds, a, i) == (type_resolved(sc, olds[i], a[i]) && types_resolved_from(sc, olds, a, i + 1)));
        assert(types_resolved_from(sc, olds, b, i) == (type_resolved(sc, olds[i], b[i]) && types_resolved_from(sc, olds, b, i + 1)));
        lemma_type_same(sc, olds[i], a[i], b[i]);
        lemma_types_same(sc, olds, a, b, i + 1);
        assert(types_same_from(a, b, i) == (type_same(a[i], b[i]) && types_same_from(a, b, i + 1)));
    }
}

proof fn lemma_stmt_same(sc: Scope, old: Located<Statement>, a: Located<Statement>, b: Located<Statement>)
    requires
        stmt_resolved(sc, old, a),
        stmt_resolved(sc, old, b),
    ensures
        stmt_same(a, b),
    decreases old, 0int,
{
    match old.data {
        Statement::Expression(e) => {
            if let Statement::Expression(x) = a.data {
                if let Statement::Expression(y) = b.data {
                    lemma_expr_same(sc, e, x, y);
                }
            }
        },
        Statement::Return(e) => {
            if let Statement::Return(x) = a.data {
                if let Statement::Return(y) = b.data {
                    lemma_expr_same(sc, e, x, y);
                }
            }
        },
        Statement::Match { expression, branches } => {
            if let Statement::Match { expression: x, branches: c } = a.data {
                if let Statement::Match { expression: y, branches: d } = b.data {
                    lemma_expr_same(sc, expression, x, y);
                    assert(branches_resolved(sc, branches@, c@));
                    assert(branches_resolved(sc, branches@, d@));
                    lemma_branches_same(sc, branches@, c@, d@, 0);
                }
            }
        },
    }
}

proof fn lemma_branch_same(sc: Scope, old: Located<Branch>, a: Located<Branch>, b: Located<Branch>)
    requires
        branch_resolved(sc, old, a),
        branch_resolved(sc, old, b),
    ensures
        branch_same(a, b),
    decreases old, 0int,
{
    lemma_stmt_same(
        sc.bind_values(pattern_names(old.data.pattern.data)),
        *old.data.statement,
        *a.data.statement,
        *b.data.statement,
    );
}

proof fn lemma_branches_same(sc: Scope, olds: Seq<Located<Branch>>, a: Seq<Located<Branch>>, b: Seq<Located<Branch>>, i: int)
    requires
        olds.len() == a.len(),
        olds.len() == b.len(),
        branches_resolved_from(sc, olds, a, i),
        branches_resolved_from(sc, olds, b, i),
    ensures
        branches_same_from(a, b, i),
    decreases olds, olds.len() - i,
{
    if 0 <= i < olds.len() {
        assert(branches_resolved_from(sc, olds, a, i) == (branch_resolved(sc, olds[i], a[i]) && branches_resolved_from(sc, olds, a, i + 1)));
        assert(branches_resolved_from(sc, olds, b, i) == (branch_resolved(sc, olds[i], b[i]) && branches_resolved_from(sc, olds, b, i + 1)));
        lemma_branch_same(sc, olds[i], a[i], b[i]);
        lemma_branches_same(sc, olds, a, b, i + 1);
        assert(branches_same_from(a, b, i) == (branch_same(a[i], b[i]) && branches_same_from(a, b, i + 1)));
    }
}

proof fn lemma_stmts_same(sc: Scope, olds: Seq<Located<Statement>>, a: Seq<Located<Statement>>, b: Seq<Located<Statement>>)
    requires
        stmts_resolved(sc, olds, a),
        stmts_resolved(sc, olds, b),
    ensures
        stmts_same(a, b),
{
    assert forall|i: int| 0 <= i < a.len() implies #[trigger] stmt_same(a[i], b[i]) by {
        assert(stmt_resolved(sc, olds[i], a[i]));
        assert(stmt_resolved(sc, olds[i], b[i]));
        lemma_stmt_same(sc, olds[i], a[i], b[i]);
    }
}

proof fn lemma_args_same(sc: Scope, olds: Seq<Located<Argument>>, a: Seq<Located<Argument>>, b: Seq<Located<Argument>>)
    requires
        args_resolved(sc, olds, a),
        args_resolved(sc, olds, b),
    ensures
        args_same(a, b),
{
    assert forall|i: int| 0 <= i < a.len() implies (#[trigger] a[i]).location == b[i].location
        && a[i].data.identifier == b[i].data.identifier && type_same(a[i].data.type_expression, b[i].data.type_expression) by {
        assert(a[i].location == olds[i].location && b[i].location == olds[i].location);
        lemma_type_same(sc, olds[i].data.type_expression, a[i].data.type_expression, b[i].data.type_expression);
    }
}

proof fn lemma_type_var_same(sc: Scope, old: TypeVar, a: TypeVar, b: TypeVar)
    requires
        type_var_resolved(sc, old, a),
        type_var_resolved(sc, old, b),
    ensures
        type_var_same(a, b),
{
    assert forall|i: int| 0 <= i < a.interfaces@.len() implies (#[trigger] a.interfaces@[i]).0 == b.interfaces@[i].0
        && a.interfaces@[i].1@ == b.interfaces@[i].1@ by {
        assert(a.interfaces@[i].0 == old.interfaces@[i].0);
        assert(b.interfaces@[i].0 == old.interfaces@[i].0);
    }
}

proof fn lemma_method_same(sc: Scope, old: MethodDeclaration, a: MethodDeclaration, b: MethodDeclaration)
    requires
        method_resolved(sc, old, a),
        method_resolved(sc, old, b),
    ensures
        method_same(a, b),
{
    assert forall|i: int| 0 <= i < a.constraints@.len() implies #[trigger] constraint_same(a.constraints@[i], b.constraints@[i]) by {
        assert(constraint_resolved(sc, old.constraints@[i], a.constraints@[i]));
        assert(constraint_resolved(sc, old.constraints@[i], b.constraints@[i]));
        lemma_type_var_same(sc, old.constraints@[i].type_var.data, a.constraints@[i].type_var.data, b.constraints@[i].type_var.data);
    }
    lemma_args_same(sc, old.arguments@, a.arguments@, b.arguments@);
    lemma_type_same(sc, old.return_type, a.return_type, b.return_type);
    lemma_stmts_same(
        sc.bind_values(seq![old.instance.data] + crate::rules::argument_names(old.arguments@)),
        old.body@,
        a.body@,
        b.body@,
    );
}

proof fn lemma_declaration_same(sc: Scope, old: Declaration, a: Declaration, b: Declaration)
    requires
        declaration_resolved(sc, old, a),
        declaration_resolved(sc, old, b),
        declaration_named(sc.module, old, a),
        declaration_named(sc.module, old, b),
    ensures
        declaration_same(a, b),
{
    match old {
        Declaration::Procedure(p) => {
            if let Declaration::Procedure(x) = a {
                if let Declaration::Procedure(y) = b {
                    let tsc = sc.bind_types(crate::rules::type_var_names(p.type_vars@));
                    assert forall|i: int| 0 <= i < x.type_vars@.len() implies (#[trigger] x.type_vars@[i]).location
                        == y.type_vars@[i].location && type_var_same(x.type_vars@[i].data, y.type_vars@[i].data) by {
                        assert(x.type_vars@[i].location == p.type_vars@[i].location);
                        assert(y.type_vars@[i].location == p.type_vars@[i].location);
                        lemma_type_var_same(sc, p.type_vars@[i].data, x.type_vars@[i].data, y.type_vars@[i].data);
                    }
                    lemma_args_same(tsc, p.arguments@, x.arguments@, y.arguments@);
                    lemma_type_same(tsc, p.return_type, x.return_type, y.return_type);
                    lemma_stmts_same(
                        tsc.bind_values(crate::rules::argument_names(p.arguments@)),
                        p.body@,
                        x.body@,
                        y.body@,
                    );
                }
            }
        },
        Declaration::Variant(v) => {
            if let Declaration::Variant(x) = a {
                if let Declaration::Variant(y) = b {
                    let tsc = sc.bind_types(crate::rules::names_of(v.type_vars@));
                    assert forall|i: int| 0 <= i < x.cases@.len() implies #[trigger] case_same(x.cases@[i], y.cases@[i]) by {
                        assert(case_resolved(tsc, v.cases@[i], x.cases@[i]));
                        assert(case_resolved(tsc, v.cases@[i], y.cases@[i]));
                        assert(x.cases@[i].data.path@ == seq![sc.module, v.name.data, v.cases@[i].data.identifier.data]);
                        assert(y.cases@[i].data.path@ == seq![sc.module, v.name.data, v.cases@[i].data.identifier.data]);
                        if let Some(ts) = v.cases@[i].data.arguments {
                            let xs = x.cases@[i].data.arguments->Some_0@;
                            let ys = y.cases@[i].data.arguments->Some_0@;
                            assert(types_resolved(tsc, ts@, xs));
                            assert(types_resolved(tsc, ts@, ys));
                            lemma_types_same(tsc, ts@, xs, ys, 0);
                        }
                    }
                    assert forall|i: int| 0 <= i < x.methods@.len() implies #[trigger] method_same(x.methods@[i], y.methods@[i]) by {
                        assert(method_resolved(tsc, v.methods@[i], x.methods@[i]));
                        assert(method_resolved(tsc, v.methods@[i], y.methods@[i]));
                        lemma_method_same(tsc, v.methods@[i], x.methods@[i], y.methods@[i]);
                    }
                }
            }
        },
        Declaration::Interface(it) => {
            if let Declaration::Interface(x) = a {
                if let Declaration::Interface(y) = b {
                    let isc = sc.bind_types(seq![it.receiver.data]);
                    assert forall|k: int| 0 <= k < x.methods@.len() implies #[trigger] signature_same(x.methods@[k], y.methods@[k]) by {
                        assert(signature_resolved(isc, it.methods@[k], x.methods@[k]));
                        assert(signature_resolved(isc, it.methods@[k], y.methods@[k]));
                        lemma_args_same(isc, it.methods@[k].arguments@, x.methods@[k].arguments@, y.methods@[k].arguments@);
                        lemma_type_same(isc, it.methods@[k].return_type, x.methods@[k].return_type, y.methods@[k].return_type);
                    }
                }
            }
        },
        _ => {},
    }
}

/// Resolution is deterministic: any two results that resolving `ms` may
/// give hold the same values, every path and binding included.
pub proof fn lemma_resolution_is_deterministic(ms: Seq<Module>, a: Seq<Module>, b: Seq<Module>)
    requires
        program_resolved(ms, a),
        program_resolved(ms, b),
    ensures
        program_same(a, b),
{
    assert forall|i: int| 0 <= i < a.len() implies (#[trigger] a[i]).name == b[i].name && a[i].source == b[i].source
        && a[i].declarations@.len() == b[i].declarations@.len() && forall|k: int|
        0 <= k < a[i].declarations@.len() ==> #[trigger] declaration_same(a[i].declarations@[k], b[i].declarations@[k]) by {
        assert(module_resolved(ms, i, a[i]));
        assert(module_resolved(ms, i, b[i]));
        let sc = crate::rules::module_scope(
            crate::rules::program_names(ms),
            crate::rules::program_tables(ms),
            ms,
            i,
        );
        assert forall|k: int| 0 <= k < a[i].declarations@.len() implies #[trigger] declaration_same(
            a[i].declarations@[k],
            b[i].declarations@[k],
        ) by {
            let old = ms[i].declarations@[k];
            assert(declaration_resolved(sc, old, a[i].declarations@[k]));
            assert(declaration_resolved(sc, old, b[i].declarations@[k]));
            assert(declaration_named(sc.module, old, a[i].declarations@[k]));
            assert(declaration_named(sc.module, old, b[i].declarations@[k]));
            lemma_declaration_same(sc, old, a[i].declarations@[k], b[i].declarations@[k]);
        }
    }
}

/// Pass one on the modules before `k`, then on the rest, is pass one on
/// all of them.
proof fn lemma_collect_modules_prefix(ms: Seq<Module>, k: int, i: int, known: Seq<Symbol>)
    requires
        0 <= i <= k <= ms.len(),
    ensures
        crate::rules::collect_modules(ms, i, known) == match crate::rules::collect_modules(ms.subrange(0, k), i, known) {
            Ok(names) => crate::rules::collect_modules(ms, k, names),
            Err(e) => Err(e),
        },
    decreases k - i,
{
    if i < k {
        assert(ms.subrange(0, k)[i] == ms[i]);
        if module_fault(known, ms[i].declarations@) is None {
            lemma_collect_modules_prefix(ms, k, i + 1, known.push(crate::rules::module_name(ms[i].declarations@)));
        }
    }
}

/// The names pass one collects hold the name of every module it passed.
proof fn lemma_collected_names(ms: Seq<Module>, i: int, known: Seq<Symbol>, j: int)
    requires
        0 <= i <= ms.len(),
        crate::rules::collect_modules(ms, i, known) is Ok,
        (0 <= j < i && known.contains(crate::rules::module_name(ms[j].declarations@))) || (i <= j < ms.len()),
    ensures
        crate::rules::collect_modules(ms, i, known)->Ok_0.contains(crate::rules::module_name(ms[j].declarations@)),
    decreases ms.len() - i,
{
    let n = crate::rules::module_name(ms[j].declarations@);
    if i < ms.len() {
        let next = known.push(crate::rules::module_name(ms[i].declarations@));
        if j < i {
            assert(next[known.index_of(n)] == n);
        } else if j == i {
            assert(next[known.len() as int] == n);
        }
        lemma_collected_names(ms, i + 1, next, j);
    }
}

/// Two module bodies that declare one module name: where pass one finds no
/// fault before the second, resolution fails there with
/// `CollidingModuleNames` of that name at the second body's declaration.
pub proof fn lemma_colliding_module_bodies(ms: Seq<Module>, i: int, j: int)
    requires
        0 <= i < j < ms.len(),
        next_module_declaration(ms[i].declarations@, 0) is Some,
        next_module_declaration(ms[j].declarations@, 0) is Some,
        crate::rules::module_name(ms[i].declarations@) == crate::rules::module_name(ms[j].declarations@),
        crate::rules::collect_modules(ms.subrange(0, j), 0, Seq::empty()) is Ok,
    ensures
        crate::rules::resolution_fault(ms) == Some(
            (
                Located {
                    data: Fault::CollidingModuleNames(crate::rules::module_name(ms[j].declarations@)),
                    location: ms[j].declarations@[next_module_declaration(ms[j].declarations@, 0)->Some_0]->Module_0.name.location,
                },
                j,
            ),
        ),
{
    let prefix = ms.subrange(0, j);
    lemma_collect_modules_prefix(ms, j, 0, Seq::empty());
    assert(prefix[i] == ms[i]);
    lemma_collected_names(prefix, 0, Seq::empty(), i);
}

/// Pass three over the modules before `k`, then the rest.
proof fn lemma_bind_modules_prefix(names: Seq<Symbol>, t: Tables, ms: Seq<Module>, i: int, k: int)
    requires
        0 <= i <= k < ms.len(),
        forall|m: int| i <= m < k ==> crate::rules::declarations_fault(
            crate::rules::module_scope(names, t, ms, m),
            ms[m].declarations@,
            0,
        ) is None,
    ensures
        crate::rules::bind_modules(names, t, ms, i) == crate::rules::bind_modules(names, t, ms, k),
    decreases k - i,
{
    if i < k {
        lemma_bind_modules_prefix(names, t, ms, i + 1, k);
    }
}

/// The first fault among declarations from `i` on is the one at `k` where
/// none comes before it.
proof fn lemma_declarations_prefix(sc: Scope, ds: Seq<Declaration>, i: int, k: int)
    requires
        0 <= i <= k < ds.len(),
        forall|m: int| i <= m < k ==> crate::rules::declaration_fault(sc, #[trigger] ds[m]) is None,
    ensures
        crate::rules::declarations_fault(sc, ds, i) == either(
            crate::rules::declaration_fault(sc, ds[k]),
            crate::rules::declarations_fault(sc, ds, k + 1),
        ),
    decreases k - i,
{
    if i < k {
        lemma_declarations_prefix(sc, ds, i + 1, k);
    }
}

/// Importing a module that no module body declares: where passes one and
/// two succeed and pass three meets nothing before the import, resolution
/// fails there with `ModuleDoesNotExist`.
pub proof fn lemma_import_of_undeclared_module(ms: Seq<Module>, i: int, k: int)
    requires
        0 <= i < ms.len(),
        0 <= k < ms[i].declarations@.len(),
        ms[i].declarations@[k] is Import,
        crate::rules::collect_modules(ms, 0, Seq::empty()) is Ok,
        crate::rules::collect_names(crate::rules::empty_tables(), crate::rules::program_names(ms), ms, 0) is Ok,
        !crate::rules::program_names(ms).contains(ms[i].declarations@[k]->Import_0.name.data),
        forall|m: int| 0 <= m < i ==> crate::rules::declarations_fault(
            crate::rules::module_scope(crate::rules::program_names(ms), crate::rules::program_tables(ms), ms, m),
            ms[m].declarations@,
            0,
        ) is None,
        forall|m: int| 0 <= m < k ==> crate::rules::declaration_fault(
            crate::rules::module_scope(crate::rules::program_names(ms), crate::rules::program_tables(ms), ms, i),
            #[trigger] ms[i].declarations@[m],
        ) is None,
    ensures
        crate::rules::resolution_fault(ms) == Some(
            (
                Located {
                    data: Fault::ModuleDoesNotExist(ms[i].declarations@[k]->Import_0.name.data),
                    location: ms[i].declarations@[k]->Import_0.name.location,
                },
                i,
            ),
        ),
{
    let names = crate::rules::program_names(ms);
    let t = crate::rules::program_tables(ms);
    let sc = crate::rules::module_scope(names, t, ms, i);
    lemma_bind_modules_prefix(names, t, ms, 0, i);
    lemma_declarations_prefix(sc, ms[i].declarations@, 0, k);
}

/// Pass two on the modules before `k`, then on the rest.
proof fn lemma_collect_names_prefix(t: Tables, names: Seq<Symbol>, ms: Seq<Module>, k: int, i: int)
    requires
        0 <= i <= k <= ms.len(),
    ensures
        crate::rules::collect_names(t, names, ms, i) == match crate::rules::collect_names(t, names, ms.subrange(0, k), i) {
            Ok(t2) => crate::rules::collect_names(t2, names, ms, k),
            Err(e) => Err(e),
        },
    decreases k - i,
{
    if i < k {
        assert(ms.subrange(0, k)[i] == ms[i]);
        if let Ok(t2) = collect_declarations(t, names[i], ms[i].declarations@, 0) {
            lemma_collect_names_prefix(t2, names, ms, k, i + 1);
        }
    }
}

/// Two procedures with one name in one module: where pass one succeeds and
/// pass two meets nothing before the second of them, resolution fails there
/// with `DuplicateProcedureDeclaration` of their path.
pub proof fn lemma_duplicate_procedure_in_program(ms: Seq<Module>, i: int, j: int, k: int)
    requires
        0 <= i < ms.len(),
        0 <= j < k < ms[i].declarations@.len(),
        ms[i].declarations@[j] is Procedure,
        ms[i].declarations@[k] is Procedure,
        ms[i].declarations@[j]->Procedure_0.name.data == ms[i].declarations@[k]->Procedure_0.name.data,
        crate::rules::collect_modules(ms, 0, Seq::empty()) is Ok,
        crate::rules::collect_names(
            crate::rules::empty_tables(),
            crate::rules::program_names(ms),
            ms.subrange(0, i),
            0,
        ) is Ok,
        collect_declarations(
            crate::rules::collect_names(
                crate::rules::empty_tables(),
                crate::rules::program_names(ms),
                ms.subrange(0, i),
                0,
            )->Ok_0,
            crate::rules::program_names(ms)[i],
            ms[i].declarations@.subrange(0, k),
            0,
        ) is Ok,
    ensures
        crate::rules::resolution_fault(ms) == Some(
            (
                Located {
                    data: Fault::DuplicateProcedureDeclaration(
                        seq![crate::rules::program_names(ms)[i], ms[i].declarations@[k]->Procedure_0.name.data],
                    ),
                    location: ms[i].declarations@[k]->Procedure_0.name.location,
                },
                i,
            ),
        ),
{
    let names = crate::rules::program_names(ms);
    lemma_collect_names_prefix(crate::rules::empty_tables(), names, ms, i, 0);
    let t = crate::rules::collect_names(crate::rules::empty_tables(), names, ms.subrange(0, i), 0)->Ok_0;
    lemma_duplicate_procedure(t, names[i], ms[i].declarations@, j, k);
}

} // verus!

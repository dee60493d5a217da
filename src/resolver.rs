//! The binder: collects module names, then declaration names, then resolves
//! every identifier occurrence of every declaration body.
use vstd::prelude::*;

use crate::interner::Interner;
use crate::path::{path_text, Binding, Bound, Path, Symbol};
use crate::rules::{
    args_fault, args_resolved, argument_names, branch_fault, branch_resolved, branches_fault,
    branches_resolved, case_arguments, case_fault, case_resolved, cases_fault, cases_resolved,
    constraint_fault, constraint_resolved, constraints_fault, constraints_resolved,
    declaration_fault, declaration_resolved, either, expr_fault, expr_resolved, exprs_fault,
    exprs_resolved, fault_at, global_base, innermost, innermost_below, interface_fault,
    interface_outcome, interface_resolved, interfaces_fault, method_fault, method_resolved,
    methods_fault, methods_resolved, names_of, outermost_from, paths_kept, pattern_names,
    procedure_fault, procedure_resolved, signature_fault, signature_resolved, signatures_fault,
    signatures_resolved, stmt_fault, stmt_resolved, stmts_fault, stmts_resolved, type_fault,
    type_outcome, type_resolved, type_var_fault, type_var_names, type_var_resolved,
    type_vars_fault, type_vars_resolved, types_fault, types_resolved, value_outcome,
    variant_fault, variant_resolved, Fault, Scope, Tables, args_determined, branch_determined,
    branches_determined, case_determined, declaration_determined, expr_determined,
    exprs_determined, method_determined, program_determined, signature_determined,
    stmt_determined, stmts_determined, type_determined, types_determined, bind_modules, collect_cases,
    collect_declaration, collect_declarations, collect_modules, collect_names, declaration_named,
    declarations_fault, declarations_resolved, empty_tables, imports_of, imports_upto,
    module_fault, module_name, module_resolved, module_scope, next_module_declaration,
    program_names, program_resolved, program_tables, resolution_fault, same_but_paths,
    well_formed_program, lemma_exprs_resolved_from, lemma_exprs_determined_from,
    lemma_types_resolved_from, lemma_types_determined_from, lemma_branches_resolved_from,
    lemma_branches_determined_from,
};
use crate::syntax::{
    Argument, Branch, Constraint, Declaration, Expression, ImportDeclaration, InterfaceDeclaration,
    Located, MethodDeclaration, MethodSignature, Pattern, ProcedureDeclaration, SourceLocation,
    Statement, TypeExpression, TypeVar, VariantCase, VariantDeclaration, Module,
};

verus! {

/// The errors that stop resolution.
#[derive(Debug)]
pub enum ResolveError {
    ModuleIsNotDeclared,
    ModuleDoesNotExist(Symbol),
    CollidingModuleNames(Symbol),
    DuplicateModuleDeclaration,
    DuplicateProcedureDeclaration(Path),
    DuplicateTypeDeclaration(Path),
    DuplicateConstructorDeclaration { constructor: Symbol, variant_path: Path },
    UnboundValuePath(Path),
    UnboundTypePath(Path),
}

impl View for ResolveError {
    type V = Fault;

    open spec fn view(&self) -> Fault {
        match self {
            ResolveError::ModuleIsNotDeclared => Fault::ModuleIsNotDeclared,
            ResolveError::ModuleDoesNotExist(s) => Fault::ModuleDoesNotExist(*s),
            ResolveError::CollidingModuleNames(s) => Fault::CollidingModuleNames(*s),
            ResolveError::DuplicateModuleDeclaration => Fault::DuplicateModuleDeclaration,
            ResolveError::DuplicateProcedureDeclaration(p) => Fault::DuplicateProcedureDeclaration(p@),
            ResolveError::DuplicateTypeDeclaration(p) => Fault::DuplicateTypeDeclaration(p@),
            ResolveError::DuplicateConstructorDeclaration { constructor, variant_path } =>
                Fault::DuplicateConstructorDeclaration {
                constructor: *constructor,
                variant_path: variant_path@,
            },
            ResolveError::UnboundValuePath(p) => Fault::UnboundValuePath(p@),
            ResolveError::UnboundTypePath(p) => Fault::UnboundTypePath(p@),
        }
    }
}

/// Every symbol that `f` names has a text in `names`.
pub open spec fn fault_named(names: Seq<Seq<char>>, f: Fault) -> bool {
    match f {
        Fault::ModuleDoesNotExist(s) => s.idx < names.len(),
        Fault::CollidingModuleNames(s) => s.idx < names.len(),
        Fault::DuplicateProcedureDeclaration(p) => symbols_named(names, p),
        Fault::DuplicateTypeDeclaration(p) => symbols_named(names, p),
        Fault::DuplicateConstructorDeclaration { constructor, variant_path } => constructor.idx < names.len()
            && symbols_named(names, variant_path),
        Fault::UnboundValuePath(p) => symbols_named(names, p),
        Fault::UnboundTypePath(p) => symbols_named(names, p),
        _ => true,
    }
}

pub open spec fn symbols_named(names: Seq<Seq<char>>, p: Seq<Symbol>) -> bool {
    forall|i: int| 0 <= i < p.len() ==> (#[trigger] p[i]).idx < names.len()
}

pub open spec fn quoted(t: Seq<char>) -> Seq<char> {
    seq!['`'] + t + seq!['`']
}

/// The message that describes `f`.
pub open spec fn description_text(names: Seq<Seq<char>>, f: Fault) -> Seq<char> {
    match f {
        Fault::ModuleIsNotDeclared => "No module declarations found."@,
        Fault::ModuleDoesNotExist(s) => "Imported module "@ + quoted(names[s.idx as int]) + " does not exist."@,
        Fault::CollidingModuleNames(s) => "Already imported a module named "@ + quoted(names[s.idx as int]) + "."@,
        Fault::DuplicateModuleDeclaration => "Duplicate declaration of module."@,
        Fault::DuplicateProcedureDeclaration(p) => "Duplicate declaration of procedure "@ + quoted(path_text(names, p))
            + "."@,
        Fault::DuplicateTypeDeclaration(p) => "Duplicate declaration of type "@ + quoted(path_text(names, p)) + "."@,
        Fault::DuplicateConstructorDeclaration { constructor, variant_path } => "Duplicate declaration of constructor "@
            + quoted(names[constructor.idx as int]) + " in variant type "@ + quoted(path_text(names, variant_path))
            + "."@,
        Fault::UnboundValuePath(p) => quoted(path_text(names, p)) + " is not bound to a value."@,
        Fault::UnboundTypePath(p) => quoted(path_text(names, p)) + " is not bound to a type."@,
        Fault::Malformed => Seq::empty(),
    }
}

/// `before`, then `text` in backquotes, then `after`.
fn quote_between(before: &str, text: &str, after: &str) -> (r: String)
    ensures
        r@ == before@ + quoted(text@) + after@,
{
    let mut r = String::from_str(before);
    r.append("`");
    r.append(text);
    r.append("`");
    r.append(after);
    proof {
        reveal_strlit("`");
    }
    assert(r@ =~= before@ + (seq!['`'] + text@ + seq!['`']) + after@);
    r
}

impl ResolveError {
    /// The message that describes this error.
    pub fn description(&self, interner: &Interner) -> (r: String)
        requires
            fault_named(interner.names(), self@),
        ensures
            r@ == description_text(interner.names(), self@),
    {
        proof {
            reveal_strlit("");
        }
        match self {
            ResolveError::ModuleIsNotDeclared => String::from_str("No module declarations found."),
            ResolveError::ModuleDoesNotExist(s) => quote_between(
                "Imported module ",
                interner.get(*s),
                " does not exist.",
            ),
            ResolveError::CollidingModuleNames(s) => quote_between(
                "Already imported a module named ",
                interner.get(*s),
                ".",
            ),
            ResolveError::DuplicateModuleDeclaration => String::from_str("Duplicate declaration of module."),
            ResolveError::DuplicateProcedureDeclaration(p) => quote_between(
                "Duplicate declaration of procedure ",
                p.as_string(interner).as_str(),
                ".",
            ),
            ResolveError::DuplicateTypeDeclaration(p) => quote_between(
                "Duplicate declaration of type ",
                p.as_string(interner).as_str(),
                ".",
            ),
            ResolveError::DuplicateConstructorDeclaration { constructor, variant_path } => {
                let head = quote_between(
                    "Duplicate declaration of constructor ",
                    interner.get(*constructor),
                    " in variant type ",
                );
                quote_between(head.as_str(), variant_path.as_string(interner).as_str(), ".")
            },
            ResolveError::UnboundValuePath(p) => quote_between(
                "",
                p.as_string(interner).as_str(),
                " is not bound to a value.",
            ),
            ResolveError::UnboundTypePath(p) => quote_between(
                "",
                p.as_string(interner).as_str(),
                " is not bound to a type.",
            ),
        }
    }
}

pub open spec fn located_fault(e: Located<ResolveError>) -> Located<Fault> {
    Located { data: e.data@, location: e.location }
}

/// An outcome that is not the fault of a malformed tree.
pub open spec fn well_formed(f: Option<Located<Fault>>) -> bool {
    !(f is Some && f->Some_0.data is Malformed)
}

pub open spec fn paths_view(paths: Seq<Path>) -> Seq<Seq<Symbol>> {
    paths.map_values(|p: Path| p@)
}

/// What pass one learns of a module.
pub struct ModuleInformation {
    pub name: Symbol,
    pub imports: Vec<Symbol>,
}

/// The state of resolution. `resolve` starts from an empty state, so what
/// one call leaves here does not reach the next.
pub struct Resolver {
    /// What pass one learned of each module, in input order.
    pub modules: Vec<ModuleInformation>,
    pub type_names: Vec<Path>,
    pub value_names: Vec<Path>,
    /// Value bindings in scope, innermost last.
    pub locals: Vec<Symbol>,
    /// Type parameters in scope, innermost last.
    pub type_locals: Vec<Symbol>,
    /// Index in `modules` of the module whose bodies are being resolved.
    pub current: usize,
}

/// Whether `s` occurs in `v`.
fn contains_symbol(v: &Vec<Symbol>, s: Symbol) -> (r: bool)
    ensures
        r == v@.contains(s),
{
    let mut i: usize = 0;
    while i < v.len()
        invariant
            i <= v@.len(),
            forall|j: int| 0 <= j < i ==> v@[j] != s,
        decreases v@.len() - i,
    {
        if v[i] == s {
            assert(v@[i as int] == s);
            return true;
        }
        i += 1;
    }
    false
}

/// Whether a path with the segments of `p` occurs in `paths`.
fn contains_path(paths: &Vec<Path>, p: &Path) -> (r: bool)
    ensures
        r == paths_view(paths@).contains(p@),
{
    let mut i: usize = 0;
    while i < paths.len()
        invariant
            i <= paths@.len(),
            forall|j: int| 0 <= j < i ==> paths@[j]@ != p@,
        decreases paths@.len() - i,
    {
        if paths[i].same(p) {
            assert(paths_view(paths@)[i as int] == p@);
            return true;
        }
        i += 1;
    }
    assert forall|j: int| 0 <= j < paths_view(paths@).len() implies paths_view(paths@)[j] != p@ by {
        assert(paths_view(paths@)[j] == paths@[j]@);
    }
    false
}

/// Position of the outermost binding of `s` in `locals`.
fn outermost_local(locals: &Vec<Symbol>, s: Symbol) -> (r: Option<usize>)
    ensures
        r is Some ==> outermost_from(locals@, s, 0) == Some(r->Some_0 as nat),
        r is None ==> outermost_from(locals@, s, 0) is None,
{
    let mut i: usize = 0;
    while i < locals.len()
        invariant
            i <= locals@.len(),
            outermost_from(locals@, s, i as int) == outermost_from(locals@, s, 0),
        decreases locals@.len() - i,
    {
        if locals[i] == s {
            return Some(i);
        }
        i += 1;
    }
    None
}

/// Whether a case before the `i`th has the `i`th one's name.
fn case_named_before(cases: &Vec<Located<VariantCase>>, i: usize) -> (r: bool)
    requires
        i < cases@.len(),
    ensures
        r == exists|j: int| 0 <= j < i && cases@[j].data.identifier.data == cases@[i as int].data.identifier.data,
{
    let mut j: usize = 0;
    while j < i
        invariant
            i < cases@.len(),
            j <= i,
            forall|k: int| 0 <= k < j ==> cases@[k].data.identifier.data != cases@[i as int].data.identifier.data,
        decreases i - j,
    {
        if cases[j].data.identifier.data == cases[i].data.identifier.data {
            return true;
        }
        j += 1;
    }
    false
}

/// The value names once the constructors of the first `i` cases are added.
pub open spec fn constructors_after(
    values: Seq<Seq<Symbol>>,
    variant: Seq<Symbol>,
    cases: Seq<Located<VariantCase>>,
    i: int,
) -> Seq<Seq<Symbol>> {
    values + Seq::new(i as nat, |j: int| variant.push(cases[j].data.identifier.data))
}

proof fn lemma_constructors_after(values: Seq<Seq<Symbol>>, variant: Seq<Symbol>, cases: Seq<Located<VariantCase>>, i: int)
    requires
        0 <= i < cases.len(),
    ensures
        constructors_after(values, variant, cases, i).contains(variant.push(cases[i].data.identifier.data)) <==> (
        values.contains(variant.push(cases[i].data.identifier.data)) || exists|j: int|
            0 <= j < i && cases[j].data.identifier.data == cases[i].data.identifier.data),
{
    let acc = constructors_after(values, variant, cases, i);
    let p = variant.push(cases[i].data.identifier.data);
    if acc.contains(p) {
        let k = choose|k: int| 0 <= k < acc.len() && acc[k] == p;
        if k >= values.len() {
            let j = k - values.len();
            assert(acc[k] == variant.push(cases[j].data.identifier.data));
            assert(acc[k].last() == cases[j].data.identifier.data);
            assert(p.last() == cases[i].data.identifier.data);
        } else {
            assert(values[k] == p);
        }
    }
    if values.contains(p) {
        let k = choose|k: int| 0 <= k < values.len() && values[k] == p;
        assert(acc[k] == p);
    }
    if exists|j: int| 0 <= j < i && cases[j].data.identifier.data == cases[i].data.identifier.data {
        let j = choose|j: int| 0 <= j < i && cases[j].data.identifier.data == cases[i].data.identifier.data;
        assert(acc[values.len() + j] == variant.push(cases[j].data.identifier.data));
        assert(variant.push(cases[j].data.identifier.data) =~= p);
    }
}

/// Distance from the top of `locals` of the innermost binding of `s`.
fn innermost_local(locals: &Vec<Symbol>, s: Symbol) -> (r: Option<usize>)
    ensures
        r is Some ==> innermost(locals@, s) == Some(r->Some_0 as nat),
        r is None ==> innermost(locals@, s) is None,
{
    let mut n: usize = locals.len();
    while n > 0
        invariant
            n <= locals@.len(),
            innermost_below(locals@, s, n as int) == innermost(locals@, s),
        decreases n,
    {
        if locals[n - 1] == s {
            return Some(locals.len() - n);
        }
        n -= 1;
    }
    None
}

impl Resolver {
    spec fn scope(&self) -> Scope {
        Scope {
            values: self.locals@,
            types: self.type_locals@,
            imports: self.modules@[self.current as int].imports@,
            module: self.modules@[self.current as int].name,
            modules: self.known_modules(),
            value_names: paths_view(self.value_names@),
            type_names: paths_view(self.type_names@),
        }
    }

    spec fn known_modules(&self) -> Seq<Symbol> {
        self.modules@.map_values(|m: ModuleInformation| m.name)
    }

    spec fn tables(&self) -> Tables {
        Tables { values: paths_view(self.value_names@), types: paths_view(self.type_names@) }
    }

    spec fn inv(&self) -> bool {
        self.current < self.modules@.len()
    }

    /// Everything but the local scopes is as in `before`, and the local
    /// scopes hold what they held there.
    spec fn restored(&self, before: Resolver) -> bool {
        &&& self.modules == before.modules
        &&& self.type_names == before.type_names
        &&& self.value_names == before.value_names
        &&& self.current == before.current
        &&& self.locals@ == before.locals@
        &&& self.type_locals@ == before.type_locals@
    }

    fn current_imports(&self) -> (r: &Vec<Symbol>)
        requires
            self.inv(),
        ensures
            r@ == self.scope().imports,
    {
        &self.modules[self.current].imports
    }

    fn current_name(&self) -> (r: Symbol)
        requires
            self.inv(),
        ensures
            r == self.scope().module,
    {
        self.modules[self.current].name
    }

    /// The path a non-local name `s` starts: the imported module itself, or
    /// a declaration of the current module.
    fn global_base(&self, s: Symbol) -> (r: Path)
        requires
            self.inv(),
        ensures
            r@ == global_base(self.scope().imports, self.scope().module, s),
    {
        if contains_symbol(self.current_imports(), s) {
            Path::empty().append(s)
        } else {
            Path::empty().append(self.current_name()).append(s)
        }
    }

    /// Resolves a value path in the current scope.
    fn value_path(&self, parts: &Vec<Symbol>, location: SourceLocation) -> (r: Result<
        Bound,
        Located<ResolveError>,
    >)
        requires
            self.inv(),
            value_outcome(self.scope(), parts@) != Err::<Binding, Fault>(Fault::Malformed),
        ensures
            r is Ok ==> value_outcome(self.scope(), parts@) == Ok::<Binding, Fault>(r->Ok_0@),
            r is Ok ==> !(r->Ok_0@ is Undetermined),
            r is Err ==> value_outcome(self.scope(), parts@) == Err::<Binding, Fault>(r->Err_0.data@)
                && r->Err_0.location == location,
    {
        assert(parts@.len() > 0);
        match innermost_local(&self.locals, parts[0]) {
            Some(d) => Ok(Bound::Local(d)),
            None => {
                let full = self.global_base(parts[0]).append_parts_from(parts.as_slice(), 1);
                assert(parts@.drop_first() == parts@.subrange(1, parts@.len() as int));
                if contains_path(&self.value_names, &full) {
                    Ok(Bound::Absolute(full))
                } else {
                    Err(Located::new(ResolveError::UnboundValuePath(full), location))
                }
            },
        }
    }

    /// Resolves a type path in the current scope.
    fn type_path(&self, parts: &Vec<Symbol>, location: SourceLocation) -> (r: Result<
        Bound,
        Located<ResolveError>,
    >)
        requires
            self.inv(),
            type_outcome(self.scope(), parts@) != Err::<Binding, Fault>(Fault::Malformed),
        ensures
            r is Ok ==> type_outcome(self.scope(), parts@) == Ok::<Binding, Fault>(r->Ok_0@),
            r is Ok ==> !(r->Ok_0@ is Undetermined),
            r is Err ==> type_outcome(self.scope(), parts@) == Err::<Binding, Fault>(r->Err_0.data@)
                && r->Err_0.location == location,
    {
        assert(parts@.len() > 0);
        match innermost_local(&self.type_locals, parts[0]) {
            Some(d) => Ok(Bound::Local(d)),
            None => {
                let full = self.global_base(parts[0]).append_parts_from(parts.as_slice(), 1);
                assert(parts@.drop_first() == parts@.subrange(1, parts@.len() as int));
                if contains_path(&self.type_names, &full) {
                    Ok(Bound::Absolute(full))
                } else {
                    Err(Located::new(ResolveError::UnboundTypePath(full), location))
                }
            },
        }
    }

    fn expression(&mut self, e: &mut Located<Expression>) -> (r: Result<(), Located<ResolveError>>)
        requires
            old(self).inv(),
            well_formed(expr_fault(old(self).scope(), *old(e))),
        ensures
            final(self).restored(*old(self)),
            r is Ok <==> expr_fault(old(self).scope(), *old(e)) is None,
            r is Ok ==> expr_resolved(old(self).scope(), *old(e), *final(e)),
            r is Ok ==> expr_determined(*final(e)),
            r is Err ==> expr_fault(old(self).scope(), *old(e)) == Some(located_fault(r->Err_0)),
        decreases *old(e), 0int,
    {
        let location = e.location;
        match &mut e.data {
            Expression::Path { parts, bound } => {
                match self.value_path(parts, location) {
                    Ok(b) => {
                        *bound = b;
                        Ok(())
                    },
                    Err(x) => Err(x),
                }
            },
            Expression::Application { function, arguments } => {
                match self.expression(function) {
                    Ok(()) => {},
                    Err(x) => return Err(x),
                }
                self.expressions(arguments)
            },
            Expression::Projection { expression, .. } => self.expression(expression),
            Expression::Let { name, value, body } => {
                match self.expression(value) {
                    Ok(()) => {},
                    Err(x) => return Err(x),
                }
                let saved = self.locals.len();
                self.locals.push(name.data);
                assert(self.locals@ =~= old(self).locals@ + seq![name.data]);
                assert(self.scope() == old(self).scope().bind_values(seq![name.data]));
                let r = self.expression(body);
                self.locals.truncate(saved);
                assert(self.locals@ =~= old(self).locals@);
                r
            },
            Expression::Natural(_) => Ok(()),
        }
    }

    fn expressions(&mut self, es: &mut Vec<Located<Expression>>) -> (r: Result<(), Located<ResolveError>>)
        requires
            old(self).inv(),
            well_formed(exprs_fault(old(self).scope(), old(es)@, 0)),
        ensures
            final(self).restored(*old(self)),
            r is Ok <==> exprs_fault(old(self).scope(), old(es)@, 0) is None,
            r is Ok ==> exprs_resolved(old(self).scope(), old(es)@, final(es)@),
            r is Ok ==> exprs_determined(final(es)@),
            r is Err ==> exprs_fault(old(self).scope(), old(es)@, 0) == Some(located_fault(r->Err_0)),
        decreases old(es)@, 1int,
    {
        let ghost sc = self.scope();
        let ghost olds = es@;
        let n = es.len();
        let mut i: usize = 0;
        while i < n
            invariant
                self.inv(),
                self.restored(*old(self)),
                self.scope() == sc,
                olds == old(es)@,
                n == olds.len(),
                es@.len() == n,
                i <= n,
                sc == old(self).scope(),
                well_formed(exprs_fault(sc, olds, 0)),
                exprs_fault(sc, olds, i as int) == exprs_fault(sc, olds, 0),
                forall|j: int| 0 <= j < i ==> expr_resolved(sc, olds[j], #[trigger] es@[j]),
                forall|j: int| 0 <= j < i ==> expr_determined(#[trigger] es@[j]),
                forall|j: int| i <= j < n ==> es@[j] == olds[j],
            decreases n - i,
        {
            assert(exprs_fault(sc, olds, i as int) == either(expr_fault(sc, olds[i as int]), exprs_fault(sc, olds, i + 1)));
            match self.expression(&mut es[i]) {
                Ok(()) => {},
                Err(x) => return Err(x),
            }
            i += 1;
        }
        proof {
            lemma_exprs_resolved_from(sc, olds, es@, 0);
            lemma_exprs_determined_from(es@, 0);
        }
        Ok(())
    }

    fn type_expression(&mut self, t: &mut Located<TypeExpression>) -> (r: Result<(), Located<ResolveError>>)
        requires
            old(self).inv(),
            well_formed(type_fault(old(self).scope(), *old(t))),
        ensures
            final(self).restored(*old(self)),
            r is Ok <==> type_fault(old(self).scope(), *old(t)) is None,
            r is Ok ==> type_resolved(old(self).scope(), *old(t), *final(t)),
            r is Ok ==> type_determined(*final(t)),
            r is Err ==> type_fault(old(self).scope(), *old(t)) == Some(located_fault(r->Err_0)),
        decreases *old(t), 0int,
    {
        let location = t.location;
        match &mut t.data {
            TypeExpression::Path { parts, bound } => {
                match self.type_path(parts, location) {
                    Ok(b) => {
                        *bound = b;
                        Ok(())
                    },
                    Err(x) => Err(x),
                }
            },
            TypeExpression::Procedure { arguments, return_type } => {
                match self.type_expressions(arguments) {
                    Ok(()) => {},
                    Err(x) => return Err(x),
                }
                self.type_expression(return_type)
            },
            TypeExpression::Application { function, arguments } => {
                match self.type_expression(function) {
                    Ok(()) => {},
                    Err(x) => return Err(x),
                }
                self.type_expressions(arguments)
            },
        }
    }

    fn type_expressions(&mut self, ts: &mut Vec<Located<TypeExpression>>) -> (r: Result<(), Located<ResolveError>>)
        requires
            old(self).inv(),
            well_formed(types_fault(old(self).scope(), old(ts)@, 0)),
        ensures
            final(self).restored(*old(self)),
            r is Ok <==> types_fault(old(self).scope(), old(ts)@, 0) is None,
            r is Ok ==> types_resolved(old(self).scope(), old(ts)@, final(ts)@),
            r is Ok ==> types_determined(final(ts)@),
            r is Err ==> types_fault(old(self).scope(), old(ts)@, 0) == Some(located_fault(r->Err_0)),
        decreases old(ts)@, 1int,
    {
        let ghost sc = self.scope();
        let ghost olds = ts@;
        let n = ts.len();
        let mut i: usize = 0;
        while i < n
            invariant
                self.inv(),
                self.restored(*old(self)),
                self.scope() == sc,
                olds == old(ts)@,
                n == olds.len(),
                ts@.len() == n,
                i <= n,
                sc == old(self).scope(),
                well_formed(types_fault(sc, olds, 0)),
                types_fault(sc, olds, i as int) == types_fault(sc, olds, 0),
                forall|j: int| 0 <= j < i ==> type_resolved(sc, olds[j], #[trigger] ts@[j]),
                forall|j: int| 0 <= j < i ==> type_determined(#[trigger] ts@[j]),
                forall|j: int| i <= j < n ==> ts@[j] == olds[j],
            decreases n - i,
        {
            assert(types_fault(sc, olds, i as int) == either(type_fault(sc, olds[i as int]), types_fault(sc, olds, i + 1)));
            match self.type_expression(&mut ts[i]) {
                Ok(()) => {},
                Err(x) => return Err(x),
            }
            i += 1;
        }
        proof {
            lemma_types_resolved_from(sc, olds, ts@, 0);
            lemma_types_determined_from(ts@, 0);
        }
        Ok(())
    }

    /// Pushes the given names on the value scope.
    fn bind_values(&mut self, names: &Vec<Located<Symbol>>)
        ensures
            final(self).locals@ == old(self).locals@ + names_of(names@),
            final(self).type_locals == old(self).type_locals,
            final(self).modules == old(self).modules,
            final(self).type_names == old(self).type_names,
            final(self).value_names == old(self).value_names,
            final(self).current == old(self).current,
    {
        let mut i: usize = 0;
        while i < names.len()
            invariant
                i <= names@.len(),
                self.locals@ == old(self).locals@ + names_of(names@.subrange(0, i as int)),
                self.type_locals == old(self).type_locals,
                self.modules == old(self).modules,
                self.type_names == old(self).type_names,
                self.value_names == old(self).value_names,
                self.current == old(self).current,
            decreases names@.len() - i,
        {
            self.locals.push(names[i].data);
            assert(names_of(names@.subrange(0, i + 1)) =~= names_of(names@.subrange(0, i as int)).push(names@[i as int].data));
            i += 1;
        }
        assert(names@.subrange(0, names@.len() as int) == names@);
    }

    /// Pushes the given names on the type parameter scope.
    fn bind_types(&mut self, names: &Vec<Located<Symbol>>)
        ensures
            final(self).type_locals@ == old(self).type_locals@ + names_of(names@),
            final(self).locals == old(self).locals,
            final(self).modules == old(self).modules,
            final(self).type_names == old(self).type_names,
            final(self).value_names == old(self).value_names,
            final(self).current == old(self).current,
    {
        let mut i: usize = 0;
        while i < names.len()
            invariant
                i <= names@.len(),
                self.type_locals@ == old(self).type_locals@ + names_of(names@.subrange(0, i as int)),
                self.locals == old(self).locals,
                self.modules == old(self).modules,
                self.type_names == old(self).type_names,
                self.value_names == old(self).value_names,
                self.current == old(self).current,
            decreases names@.len() - i,
        {
            self.type_locals.push(names[i].data);
            assert(names_of(names@.subrange(0, i + 1)) =~= names_of(names@.subrange(0, i as int)).push(names@[i as int].data));
            i += 1;
        }
        assert(names@.subrange(0, names@.len() as int) == names@);
    }

    /// Pushes the names of the given arguments on the value scope.
    fn bind_arguments(&mut self, args: &Vec<Located<Argument>>)
        ensures
            final(self).locals@ == old(self).locals@ + argument_names(args@),
            final(self).type_locals == old(self).type_locals,
            final(self).modules == old(self).modules,
            final(self).type_names == old(self).type_names,
            final(self).value_names == old(self).value_names,
            final(self).current == old(self).current,
    {
        let mut i: usize = 0;
        while i < args.len()
            invariant
                i <= args@.len(),
                self.locals@ == old(self).locals@ + argument_names(args@.subrange(0, i as int)),
                self.type_locals == old(self).type_locals,
                self.modules == old(self).modules,
                self.type_names == old(self).type_names,
                self.value_names == old(self).value_names,
                self.current == old(self).current,
            decreases args@.len() - i,
        {
            self.locals.push(args[i].data.identifier.data);
            assert(argument_names(args@.subrange(0, i + 1)) =~= argument_names(args@.subrange(0, i as int)).push(args@[i as int].data.identifier.data));
            i += 1;
        }
        assert(args@.subrange(0, args@.len() as int) == args@);
    }

    /// Pushes the names of the given type parameters on the type scope.
    fn bind_type_vars(&mut self, tvs: &Vec<Located<TypeVar>>)
        ensures
            final(self).type_locals@ == old(self).type_locals@ + type_var_names(tvs@),
            final(self).locals == old(self).locals,
            final(self).modules == old(self).modules,
            final(self).type_names == old(self).type_names,
            final(self).value_names == old(self).value_names,
            final(self).current == old(self).current,
    {
        let mut i: usize = 0;
        while i < tvs.len()
            invariant
                i <= tvs@.len(),
                self.type_locals@ == old(self).type_locals@ + type_var_names(tvs@.subrange(0, i as int)),
                self.locals == old(self).locals,
                self.modules == old(self).modules,
                self.type_names == old(self).type_names,
                self.value_names == old(self).value_names,
                self.current == old(self).current,
            decreases tvs@.len() - i,
        {
            self.type_locals.push(tvs[i].data.name.data);
            assert(type_var_names(tvs@.subrange(0, i + 1)) =~= type_var_names(tvs@.subrange(0, i as int)).push(tvs@[i as int].data.name.data));
            i += 1;
        }
        assert(tvs@.subrange(0, tvs@.len() as int) == tvs@);
    }

    fn statement(&mut self, s: &mut Located<Statement>) -> (r: Result<(), Located<ResolveError>>)
        requires
            old(self).inv(),
            well_formed(stmt_fault(old(self).scope(), *old(s))),
        ensures
            final(self).restored(*old(self)),
            r is Ok <==> stmt_fault(old(self).scope(), *old(s)) is None,
            r is Ok ==> stmt_resolved(old(self).scope(), *old(s), *final(s)),
            r is Ok ==> stmt_determined(*final(s)),
            r is Err ==> stmt_fault(old(self).scope(), *old(s)) == Some(located_fault(r->Err_0)),
        decreases *old(s), 0int,
    {
        match &mut s.data {
            Statement::Expression(e) => self.expression(e),
            Statement::Return(e) => self.expression(e),
            Statement::Match { expression, branches } => {
                match self.expression(expression) {
                    Ok(()) => {},
                    Err(x) => return Err(x),
                }
                self.branches(branches)
            },
        }
    }

    fn branch(&mut self, b: &mut Located<Branch>) -> (r: Result<(), Located<ResolveError>>)
        requires
            old(self).inv(),
            well_formed(branch_fault(old(self).scope(), *old(b))),
        ensures
            final(self).restored(*old(self)),
            r is Ok <==> branch_fault(old(self).scope(), *old(b)) is None,
            r is Ok ==> branch_resolved(old(self).scope(), *old(b), *final(b)),
            r is Ok ==> branch_determined(*final(b)),
            r is Err ==> branch_fault(old(self).scope(), *old(b)) == Some(located_fault(r->Err_0)),
        decreases *old(b), 0int,
    {
        let saved = self.locals.len();
        match &b.data.pattern.data {
            Pattern::VariantCase { fields, .. } => match fields {
                Some(fs) => self.bind_values(fs),
                None => {},
            },
        }
        assert(self.locals@ =~= old(self).locals@ + pattern_names(b.data.pattern.data));
        assert(self.scope() == old(self).scope().bind_values(pattern_names(b.data.pattern.data)));
        let r = self.statement(&mut b.data.statement);
        self.locals.truncate(saved);
        assert(self.locals@ =~= old(self).locals@);
        r
    }

    fn branches(&mut self, bs: &mut Vec<Located<Branch>>) -> (r: Result<(), Located<ResolveError>>)
        requires
            old(self).inv(),
            well_formed(branches_fault(old(self).scope(), old(bs)@, 0)),
        ensures
            final(self).restored(*old(self)),
            r is Ok <==> branches_fault(old(self).scope(), old(bs)@, 0) is None,
            r is Ok ==> branches_resolved(old(self).scope(), old(bs)@, final(bs)@),
            r is Ok ==> branches_determined(final(bs)@),
            r is Err ==> branches_fault(old(self).scope(), old(bs)@, 0) == Some(located_fault(r->Err_0)),
        decreases old(bs)@, 1int,
    {
        let ghost sc = self.scope();
        let ghost olds = bs@;
        let n = bs.len();
        let mut i: usize = 0;
        while i < n
            invariant
                self.inv(),
                self.restored(*old(self)),
                self.scope() == sc,
                sc == old(self).scope(),
                olds == old(bs)@,
                well_formed(branches_fault(sc, olds, 0)),
                n == olds.len(),
                bs@.len() == n,
                i <= n,
                branches_fault(sc, olds, i as int) == branches_fault(sc, olds, 0),
                forall|j: int| 0 <= j < i ==> branch_resolved(sc, olds[j], #[trigger] bs@[j]),
                forall|j: int| 0 <= j < i ==> branch_determined(#[trigger] bs@[j]),
                forall|j: int| i <= j < n ==> bs@[j] == olds[j],
            decreases n - i,
        {
            assert(branches_fault(sc, olds, i as int) == either(branch_fault(sc, olds[i as int]), branches_fault(sc, olds, i + 1)));
            match self.branch(&mut bs[i]) {
                Ok(()) => {},
                Err(x) => return Err(x),
            }
            i += 1;
        }
        proof {
            lemma_branches_resolved_from(sc, olds, bs@, 0);
            lemma_branches_determined_from(bs@, 0);
        }
        Ok(())
    }

    fn statements(&mut self, ss: &mut Vec<Located<Statement>>) -> (r: Result<(), Located<ResolveError>>)
        requires
            old(self).inv(),
            well_formed(stmts_fault(old(self).scope(), old(ss)@, 0)),
        ensures
            final(self).restored(*old(self)),
            r is Ok <==> stmts_fault(old(self).scope(), old(ss)@, 0) is None,
            r is Ok ==> stmts_resolved(old(self).scope(), old(ss)@, final(ss)@),
            r is Ok ==> stmts_determined(final(ss)@),
            r is Err ==> stmts_fault(old(self).scope(), old(ss)@, 0) == Some(located_fault(r->Err_0)),
    {
        let ghost sc = self.scope();
        let ghost olds = ss@;
        let n = ss.len();
        let mut i: usize = 0;
        while i < n
            invariant
                self.inv(),
                self.restored(*old(self)),
                self.scope() == sc,
                sc == old(self).scope(),
                olds == old(ss)@,
                well_formed(stmts_fault(sc, olds, 0)),
                n == olds.len(),
                ss@.len() == n,
                i <= n,
                stmts_fault(sc, olds, i as int) == stmts_fault(sc, olds, 0),
                forall|j: int| 0 <= j < i ==> stmt_resolved(sc, olds[j], #[trigger] ss@[j]),
                forall|j: int| 0 <= j < i ==> stmt_determined(#[trigger] ss@[j]),
                forall|j: int| i <= j < n ==> ss@[j] == olds[j],
            decreases n - i,
        {
            assert(stmts_fault(sc, olds, i as int) == either(stmt_fault(sc, olds[i as int]), stmts_fault(sc, olds, i + 1)));
            match self.statement(&mut ss[i]) {
                Ok(()) => {},
                Err(x) => return Err(x),
            }
            i += 1;
        }
        Ok(())
    }

    /// The path of the interface named `s`.
    fn interface_path(&self, s: Symbol, location: SourceLocation) -> (r: Result<Path, Located<ResolveError>>)
        requires
            self.inv(),
        ensures
            r is Ok ==> interface_outcome(self.scope(), s) == Ok::<Seq<Symbol>, Fault>(r->Ok_0@),
            r is Err ==> interface_outcome(self.scope(), s) == Err::<Seq<Symbol>, Fault>(r->Err_0.data@)
                && r->Err_0.location == location,
    {
        let p = self.global_base(s);
        if contains_path(&self.type_names, &p) {
            Ok(p)
        } else {
            Err(Located::new(ResolveError::UnboundTypePath(p), location))
        }
    }

    fn type_var(&self, tv: &mut TypeVar) -> (r: Result<(), Located<ResolveError>>)
        requires
            self.inv(),
        ensures
            r is Ok <==> type_var_fault(self.scope(), *old(tv)) is None,
            r is Ok ==> type_var_resolved(self.scope(), *old(tv), *final(tv)),
            r is Err ==> type_var_fault(self.scope(), *old(tv)) == Some(located_fault(r->Err_0)),
    {
        let ghost sc = self.scope();
        let ghost olds = tv.interfaces@;
        let n = tv.interfaces.len();
        let mut i: usize = 0;
        while i < n
            invariant
                self.inv(),
                sc == self.scope(),
                olds == old(tv).interfaces@,
                tv.name == old(tv).name,
                n == olds.len(),
                tv.interfaces@.len() == n,
                i <= n,
                interfaces_fault(sc, olds, i as int) == interfaces_fault(sc, olds, 0),
                forall|j: int| 0 <= j < i ==> (#[trigger] tv.interfaces@[j]).0 == olds[j].0
                    && interface_outcome(sc, olds[j].0.data) == Ok::<Seq<Symbol>, Fault>(tv.interfaces@[j].1@),
                forall|j: int| i <= j < n ==> tv.interfaces@[j] == olds[j],
            decreases n - i,
        {
            let name = tv.interfaces[i].0.data;
            let location = tv.interfaces[i].0.location;
            match self.interface_path(name, location) {
                Ok(p) => {
                    let entry = &mut tv.interfaces[i];
                    entry.1 = p;
                },
                Err(x) => return Err(x),
            }
            i += 1;
        }
        Ok(())
    }

    fn type_vars(&self, tvs: &mut Vec<Located<TypeVar>>) -> (r: Result<(), Located<ResolveError>>)
        requires
            self.inv(),
        ensures
            r is Ok <==> type_vars_fault(self.scope(), old(tvs)@, 0) is None,
            r is Ok ==> type_vars_resolved(self.scope(), old(tvs)@, final(tvs)@),
            r is Err ==> type_vars_fault(self.scope(), old(tvs)@, 0) == Some(located_fault(r->Err_0)),
    {
        let ghost sc = self.scope();
        let ghost olds = tvs@;
        let n = tvs.len();
        let mut i: usize = 0;
        while i < n
            invariant
                self.inv(),
                sc == self.scope(),
                olds == old(tvs)@,
                n == olds.len(),
                tvs@.len() == n,
                i <= n,
                type_vars_fault(sc, olds, i as int) == type_vars_fault(sc, olds, 0),
                forall|j: int| 0 <= j < i ==> (#[trigger] tvs@[j]).location == olds[j].location
                    && type_var_resolved(sc, olds[j].data, tvs@[j].data),
                forall|j: int| i <= j < n ==> tvs@[j] == olds[j],
            decreases n - i,
        {
            match self.type_var(&mut tvs[i].data) {
                Ok(()) => {},
                Err(x) => return Err(x),
            }
            i += 1;
        }
        Ok(())
    }

    fn arguments(&mut self, args: &mut Vec<Located<Argument>>) -> (r: Result<(), Located<ResolveError>>)
        requires
            old(self).inv(),
            well_formed(args_fault(old(self).scope(), old(args)@, 0)),
        ensures
            final(self).restored(*old(self)),
            r is Ok <==> args_fault(old(self).scope(), old(args)@, 0) is None,
            r is Ok ==> args_resolved(old(self).scope(), old(args)@, final(args)@),
            r is Ok ==> args_determined(final(args)@),
            r is Err ==> args_fault(old(self).scope(), old(args)@, 0) == Some(located_fault(r->Err_0)),
    {
        let ghost sc = self.scope();
        let ghost olds = args@;
        let n = args.len();
        let mut i: usize = 0;
        while i < n
            invariant
                self.inv(),
                self.restored(*old(self)),
                self.scope() == sc,
                sc == old(self).scope(),
                olds == old(args)@,
                well_formed(args_fault(sc, olds, 0)),
                n == olds.len(),
                args@.len() == n,
                i <= n,
                args_fault(sc, olds, i as int) == args_fault(sc, olds, 0),
                forall|j: int| 0 <= j < i ==> (#[trigger] args@[j]).location == olds[j].location
                    && args@[j].data.identifier == olds[j].data.identifier
                    && type_resolved(sc, olds[j].data.type_expression, args@[j].data.type_expression),
                forall|j: int| 0 <= j < i ==> type_determined(#[trigger] args@[j].data.type_expression),
                forall|j: int| i <= j < n ==> args@[j] == olds[j],
            decreases n - i,
        {
            assert(args_fault(sc, olds, i as int) == either(type_fault(sc, olds[i as int].data.type_expression), args_fault(sc, olds, i + 1)));
            match self.type_expression(&mut args[i].data.type_expression) {
                Ok(()) => {},
                Err(x) => return Err(x),
            }
            i += 1;
        }
        Ok(())
    }

    fn constraint(&self, c: &mut Constraint) -> (r: Result<(), Located<ResolveError>>)
        requires
            self.inv(),
            well_formed(constraint_fault(self.scope(), *old(c))),
        ensures
            r is Ok <==> constraint_fault(self.scope(), *old(c)) is None,
            r is Ok ==> constraint_resolved(self.scope(), *old(c), *final(c)),
            r is Err ==> constraint_fault(self.scope(), *old(c)) == Some(located_fault(r->Err_0)),
    {
        if let Some(k) = outermost_local(&self.type_locals, c.type_var.data.name.data) {
            c.index = k;
        }
        self.type_var(&mut c.type_var.data)
    }

    fn constraints(&self, cs: &mut Vec<Constraint>) -> (r: Result<(), Located<ResolveError>>)
        requires
            self.inv(),
            well_formed(constraints_fault(self.scope(), old(cs)@, 0)),
        ensures
            r is Ok <==> constraints_fault(self.scope(), old(cs)@, 0) is None,
            r is Ok ==> constraints_resolved(self.scope(), old(cs)@, final(cs)@),
            r is Err ==> constraints_fault(self.scope(), old(cs)@, 0) == Some(located_fault(r->Err_0)),
    {
        let ghost sc = self.scope();
        let ghost olds = cs@;
        let n = cs.len();
        let mut i: usize = 0;
        while i < n
            invariant
                self.inv(),
                sc == self.scope(),
                olds == old(cs)@,
                well_formed(constraints_fault(sc, olds, 0)),
                n == olds.len(),
                cs@.len() == n,
                i <= n,
                constraints_fault(sc, olds, i as int) == constraints_fault(sc, olds, 0),
                forall|j: int| 0 <= j < i ==> constraint_resolved(sc, olds[j], #[trigger] cs@[j]),
                forall|j: int| i <= j < n ==> cs@[j] == olds[j],
            decreases n - i,
        {
            assert(constraints_fault(sc, olds, i as int) == either(constraint_fault(sc, olds[i as int]), constraints_fault(sc, olds, i + 1)));
            match self.constraint(&mut cs[i]) {
                Ok(()) => {},
                Err(x) => return Err(x),
            }
            i += 1;
        }
        Ok(())
    }

    fn method(&mut self, m: &mut MethodDeclaration) -> (r: Result<(), Located<ResolveError>>)
        requires
            old(self).inv(),
            well_formed(method_fault(old(self).scope(), *old(m))),
        ensures
            final(self).restored(*old(self)),
            r is Ok <==> method_fault(old(self).scope(), *old(m)) is None,
            r is Ok ==> method_resolved(old(self).scope(), *old(m), *final(m)),
            r is Ok ==> method_determined(*final(m)),
            r is Err ==> method_fault(old(self).scope(), *old(m)) == Some(located_fault(r->Err_0)),
    {
        let ghost sc = self.scope();
        match self.constraints(&mut m.constraints) {
            Ok(()) => {},
            Err(x) => return Err(x),
        }
        match self.arguments(&mut m.arguments) {
            Ok(()) => {},
            Err(x) => return Err(x),
        }
        match self.type_expression(&mut m.return_type) {
            Ok(()) => {},
            Err(x) => return Err(x),
        }
        assert(argument_names(m.arguments@) =~= argument_names(old(m).arguments@));
        let saved = self.locals.len();
        self.locals.push(m.instance.data);
        self.bind_arguments(&m.arguments);
        assert(self.locals@ =~= old(self).locals@ + (seq![m.instance.data] + argument_names(m.arguments@)));
        assert(self.scope() == sc.bind_values(seq![m.instance.data] + argument_names(old(m).arguments@)));
        let r = self.statements(&mut m.body);
        self.locals.truncate(saved);
        assert(self.locals@ =~= old(self).locals@);
        r
    }

    fn methods(&mut self, ms: &mut Vec<MethodDeclaration>) -> (r: Result<(), Located<ResolveError>>)
        requires
            old(self).inv(),
            well_formed(methods_fault(old(self).scope(), old(ms)@, 0)),
        ensures
            final(self).restored(*old(self)),
            r is Ok <==> methods_fault(old(self).scope(), old(ms)@, 0) is None,
            r is Ok ==> methods_resolved(old(self).scope(), old(ms)@, final(ms)@),
            r is Ok ==> forall|j: int| 0 <= j < final(ms)@.len() ==> #[trigger] method_determined(final(ms)@[j]),
            r is Err ==> methods_fault(old(self).scope(), old(ms)@, 0) == Some(located_fault(r->Err_0)),
    {
        let ghost sc = self.scope();
        let ghost olds = ms@;
        let n = ms.len();
        let mut i: usize = 0;
        while i < n
            invariant
                self.inv(),
                self.restored(*old(self)),
                self.scope() == sc,
                sc == old(self).scope(),
                olds == old(ms)@,
                well_formed(methods_fault(sc, olds, 0)),
                n == olds.len(),
                ms@.len() == n,
                i <= n,
                methods_fault(sc, olds, i as int) == methods_fault(sc, olds, 0),
                forall|j: int| 0 <= j < i ==> method_resolved(sc, olds[j], #[trigger] ms@[j]),
                forall|j: int| 0 <= j < i ==> method_determined(#[trigger] ms@[j]),
                forall|j: int| i <= j < n ==> ms@[j] == olds[j],
            decreases n - i,
        {
            assert(methods_fault(sc, olds, i as int) == either(method_fault(sc, olds[i as int]), methods_fault(sc, olds, i + 1)));
            match self.method(&mut ms[i]) {
                Ok(()) => {},
                Err(x) => return Err(x),
            }
            i += 1;
        }
        Ok(())
    }

    fn case(&mut self, c: &mut Located<VariantCase>) -> (r: Result<(), Located<ResolveError>>)
        requires
            old(self).inv(),
            well_formed(case_fault(old(self).scope(), old(c).data.arguments)),
        ensures
            final(self).restored(*old(self)),
            final(c).data.path == old(c).data.path,
            r is Ok <==> case_fault(old(self).scope(), old(c).data.arguments) is None,
            r is Ok ==> case_resolved(old(self).scope(), *old(c), *final(c)),
            r is Ok ==> case_determined(*final(c)),
            r is Err ==> case_fault(old(self).scope(), old(c).data.arguments) == Some(located_fault(r->Err_0)),
    {
        match &mut c.data.arguments {
            Some(ts) => self.type_expressions(ts),
            None => Ok(()),
        }
    }

    fn cases(&mut self, cs: &mut Vec<Located<VariantCase>>) -> (r: Result<(), Located<ResolveError>>)
        requires
            old(self).inv(),
            well_formed(cases_fault(old(self).scope(), case_arguments(old(cs)@), 0)),
        ensures
            final(self).restored(*old(self)),
            final(cs)@.len() == old(cs)@.len(),
            forall|j: int| 0 <= j < old(cs)@.len() ==> (#[trigger] final(cs)@[j]).data.path == old(cs)@[j].data.path,
            r is Ok <==> cases_fault(old(self).scope(), case_arguments(old(cs)@), 0) is None,
            r is Ok ==> cases_resolved(old(self).scope(), old(cs)@, final(cs)@),
            r is Ok ==> forall|j: int| 0 <= j < final(cs)@.len() ==> #[trigger] case_determined(final(cs)@[j]),
            r is Err ==> cases_fault(old(self).scope(), case_arguments(old(cs)@), 0) == Some(located_fault(r->Err_0)),
    {
        let ghost sc = self.scope();
        let ghost olds = cs@;
        let ghost args = case_arguments(olds);
        let n = cs.len();
        let mut i: usize = 0;
        while i < n
            invariant
                self.inv(),
                self.restored(*old(self)),
                self.scope() == sc,
                sc == old(self).scope(),
                olds == old(cs)@,
                args == case_arguments(olds),
                well_formed(cases_fault(sc, args, 0)),
                n == olds.len(),
                cs@.len() == n,
                i <= n,
                cases_fault(sc, args, i as int) == cases_fault(sc, args, 0),
                forall|j: int| 0 <= j < i ==> case_resolved(sc, olds[j], #[trigger] cs@[j]),
                forall|j: int| 0 <= j < i ==> case_determined(#[trigger] cs@[j]),
                forall|j: int| 0 <= j < n ==> (#[trigger] cs@[j]).data.path == olds[j].data.path,
                forall|j: int| i <= j < n ==> cs@[j] == olds[j],
            decreases n - i,
        {
            assert(args[i as int] == olds[i as int].data.arguments);
            assert(cases_fault(sc, args, i as int) == either(case_fault(sc, args[i as int]), cases_fault(sc, args, i + 1)));
            match self.case(&mut cs[i]) {
                Ok(()) => {},
                Err(x) => return Err(x),
            }
            i += 1;
        }
        Ok(())
    }

    fn variant(&mut self, v: &mut VariantDeclaration) -> (r: Result<(), Located<ResolveError>>)
        requires
            old(self).inv(),
            well_formed(variant_fault(old(self).scope(), *old(v))),
        ensures
            final(self).restored(*old(self)),
            final(v).path == old(v).path,
            final(v).cases@.len() == old(v).cases@.len(),
            forall|j: int| 0 <= j < old(v).cases@.len() ==> (#[trigger] final(v).cases@[j]).data.path == old(v).cases@[j].data.path,
            r is Ok <==> variant_fault(old(self).scope(), *old(v)) is None,
            r is Ok ==> variant_resolved(old(self).scope(), *old(v), *final(v)),
            r is Ok ==> declaration_determined(Declaration::Variant(*final(v))),
            r is Err ==> variant_fault(old(self).scope(), *old(v)) == Some(located_fault(r->Err_0)),
    {
        let saved = self.type_locals.len();
        self.bind_types(&v.type_vars);
        assert(self.scope() == old(self).scope().bind_types(names_of(v.type_vars@)));
        let r = match self.cases(&mut v.cases) {
            Ok(()) => self.methods(&mut v.methods),
            Err(x) => Err(x),
        };
        self.type_locals.truncate(saved);
        assert(self.type_locals@ =~= old(self).type_locals@);
        r
    }

    fn signature(&mut self, m: &mut MethodSignature) -> (r: Result<(), Located<ResolveError>>)
        requires
            old(self).inv(),
            well_formed(signature_fault(old(self).scope(), *old(m))),
        ensures
            final(self).restored(*old(self)),
            r is Ok <==> signature_fault(old(self).scope(), *old(m)) is None,
            r is Ok ==> signature_resolved(old(self).scope(), *old(m), *final(m)),
            r is Ok ==> signature_determined(*final(m)),
            r is Err ==> signature_fault(old(self).scope(), *old(m)) == Some(located_fault(r->Err_0)),
    {
        match self.arguments(&mut m.arguments) {
            Ok(()) => {},
            Err(x) => return Err(x),
        }
        self.type_expression(&mut m.return_type)
    }

    fn signatures(&mut self, ms: &mut Vec<MethodSignature>) -> (r: Result<(), Located<ResolveError>>)
        requires
            old(self).inv(),
            well_formed(signatures_fault(old(self).scope(), old(ms)@, 0)),
        ensures
            final(self).restored(*old(self)),
            r is Ok <==> signatures_fault(old(self).scope(), old(ms)@, 0) is None,
            r is Ok ==> signatures_resolved(old(self).scope(), old(ms)@, final(ms)@),
            r is Ok ==> forall|j: int| 0 <= j < final(ms)@.len() ==> #[trigger] signature_determined(final(ms)@[j]),
            r is Err ==> signatures_fault(old(self).scope(), old(ms)@, 0) == Some(located_fault(r->Err_0)),
    {
        let ghost sc = self.scope();
        let ghost olds = ms@;
        let n = ms.len();
        let mut i: usize = 0;
        while i < n
            invariant
                self.inv(),
                self.restored(*old(self)),
                self.scope() == sc,
                sc == old(self).scope(),
                olds == old(ms)@,
                well_formed(signatures_fault(sc, olds, 0)),
                n == olds.len(),
                ms@.len() == n,
                i <= n,
                signatures_fault(sc, olds, i as int) == signatures_fault(sc, olds, 0),
                forall|j: int| 0 <= j < i ==> signature_resolved(sc, olds[j], #[trigger] ms@[j]),
                forall|j: int| 0 <= j < i ==> signature_determined(#[trigger] ms@[j]),
                forall|j: int| i <= j < n ==> ms@[j] == olds[j],
            decreases n - i,
        {
            assert(signatures_fault(sc, olds, i as int) == either(signature_fault(sc, olds[i as int]), signatures_fault(sc, olds, i + 1)));
            match self.signature(&mut ms[i]) {
                Ok(()) => {},
                Err(x) => return Err(x),
            }
            i += 1;
        }
        Ok(())
    }

    fn interface(&mut self, d: &mut InterfaceDeclaration) -> (r: Result<(), Located<ResolveError>>)
        requires
            old(self).inv(),
            well_formed(interface_fault(old(self).scope(), *old(d))),
        ensures
            final(self).restored(*old(self)),
            final(d).path == old(d).path,
            r is Ok <==> interface_fault(old(self).scope(), *old(d)) is None,
            r is Ok ==> interface_resolved(old(self).scope(), *old(d), *final(d)),
            r is Ok ==> declaration_determined(Declaration::Interface(*final(d))),
            r is Err ==> interface_fault(old(self).scope(), *old(d)) == Some(located_fault(r->Err_0)),
    {
        let saved = self.type_locals.len();
        self.type_locals.push(d.receiver.data);
        assert(self.type_locals@ =~= old(self).type_locals@ + seq![d.receiver.data]);
        assert(self.scope() == old(self).scope().bind_types(seq![d.receiver.data]));
        let r = self.signatures(&mut d.methods);
        self.type_locals.truncate(saved);
        assert(self.type_locals@ =~= old(self).type_locals@);
        r
    }

    fn procedure(&mut self, p: &mut ProcedureDeclaration) -> (r: Result<(), Located<ResolveError>>)
        requires
            old(self).inv(),
            well_formed(procedure_fault(old(self).scope(), *old(p))),
        ensures
            final(self).restored(*old(self)),
            final(p).path == old(p).path,
            r is Ok <==> procedure_fault(old(self).scope(), *old(p)) is None,
            r is Ok ==> procedure_resolved(old(self).scope(), *old(p), *final(p)),
            r is Ok ==> declaration_determined(Declaration::Procedure(*final(p))),
            r is Err ==> procedure_fault(old(self).scope(), *old(p)) == Some(located_fault(r->Err_0)),
    {
        let ghost sc = self.scope();
        match self.type_vars(&mut p.type_vars) {
            Ok(()) => {},
            Err(x) => return Err(x),
        }
        assert(type_var_names(p.type_vars@) =~= type_var_names(old(p).type_vars@));
        let ghost tsc = sc.bind_types(type_var_names(old(p).type_vars@));
        let saved_types = self.type_locals.len();
        self.bind_type_vars(&p.type_vars);
        assert(self.scope() == tsc);
        let r = match self.arguments(&mut p.arguments) {
            Ok(()) => match self.type_expression(&mut p.return_type) {
                Ok(()) => {
                    assert(argument_names(p.arguments@) =~= argument_names(old(p).arguments@));
                    let saved_values = self.locals.len();
                    self.bind_arguments(&p.arguments);
                    assert(self.scope() == tsc.bind_values(argument_names(old(p).arguments@)));
                    let r = self.statements(&mut p.body);
                    self.locals.truncate(saved_values);
                    assert(self.locals@ =~= old(self).locals@);
                    r
                },
                Err(x) => Err(x),
            },
            Err(x) => Err(x),
        };
        self.type_locals.truncate(saved_types);
        assert(self.type_locals@ =~= old(self).type_locals@);
        r
    }

    /// Whether a module named `s` was declared.
    fn module_declared(&self, s: Symbol) -> (r: bool)
        ensures
            r == self.scope().modules.contains(s),
    {
        let ghost names = self.scope().modules;
        let mut i: usize = 0;
        while i < self.modules.len()
            invariant
                i <= self.modules@.len(),
                names == self.scope().modules,
                names.len() == self.modules@.len(),
                forall|j: int| 0 <= j < i ==> names[j] != s,
            decreases self.modules@.len() - i,
        {
            if self.modules[i].name == s {
                assert(names[i as int] == s);
                return true;
            }
            i += 1;
        }
        false
    }

    fn import(&self, i: &ImportDeclaration) -> (r: Result<(), Located<ResolveError>>)
        ensures
            r is Ok <==> self.scope().modules.contains(i.name.data),
            r is Err ==> Some(located_fault(r->Err_0)) == fault_at(
                Fault::ModuleDoesNotExist(i.name.data),
                i.name.location,
            ),
    {
        if self.module_declared(i.name.data) {
            Ok(())
        } else {
            Err(Located::new(ResolveError::ModuleDoesNotExist(i.name.data), i.name.location))
        }
    }

    fn declaration(&mut self, d: &mut Declaration) -> (r: Result<(), Located<ResolveError>>)
        requires
            old(self).inv(),
            well_formed(declaration_fault(old(self).scope(), *old(d))),
        ensures
            final(self).restored(*old(self)),
            r is Ok <==> declaration_fault(old(self).scope(), *old(d)) is None,
            r is Ok ==> declaration_resolved(old(self).scope(), *old(d), *final(d)),
            r is Ok ==> declaration_determined(*final(d)),
            r is Ok ==> paths_kept(*old(d), *final(d)),
            r is Err ==> declaration_fault(old(self).scope(), *old(d)) == Some(located_fault(r->Err_0)),
    {
        match d {
            Declaration::Module(_) => Ok(()),
            Declaration::Import(i) => self.import(i),
            Declaration::Procedure(p) => self.procedure(p),
            Declaration::Variant(v) => self.variant(v),
            Declaration::Interface(i) => self.interface(i),
        }
    }

    /// Pass one on one module: finds its name and its imports.
    fn collect_module(&mut self, module: &mut Module) -> (r: Result<(), Located<ResolveError>>)
        ensures
            final(module).declarations == old(module).declarations,
            final(module).source == old(module).source,
            final(self).value_names == old(self).value_names,
            final(self).type_names == old(self).type_names,
            final(self).locals == old(self).locals,
            final(self).type_locals == old(self).type_locals,
            r is Ok <==> module_fault(old(self).known_modules(), old(module).declarations@) is None,
            r is Err ==> module_fault(old(self).known_modules(), old(module).declarations@) == Some(
                located_fault(r->Err_0),
            ),
            r is Err ==> final(self).modules == old(self).modules,
            r is Err ==> *final(module) == *old(module),
            r is Ok ==> final(module).name == module_name(old(module).declarations@),
            r is Ok ==> final(self).modules@ == old(self).modules@.push(final(self).modules@.last()),
            r is Ok ==> final(self).modules@.last().name == module_name(old(module).declarations@),
            r is Ok ==> final(self).modules@.last().imports@ == imports_of(old(module).declarations@),
    {
        let ghost ds = module.declarations@;
        let ghost known = self.known_modules();
        let n = module.declarations.len();
        let mut found: Option<usize> = None;
        let mut i: usize = 0;
        while i < n
            invariant
                n == ds.len(),
                ds == module.declarations@,
                known == self.known_modules(),
                *self == *old(self),
                *module == *old(module),
                i <= n,
                found is None ==> next_module_declaration(ds, 0) == next_module_declaration(ds, i as int),
                found is Some ==> found->Some_0 < i && ds[found->Some_0 as int] is Module
                    && next_module_declaration(ds, 0) == Some(found->Some_0 as int)
                    && !known.contains(ds[found->Some_0 as int]->Module_0.name.data)
                    && next_module_declaration(ds, found->Some_0 + 1) == next_module_declaration(ds, i as int),
            decreases n - i,
        {
            if let Declaration::Module(md) = &module.declarations[i] {
                match found {
                    None => {
                        if self.module_declared(md.name.data) {
                            return Err(Located::new(ResolveError::CollidingModuleNames(md.name.data), md.name.location));
                        }
                        found = Some(i);
                    },
                    Some(_) => {
                        return Err(Located::new(ResolveError::DuplicateModuleDeclaration, md.name.location));
                    },
                }
            }
            i += 1;
        }
        let f = match found {
            None => return Err(Located::new(ResolveError::ModuleIsNotDeclared, SourceLocation::dummy())),
            Some(f) => f,
        };
        let name = match &module.declarations[f] {
            Declaration::Module(md) => md.name.data,
            _ => Symbol::dummy(),
        };
        let mut imports: Vec<Symbol> = Vec::new();
        let mut j: usize = 0;
        while j < n
            invariant
                n == ds.len(),
                ds == module.declarations@,
                j <= n,
                imports@ == imports_upto(ds, j as int),
            decreases n - j,
        {
            if let Declaration::Import(import) = &module.declarations[j] {
                imports.push(import.name.data);
            }
            j += 1;
        }
        self.modules.push(ModuleInformation { name, imports });
        module.name = name;
        Ok(())
    }

    /// The first case whose constructor path is a value name already, or
    /// the path of an earlier case of the same variant.
    fn first_duplicate_case(&self, variant_path: &Path, cases: &Vec<Located<VariantCase>>) -> (r: Option<usize>)
        ensures
            r is None ==> collect_cases(paths_view(self.value_names@), variant_path@, cases@, 0) == Ok::<
                Seq<Seq<Symbol>>,
                Located<Fault>,
            >(constructors_after(paths_view(self.value_names@), variant_path@, cases@, cases@.len() as int)),
            r is Some ==> r->Some_0 < cases@.len() && collect_cases(
                paths_view(self.value_names@),
                variant_path@,
                cases@,
                0,
            ) == Err::<Seq<Seq<Symbol>>, Located<Fault>>(
                Located {
                    data: Fault::DuplicateConstructorDeclaration {
                        constructor: cases@[r->Some_0 as int].data.identifier.data,
                        variant_path: variant_path@,
                    },
                    location: cases@[r->Some_0 as int].data.identifier.location,
                },
            ),
    {
        let ghost values0 = paths_view(self.value_names@);
        let ghost olds = cases@;
        let n = cases.len();
        let mut i: usize = 0;
        while i < n
            invariant
                n == olds.len(),
                i <= n,
                olds == cases@,
                values0 == paths_view(self.value_names@),
                collect_cases(values0, variant_path@, olds, 0) == collect_cases(
                    constructors_after(values0, variant_path@, olds, i as int),
                    variant_path@,
                    olds,
                    i as int,
                ),
            decreases n - i,
        {
            let constructor_path = variant_path.append(cases[i].data.identifier.data);
            proof {
                lemma_constructors_after(values0, variant_path@, olds, i as int);
            }
            if contains_path(&self.value_names, &constructor_path) || case_named_before(cases, i) {
                assert(constructor_path@ =~= variant_path@.push(olds[i as int].data.identifier.data));
                return Some(i);
            }
            assert(constructors_after(values0, variant_path@, olds, i as int).push(constructor_path@)
                =~= constructors_after(values0, variant_path@, olds, i + 1));
            i += 1;
        }
        None
    }

    /// Pass two on one declaration of module `module`: gives it, and the
    /// cases of a variant, their qualified paths.
    fn collect_declaration(&mut self, module: Symbol, d: &mut Declaration) -> (r: Result<(), Located<ResolveError>>)
        ensures
            final(self).modules == old(self).modules,
            final(self).locals == old(self).locals,
            final(self).type_locals == old(self).type_locals,
            final(self).current == old(self).current,
            r is Ok <==> collect_declaration(old(self).tables(), module, *old(d)) is Ok,
            r is Err ==> collect_declaration(old(self).tables(), module, *old(d)) == Err::<Tables, Located<Fault>>(
                located_fault(r->Err_0),
            ),
            r is Ok ==> final(self).tables() == collect_declaration(old(self).tables(), module, *old(d))->Ok_0,
            r is Ok ==> declaration_named(module, *old(d), *final(d)),
            r is Ok ==> same_but_paths(*old(d), *final(d)),
            r is Err ==> final(self).tables() == old(self).tables(),
            r is Err ==> *final(d) == *old(d),
    {
        match d {
            Declaration::Procedure(p) => {
                let path = Path::empty().append(module).append(p.name.data);
                assert(path@ =~= seq![module, p.name.data]);
                if contains_path(&self.value_names, &path) {
                    return Err(Located::new(ResolveError::DuplicateProcedureDeclaration(path), p.name.location));
                }
                self.value_names.push(path.duplicate());
                assert(paths_view(self.value_names@) =~= paths_view(old(self).value_names@).push(path@));
                p.path = path;
                Ok(())
            },
            Declaration::Variant(v) => {
                let variant_path = Path::empty().append(module).append(v.name.data);
                assert(variant_path@ =~= seq![module, v.name.data]);
                if contains_path(&self.type_names, &variant_path) {
                    return Err(Located::new(ResolveError::DuplicateTypeDeclaration(variant_path), v.name.location));
                }
                let ghost olds = v.cases@;
                let ghost values0 = paths_view(self.value_names@);
                let n = v.cases.len();
                // First every constructor is checked, with nothing changed...
                if let Some(i) = self.first_duplicate_case(&variant_path, &v.cases) {
                    assert(*old(d) == Declaration::Variant(old(d)->Variant_0));
                    return Err(Located::new(
                        ResolveError::DuplicateConstructorDeclaration {
                            constructor: v.cases[i].data.identifier.data,
                            variant_path,
                        },
                        v.cases[i].data.identifier.location,
                    ));
                }
                // ...then their paths are recorded.
                let mut i: usize = 0;
                while i < n
                    invariant
                        n == olds.len(),
                        v.cases@.len() == n,
                        i <= n,
                        variant_path@ == seq![module, v.name.data],
                        *old(d) is Variant,
                        v.name == old(d)->Variant_0.name,
                        v.type_vars == old(d)->Variant_0.type_vars,
                        v.methods == old(d)->Variant_0.methods,
                        !paths_view(self.type_names@).contains(variant_path@),
                        values0 == paths_view(old(self).value_names@),
                        olds == old(d)->Variant_0.cases@,
                        self.modules == old(self).modules,
                        self.type_names == old(self).type_names,
                        self.locals == old(self).locals,
                        self.type_locals == old(self).type_locals,
                        self.current == old(self).current,
                        collect_cases(values0, variant_path@, olds, 0) == Ok::<Seq<Seq<Symbol>>, Located<Fault>>(
                            constructors_after(values0, variant_path@, olds, n as int),
                        ),
                        paths_view(self.value_names@) == constructors_after(values0, variant_path@, olds, i as int),
                        forall|j: int| 0 <= j < i ==> (#[trigger] v.cases@[j]).location == olds[j].location
                            && v.cases@[j].data.identifier == olds[j].data.identifier
                            && v.cases@[j].data.arguments == olds[j].data.arguments
                            && v.cases@[j].data.path@ == seq![module, v.name.data, olds[j].data.identifier.data],
                        forall|j: int| i <= j < n ==> v.cases@[j] == olds[j],
                    decreases n - i,
                {
                    let constructor = v.cases[i].data.identifier.data;
                    let constructor_path = variant_path.append(constructor);
                    let ghost before = paths_view(self.value_names@);
                    self.value_names.push(constructor_path.duplicate());
                    assert(paths_view(self.value_names@) =~= before.push(constructor_path@));
                    assert(before.push(constructor_path@) =~= constructors_after(values0, variant_path@, olds, i + 1));
                    assert(constructor_path@ =~= seq![module, v.name.data, constructor]);
                    let case = &mut v.cases[i];
                    case.data.path = constructor_path;
                    i += 1;
                }
                let ghost before = paths_view(self.type_names@);
                self.type_names.push(variant_path.duplicate());
                assert(paths_view(self.type_names@) =~= before.push(variant_path@));
                v.path = variant_path;
                Ok(())
            },
            Declaration::Interface(it) => {
                let path = Path::empty().append(module).append(it.name.data);
                assert(path@ =~= seq![module, it.name.data]);
                if contains_path(&self.type_names, &path) {
                    return Err(Located::new(ResolveError::DuplicateTypeDeclaration(path), it.name.location));
                }
                self.type_names.push(path.duplicate());
                assert(paths_view(self.type_names@) =~= paths_view(old(self).type_names@).push(path@));
                it.path = path;
                Ok(())
            },
            _ => Ok(()),
        }
    }

    /// Pass two on the declarations of one module.
    fn collect_names(&mut self, module: Symbol, m: &mut Module) -> (r: Result<(), Located<ResolveError>>)
        ensures
            final(self).modules == old(self).modules,
            final(self).locals == old(self).locals,
            final(self).type_locals == old(self).type_locals,
            final(self).current == old(self).current,
            final(m).name == old(m).name,
            final(m).source == old(m).source,
            r is Ok <==> collect_declarations(old(self).tables(), module, old(m).declarations@, 0) is Ok,
            r is Err ==> collect_declarations(old(self).tables(), module, old(m).declarations@, 0)
                == Err::<Tables, Located<Fault>>(located_fault(r->Err_0)),
            r is Ok ==> final(self).tables() == collect_declarations(
                old(self).tables(),
                module,
                old(m).declarations@,
                0,
            )->Ok_0,
            r is Ok ==> final(m).declarations@.len() == old(m).declarations@.len(),
            r is Ok ==> forall|k: int| 0 <= k < old(m).declarations@.len() ==> declaration_named(
                module,
                old(m).declarations@[k],
                #[trigger] final(m).declarations@[k],
            ) && same_but_paths(old(m).declarations@[k], final(m).declarations@[k]),
    {
        let ghost olds = m.declarations@;
        let ghost t0 = self.tables();
        let n = m.declarations.len();
        let mut i: usize = 0;
        while i < n
            invariant
                n == olds.len(),
                olds == old(m).declarations@,
                t0 == old(self).tables(),
                m.declarations@.len() == n,
                m.name == old(m).name,
                m.source == old(m).source,
                i <= n,
                self.modules == old(self).modules,
                self.locals == old(self).locals,
                self.type_locals == old(self).type_locals,
                self.current == old(self).current,
                collect_declarations(t0, module, olds, 0) == collect_declarations(self.tables(), module, olds, i as int),
                forall|k: int| 0 <= k < i ==> declaration_named(module, olds[k], #[trigger] m.declarations@[k])
                    && same_but_paths(olds[k], m.declarations@[k]),
                forall|k: int| i <= k < n ==> m.declarations@[k] == olds[k],
            decreases n - i,
        {
            match self.collect_declaration(module, &mut m.declarations[i]) {
                Ok(()) => {},
                Err(x) => return Err(x),
            }
            i += 1;
        }
        Ok(())
    }

    /// Pass three on the declarations of the current module. `given`
    /// are the declarations as they were before pass two named them.
    fn module(&mut self, m: &mut Module, given: Ghost<Seq<Declaration>>) -> (r: Result<(), Located<ResolveError>>)
        requires
            old(self).inv(),
            old(m).declarations@.len() == given@.len(),
            forall|k: int| 0 <= k < given@.len() ==> same_but_paths(given@[k], #[trigger] old(m).declarations@[k])
                && declaration_named(old(self).scope().module, given@[k], old(m).declarations@[k]),
            well_formed(declarations_fault(old(self).scope(), given@, 0)),
        ensures
            final(self).restored(*old(self)),
            final(m).name == old(m).name,
            final(m).source == old(m).source,
            r is Ok <==> declarations_fault(old(self).scope(), given@, 0) is None,
            r is Err ==> declarations_fault(old(self).scope(), given@, 0) == Some(located_fault(r->Err_0)),
            r is Ok ==> declarations_resolved(old(self).scope(), given@, final(m).declarations@),
            r is Ok ==> forall|k: int| 0 <= k < final(m).declarations@.len() ==> #[trigger] declaration_determined(
                final(m).declarations@[k],
            ),
            r is Ok ==> forall|k: int| 0 <= k < given@.len() ==> declaration_named(
                old(self).scope().module,
                given@[k],
                #[trigger] final(m).declarations@[k],
            ),
    {
        let ghost sc = self.scope();
        let ghost olds = given@;
        let ghost mids = m.declarations@;
        let n = m.declarations.len();
        let mut i: usize = 0;
        while i < n
            invariant
                self.inv(),
                self.restored(*old(self)),
                self.scope() == sc,
                sc == old(self).scope(),
                olds == given@,
                mids == old(m).declarations@,
                n == olds.len(),
                n == mids.len(),
                m.declarations@.len() == n,
                m.name == old(m).name,
                m.source == old(m).source,
                forall|k: int| 0 <= k < n ==> same_but_paths(olds[k], #[trigger] mids[k])
                    && declaration_named(sc.module, olds[k], mids[k]),
                well_formed(declarations_fault(sc, olds, 0)),
                i <= n,
                declarations_fault(sc, olds, i as int) == declarations_fault(sc, olds, 0),
                forall|k: int| 0 <= k < i ==> declaration_resolved(sc, olds[k], #[trigger] m.declarations@[k])
                    && declaration_named(sc.module, olds[k], m.declarations@[k]),
                forall|k: int| 0 <= k < i ==> declaration_determined(#[trigger] m.declarations@[k]),
                forall|k: int| i <= k < n ==> m.declarations@[k] == mids[k],
            decreases n - i,
        {
            proof {
                lemma_same_but_paths(sc, olds[i as int], mids[i as int]);
            }
            assert(declarations_fault(sc, olds, i as int) == either(declaration_fault(sc, olds[i as int]), declarations_fault(sc, olds, i + 1)));
            match self.declaration(&mut m.declarations[i]) {
                Ok(()) => {},
                Err(x) => return Err(x),
            }
            proof {
                lemma_resolved_from_named(sc, olds[i as int], mids[i as int], m.declarations@[i as int]);
            }
            i += 1;
        }
        Ok(())
    }
}

/// Pass two changes no part of a declaration that pass three reads.
proof fn lemma_same_but_paths(sc: Scope, old: Declaration, mid: Declaration)
    requires
        same_but_paths(old, mid),
    ensures
        declaration_fault(sc, mid) == declaration_fault(sc, old),
{
    if let Declaration::Variant(v) = old {
        if let Declaration::Variant(w) = mid {
            assert(case_arguments(w.cases@) =~= case_arguments(v.cases@));
        }
    }
}

/// What pass three proves of a declaration named by pass two holds of the
/// declaration as it was before.
proof fn lemma_resolved_from_named(sc: Scope, old: Declaration, mid: Declaration, new: Declaration)
    requires
        same_but_paths(old, mid),
        declaration_named(sc.module, old, mid),
        declaration_resolved(sc, mid, new),
        paths_kept(mid, new),
    ensures
        declaration_resolved(sc, old, new),
        declaration_named(sc.module, old, new),
{
    if let Declaration::Variant(v) = old {
        if let Declaration::Variant(w) = mid {
            if let Declaration::Variant(x) = new {
                let tsc = sc.bind_types(names_of(v.type_vars@));
                assert forall|i: int| 0 <= i < v.cases@.len() implies #[trigger] case_resolved(tsc, v.cases@[i], x.cases@[i]) by {
                    assert(case_resolved(tsc, w.cases@[i], x.cases@[i]));
                }
                assert forall|i: int| 0 <= i < v.cases@.len() implies (#[trigger] x.cases@[i]).data.path@
                    == seq![sc.module, v.name.data, v.cases@[i].data.identifier.data] by {
                    assert(x.cases@[i].data.path == w.cases@[i].data.path);
                }
            }
        }
    }
}

/// A failed resolution: the error, and the text of the module it is in.
#[derive(Debug)]
pub struct Report {
    pub error: Located<ResolveError>,
    pub source: String,
}

impl Report {
    pub fn location(&self) -> (r: SourceLocation)
        ensures
            r == self.error.location,
    {
        self.error.location
    }

    pub fn source(&self) -> (r: &str)
        ensures
            r@ == self.source@,
    {
        self.source.as_str()
    }

    /// The message that describes the error.
    pub fn description(&self, interner: &Interner) -> (r: String)
        requires
            fault_named(interner.names(), self.error.data@),
        ensures
            r@ == description_text(interner.names(), self.error.data@),
    {
        self.error.data.description(interner)
    }
}

impl Resolver {
    /// No module has been collected.
    pub open spec fn is_empty(&self) -> bool {
        &&& self.modules@.len() == 0
        &&& self.type_names@.len() == 0
        &&& self.value_names@.len() == 0
        &&& self.locals@.len() == 0
        &&& self.type_locals@.len() == 0
    }

    pub fn new() -> (r: Resolver)
        ensures
            r.is_empty(),
    {
        Resolver {
            modules: Vec::new(),
            type_names: Vec::new(),
            value_names: Vec::new(),
            locals: Vec::new(),
            type_locals: Vec::new(),
            current: 0,
        }
    }

    /// Pass one on every module.
    fn collect_all_modules(&mut self, modules: &mut Vec<Module>) -> (r: Result<(), (Located<ResolveError>, usize)>)
        requires
            old(self).modules@.len() == 0,
        ensures
            final(modules)@.len() == old(modules)@.len(),
            forall|j: int| 0 <= j < old(modules)@.len() ==> (#[trigger] final(modules)@[j]).declarations
                == old(modules)@[j].declarations && final(modules)@[j].source == old(modules)@[j].source,
            final(self).value_names == old(self).value_names,
            final(self).type_names == old(self).type_names,
            final(self).locals == old(self).locals,
            final(self).type_locals == old(self).type_locals,
            r is Ok <==> collect_modules(old(modules)@, 0, Seq::empty()) is Ok,
            r is Err ==> r->Err_0.1 < old(modules)@.len() && collect_modules(old(modules)@, 0, Seq::empty())
                == Err::<Seq<Symbol>, (Located<Fault>, int)>((located_fault(r->Err_0.0), r->Err_0.1 as int)),
            r is Ok ==> final(self).known_modules() == collect_modules(old(modules)@, 0, Seq::empty())->Ok_0,
            r is Ok ==> final(self).modules@.len() == old(modules)@.len(),
            r is Ok ==> forall|j: int| 0 <= j < old(modules)@.len() ==> (#[trigger] final(self).modules@[j]).imports@
                == imports_of(old(modules)@[j].declarations@),
            r is Ok ==> forall|j: int| 0 <= j < old(modules)@.len() ==> (#[trigger] final(modules)@[j]).name
                == final(self).modules@[j].name,
    {
        let ghost orig = modules@;
        let n = modules.len();
        let mut i: usize = 0;
        assert(self.known_modules() =~= Seq::<Symbol>::empty());
        while i < n
            invariant
                n == orig.len(),
                orig == old(modules)@,
                modules@.len() == n,
                i <= n,
                collect_modules(orig, i as int, self.known_modules()) == collect_modules(orig, 0, Seq::empty()),
                self.modules@.len() == i,
                forall|j: int| 0 <= j < i ==> (#[trigger] self.modules@[j]).imports@ == imports_of(orig[j].declarations@),
                forall|j: int| 0 <= j < i ==> (#[trigger] modules@[j]).name == self.modules@[j].name,
                forall|j: int| 0 <= j < n ==> (#[trigger] modules@[j]).declarations == orig[j].declarations
                    && modules@[j].source == orig[j].source,
                self.value_names == old(self).value_names,
                self.type_names == old(self).type_names,
                self.locals == old(self).locals,
                self.type_locals == old(self).type_locals,
            decreases n - i,
        {
            let ghost known = self.known_modules();
            match self.collect_module(&mut modules[i]) {
                Ok(()) => {},
                Err(error) => return Err((error, i)),
            }
            assert(self.known_modules() =~= known.push(module_name(orig[i as int].declarations@)));
            i += 1;
        }
        Ok(())
    }

    /// Pass two on every module.
    fn collect_all_names(
        &mut self,
        modules: &mut Vec<Module>,
        names: Ghost<Seq<Symbol>>,
        orig: Ghost<Seq<Module>>,
    ) -> (r: Result<(), (Located<ResolveError>, usize)>)
        requires
            old(self).known_modules() == names@,
            names@.len() == old(modules)@.len(),
            orig@.len() == old(modules)@.len(),
            forall|j: int| 0 <= j < orig@.len() ==> (#[trigger] old(modules)@[j]).declarations == orig@[j].declarations,
        ensures
            final(self).modules == old(self).modules,
            final(self).locals == old(self).locals,
            final(self).type_locals == old(self).type_locals,
            final(modules)@.len() == old(modules)@.len(),
            forall|j: int| 0 <= j < old(modules)@.len() ==> (#[trigger] final(modules)@[j]).name == old(modules)@[j].name
                && final(modules)@[j].source == old(modules)@[j].source,
            r is Ok <==> collect_names(old(self).tables(), names@, orig@, 0) is Ok,
            r is Err ==> r->Err_0.1 < old(modules)@.len() && collect_names(old(self).tables(), names@, orig@, 0)
                == Err::<Tables, (Located<Fault>, int)>((located_fault(r->Err_0.0), r->Err_0.1 as int)),
            r is Ok ==> final(self).tables() == collect_names(old(self).tables(), names@, orig@, 0)->Ok_0,
            r is Ok ==> forall|j: int| 0 <= j < old(modules)@.len() ==> (#[trigger] final(modules)@[j]).declarations@.len()
                == orig@[j].declarations@.len() && forall|k: int|
                0 <= k < orig@[j].declarations@.len() ==> declaration_named(
                    names@[j],
                    orig@[j].declarations@[k],
                    #[trigger] final(modules)@[j].declarations@[k],
                ) && same_but_paths(orig@[j].declarations@[k], final(modules)@[j].declarations@[k]),
    {
        let ghost mids = modules@;
        let ghost origs = orig@;
        let ghost t0 = self.tables();
        let n = modules.len();
        let mut i: usize = 0;
        while i < n
            invariant
                n == origs.len(),
                n == mids.len(),
                origs == orig@,
                mids == old(modules)@,
                forall|j: int| 0 <= j < n ==> (#[trigger] mids[j]).declarations == origs[j].declarations,
                t0 == old(self).tables(),
                names@.len() == n,
                names@ == self.known_modules(),
                modules@.len() == n,
                i <= n,
                self.modules == old(self).modules,
                self.locals == old(self).locals,
                self.type_locals == old(self).type_locals,
                collect_names(self.tables(), names@, origs, i as int) == collect_names(t0, names@, origs, 0),
                forall|j: int| 0 <= j < n ==> (#[trigger] modules@[j]).name == mids[j].name
                    && modules@[j].source == mids[j].source,
                forall|j: int| i <= j < n ==> (#[trigger] modules@[j]).declarations == origs[j].declarations,
                forall|j: int| 0 <= j < i ==> (#[trigger] modules@[j]).declarations@.len() == origs[j].declarations@.len()
                    && forall|k: int| 0 <= k < origs[j].declarations@.len() ==> declaration_named(
                        names@[j],
                        origs[j].declarations@[k],
                        #[trigger] modules@[j].declarations@[k],
                    ) && same_but_paths(origs[j].declarations@[k], modules@[j].declarations@[k]),
            decreases n - i,
        {
            let name = self.modules[i].name;
            assert(name == names@[i as int]);
            match self.collect_names(name, &mut modules[i]) {
                Ok(()) => {},
                Err(error) => return Err((error, i)),
            }
            i += 1;
        }
        Ok(())
    }

    /// Pass three on every module; `orig` are the modules as given to
    /// resolution.
    fn bind_all(&mut self, modules: &mut Vec<Module>, orig: Ghost<Seq<Module>>) -> (r: Result<
        (),
        (Located<ResolveError>, usize),
    >)
        requires
            old(self).known_modules() == program_names(orig@),
            old(self).tables() == program_tables(orig@),
            program_names(orig@).len() == orig@.len(),
            old(self).modules@.len() == orig@.len(),
            old(self).locals@.len() == 0,
            old(self).type_locals@.len() == 0,
            old(modules)@.len() == orig@.len(),
            forall|j: int| 0 <= j < orig@.len() ==> (#[trigger] old(self).modules@[j]).imports@ == imports_of(
                orig@[j].declarations@,
            ),
            forall|j: int| 0 <= j < orig@.len() ==> (#[trigger] old(modules)@[j]).name == program_names(orig@)[j]
                && old(modules)@[j].source == orig@[j].source && old(modules)@[j].declarations@.len()
                == orig@[j].declarations@.len() && forall|k: int|
                0 <= k < orig@[j].declarations@.len() ==> declaration_named(
                    program_names(orig@)[j],
                    orig@[j].declarations@[k],
                    #[trigger] old(modules)@[j].declarations@[k],
                ) && same_but_paths(orig@[j].declarations@[k], old(modules)@[j].declarations@[k]),
            !(bind_modules(program_names(orig@), program_tables(orig@), orig@, 0) is Some && bind_modules(
                program_names(orig@),
                program_tables(orig@),
                orig@,
                0,
            )->Some_0.0.data is Malformed),
        ensures
            final(modules)@.len() == orig@.len(),
            forall|j: int| 0 <= j < orig@.len() ==> (#[trigger] final(modules)@[j]).source == orig@[j].source,
            r is Ok <==> bind_modules(program_names(orig@), program_tables(orig@), orig@, 0) is None,
            r is Err ==> r->Err_0.1 < orig@.len() && bind_modules(program_names(orig@), program_tables(orig@), orig@, 0)
                == Some((located_fault(r->Err_0.0), r->Err_0.1 as int)),
            r is Ok ==> forall|j: int| 0 <= j < orig@.len() ==> module_resolved(orig@, j, #[trigger] final(modules)@[j]),
            r is Ok ==> program_determined(final(modules)@),
    {
        let ghost names = program_names(orig@);
        let ghost t = program_tables(orig@);
        let n = modules.len();
        let mut i: usize = 0;
        while i < n
            invariant
                n == orig@.len(),
                names == program_names(orig@),
                t == program_tables(orig@),
                names.len() == n,
                names == self.known_modules(),
                t == self.tables(),
                self.modules@.len() == n,
                self.locals@.len() == 0,
                self.type_locals@.len() == 0,
                !(bind_modules(names, t, orig@, 0) is Some && bind_modules(names, t, orig@, 0)->Some_0.0.data is Malformed),
                bind_modules(names, t, orig@, i as int) == bind_modules(names, t, orig@, 0),
                forall|j: int| 0 <= j < n ==> (#[trigger] self.modules@[j]).imports@ == imports_of(orig@[j].declarations@),
                modules@.len() == n,
                i <= n,
                forall|j: int| 0 <= j < n ==> (#[trigger] modules@[j]).source == orig@[j].source,
                forall|j: int| i <= j < n ==> (#[trigger] modules@[j]) == old(modules)@[j],
                forall|j: int| 0 <= j < i ==> module_resolved(orig@, j, #[trigger] modules@[j]),
                forall|j: int, k: int| 0 <= j < i && 0 <= k < modules@[j].declarations@.len() ==> #[trigger] declaration_determined(
                    modules@[j].declarations@[k],
                ),
                old(modules)@.len() == n,
                forall|j: int| 0 <= j < n ==> (#[trigger] old(modules)@[j]).name == names[j]
                    && old(modules)@[j].source == orig@[j].source && old(modules)@[j].declarations@.len()
                    == orig@[j].declarations@.len() && forall|k: int|
                    0 <= k < orig@[j].declarations@.len() ==> declaration_named(
                        names[j],
                        orig@[j].declarations@[k],
                        #[trigger] old(modules)@[j].declarations@[k],
                    ) && same_but_paths(orig@[j].declarations@[k], old(modules)@[j].declarations@[k]),
            decreases n - i,
        {
            self.current = i;
            assert(self.locals@ =~= Seq::<Symbol>::empty());
            assert(self.type_locals@ =~= Seq::<Symbol>::empty());
            assert(self.scope() == module_scope(names, t, orig@, i as int));
            let ghost given = orig@[i as int].declarations@;
            match self.module(&mut modules[i], Ghost(given)) {
                Ok(()) => {},
                Err(error) => return Err((error, i)),
            }
            i += 1;
        }
        Ok(())
    }

    /// Resolves every module: on success each identifier occurrence is bound
    /// and each declaration carries its qualified path; else the first error.
    pub fn resolve(&mut self, modules: Vec<Module>) -> (r: Result<Vec<Module>, Report>)
        requires
            well_formed_program(modules@),
        ensures
            r is Ok <==> resolution_fault(modules@) is None,
            r is Ok ==> program_resolved(modules@, r->Ok_0@),
            r is Ok ==> program_determined(r->Ok_0@),
            r is Err ==> resolution_fault(modules@) is Some && located_fault(r->Err_0.error)
                == resolution_fault(modules@)->Some_0.0 && r->Err_0.source
                == modules@[resolution_fault(modules@)->Some_0.1].source,
    {
        let mut modules = modules;
        let ghost orig = modules@;
        self.modules = Vec::new();
        self.type_names = Vec::new();
        self.value_names = Vec::new();
        self.locals = Vec::new();
        self.type_locals = Vec::new();
        self.current = 0;
        assert(self.tables() == empty_tables()) by {
            assert(paths_view(self.value_names@) =~= Seq::<Seq<Symbol>>::empty());
            assert(paths_view(self.type_names@) =~= Seq::<Seq<Symbol>>::empty());
        }
        match self.collect_all_modules(&mut modules) {
            Ok(()) => {},
            Err((error, i)) => return Err(Report { error, source: modules[i].source.clone() }),
        }
        let ghost names = self.known_modules();
        assert(names == program_names(orig));
        match self.collect_all_names(&mut modules, Ghost(names), Ghost(orig)) {
            Ok(()) => {},
            Err((error, i)) => return Err(Report { error, source: modules[i].source.clone() }),
        }
        assert(self.tables() == program_tables(orig));
        match self.bind_all(&mut modules, Ghost(orig)) {
            Ok(()) => {},
            Err((error, i)) => return Err(Report { error, source: modules[i].source.clone() }),
        }
        Ok(modules)
    }
}

} // verus!

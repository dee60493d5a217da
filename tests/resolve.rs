use binder::interner::Interner;
use binder::path::{Bound, Path, Symbol};
use binder::resolver::{ResolveError, Resolver};
use binder::syntax::{
    Argument, Branch, Constraint, Declaration, Expression, ImportDeclaration, InterfaceDeclaration, Located,
    MethodDeclaration, MethodSignature, Module, ModuleDeclaration, Pattern, ProcedureDeclaration, SourceLocation,
    Statement, TypeExpression, TypeVar, VariantCase, VariantDeclaration,
};

const M: u64 = 1;
const F: u64 = 2;
const T: u64 = 3;
const X: u64 = 4;
const G: u64 = 5;
const Y: u64 = 6;
const Z: u64 = 7;
const OTHER: u64 = 8;
const V: u64 = 9;
const C: u64 = 10;
const D: u64 = 11;
const A: u64 = 12;
const I: u64 = 13;
const SELF: u64 = 14;

fn sym(n: u64) -> Symbol {
    Symbol::new(n)
}

fn at(start: usize, end: usize) -> SourceLocation {
    SourceLocation::new(start, end)
}

fn name(n: u64, start: usize) -> Located<Symbol> {
    Located::new(sym(n), at(start, start + 1))
}

fn path_expr(parts: &[u64], start: usize) -> Located<Expression> {
    Located::new(
        Expression::Path { parts: parts.iter().map(|p| sym(*p)).collect(), bound: Bound::Undetermined },
        at(start, start + 1),
    )
}

fn path_type(parts: &[u64], start: usize) -> Located<TypeExpression> {
    Located::new(
        TypeExpression::Path { parts: parts.iter().map(|p| sym(*p)).collect(), bound: Bound::Undetermined },
        at(start, start + 1),
    )
}

fn call(function: Located<Expression>, arguments: Vec<Located<Expression>>) -> Located<Expression> {
    Located::new(Expression::Application { function: Box::new(function), arguments }, at(0, 1))
}

fn let_in(n: u64, value: Located<Expression>, body: Located<Expression>) -> Located<Expression> {
    Located::new(Expression::Let { name: name(n, 0), value: Box::new(value), body: Box::new(body) }, at(0, 1))
}

fn number(k: u64) -> Located<Expression> {
    Located::new(Expression::Natural(k), at(0, 1))
}

fn ret(e: Located<Expression>) -> Located<Statement> {
    Located::new(Statement::Return(e), at(0, 1))
}

fn module_decl(n: u64, start: usize) -> Declaration {
    Declaration::Module(ModuleDeclaration { name: name(n, start) })
}

fn import_decl(n: u64, start: usize) -> Declaration {
    Declaration::Import(ImportDeclaration { name: name(n, start) })
}

fn argument(n: u64, ty: Located<TypeExpression>) -> Located<Argument> {
    Located::new(Argument { identifier: name(n, 0), type_expression: ty }, at(0, 1))
}

/// `procedure n[T](args: T) -> T { body }`
fn procedure(n: u64, start: usize, args: &[u64], body: Vec<Located<Statement>>) -> Declaration {
    Declaration::Procedure(ProcedureDeclaration {
        name: name(n, start),
        path: Path::empty(),
        type_vars: vec![Located::new(TypeVar { name: name(T, 0), interfaces: vec![] }, at(0, 1))],
        arguments: args.iter().map(|a| argument(*a, path_type(&[T], 0))).collect(),
        return_type: path_type(&[T], 0),
        body,
    })
}

fn case(n: u64, start: usize, arguments: Option<Vec<Located<TypeExpression>>>) -> Located<VariantCase> {
    Located::new(VariantCase { identifier: name(n, start), arguments, path: Path::empty() }, at(start, start + 1))
}

fn variant(n: u64, start: usize, cases: Vec<Located<VariantCase>>) -> Declaration {
    Declaration::Variant(VariantDeclaration {
        name: name(n, start),
        path: Path::empty(),
        type_vars: vec![name(T, 0)],
        cases,
        methods: vec![],
    })
}

fn module(declarations: Vec<Declaration>) -> Module {
    Module::new(String::from("source text"), declarations)
}

fn parts(p: &Path) -> Vec<u64> {
    p.parts.iter().map(|s| s.idx).collect()
}

fn bound_of(e: &Located<Expression>) -> &Bound {
    match &e.data {
        Expression::Path { bound, .. } => bound,
        _ => panic!("not a path"),
    }
}

fn absolute(b: &Bound) -> Vec<u64> {
    match b {
        Bound::Absolute(p) => parts(p),
        other => panic!("not absolute: {:?}", other),
    }
}

fn local(b: &Bound) -> usize {
    match b {
        Bound::Local(i) => *i,
        other => panic!("not local: {:?}", other),
    }
}

fn body_of(m: &Module, k: usize) -> &Vec<Located<Statement>> {
    match &m.declarations[k] {
        Declaration::Procedure(p) => &p.body,
        _ => panic!("not a procedure"),
    }
}

fn returned(s: &Located<Statement>) -> &Located<Expression> {
    match &s.data {
        Statement::Return(e) => e,
        _ => panic!("not a return"),
    }
}

fn undetermined_in_expr(e: &Located<Expression>) -> bool {
    match &e.data {
        Expression::Path { bound, .. } => bound.is_undetermined(),
        Expression::Application { function, arguments } => {
            undetermined_in_expr(function) || arguments.iter().any(undetermined_in_expr)
        }
        Expression::Projection { expression, .. } => undetermined_in_expr(expression),
        Expression::Let { value, body, .. } => undetermined_in_expr(value) || undetermined_in_expr(body),
        Expression::Natural(_) => false,
    }
}

fn undetermined_in_type(t: &Located<TypeExpression>) -> bool {
    match &t.data {
        TypeExpression::Path { bound, .. } => bound.is_undetermined(),
        TypeExpression::Procedure { arguments, return_type } => {
            arguments.iter().any(undetermined_in_type) || undetermined_in_type(return_type)
        }
        TypeExpression::Application { function, arguments } => {
            undetermined_in_type(function) || arguments.iter().any(undetermined_in_type)
        }
    }
}

fn undetermined_in_statement(s: &Located<Statement>) -> bool {
    match &s.data {
        Statement::Expression(e) | Statement::Return(e) => undetermined_in_expr(e),
        Statement::Match { expression, branches } => {
            undetermined_in_expr(expression)
                || branches.iter().any(|b| undetermined_in_statement(&b.data.statement))
        }
    }
}

fn undetermined_in_module(m: &Module) -> bool {
    m.declarations.iter().any(|d| match d {
        Declaration::Procedure(p) => {
            p.arguments.iter().any(|a| undetermined_in_type(&a.data.type_expression))
                || undetermined_in_type(&p.return_type)
                || p.body.iter().any(undetermined_in_statement)
        }
        Declaration::Variant(v) => {
            v.cases.iter().any(|c| c.data.arguments.as_ref().map_or(false, |a| a.iter().any(undetermined_in_type)))
                || v.methods.iter().any(|m| {
                    m.arguments.iter().any(|a| undetermined_in_type(&a.data.type_expression))
                        || undetermined_in_type(&m.return_type)
                        || m.body.iter().any(undetermined_in_statement)
                })
        }
        Declaration::Interface(i) => i.methods.iter().any(|m| {
            m.arguments.iter().any(|a| undetermined_in_type(&a.data.type_expression)) || undetermined_in_type(&m.return_type)
        }),
        _ => false,
    })
}

fn resolve(modules: Vec<Module>) -> Result<Vec<Module>, binder::resolver::Report> {
    Resolver::new().resolve(modules)
}

#[test]
fn forward_references_resolve_without_undetermined() {
    let f = procedure(F, 10, &[X], vec![ret(call(path_expr(&[G], 20), vec![path_expr(&[X], 22)]))]);
    let g = procedure(G, 30, &[Y], vec![ret(path_expr(&[Y], 40))]);
    let out = resolve(vec![module(vec![module_decl(M, 0), f, g])]).unwrap();
    assert!(!undetermined_in_module(&out[0]));
    assert_eq!(out[0].name, sym(M));
    match &out[0].declarations[1] {
        Declaration::Procedure(p) => {
            assert_eq!(parts(&p.path), vec![M, F]);
            assert_eq!(local(bound_of_type(&p.return_type)), 0);
        }
        _ => panic!(),
    }
    match &returned(&body_of(&out[0], 1)[0]).data {
        Expression::Application { function, arguments } => {
            assert_eq!(absolute(bound_of(function)), vec![M, G]);
            assert_eq!(local(bound_of(&arguments[0])), 0);
        }
        _ => panic!(),
    }
}

fn bound_of_type(t: &Located<TypeExpression>) -> &Bound {
    match &t.data {
        TypeExpression::Path { bound, .. } => bound,
        _ => panic!("not a type path"),
    }
}

#[test]
fn duplicate_procedure_points_at_second_name() {
    let first = procedure(F, 10, &[], vec![]);
    let second = procedure(F, 30, &[], vec![]);
    let err = resolve(vec![module(vec![module_decl(M, 0), first, second])]).unwrap_err();
    match &err.error.data {
        ResolveError::DuplicateProcedureDeclaration(p) => assert_eq!(parts(p), vec![M, F]),
        other => panic!("{:?}", other),
    }
    assert_eq!(err.location(), at(30, 31));
    assert_eq!(err.source(), "source text");
}

#[test]
fn duplicate_case_is_a_duplicate_constructor() {
    let v = variant(V, 10, vec![case(C, 20, None), case(C, 30, None)]);
    let err = resolve(vec![module(vec![module_decl(M, 0), v])]).unwrap_err();
    match &err.error.data {
        ResolveError::DuplicateConstructorDeclaration { constructor, variant_path } => {
            assert_eq!(*constructor, sym(C));
            assert_eq!(parts(variant_path), vec![M, V]);
        }
        other => panic!("{:?}", other),
    }
    assert_eq!(err.location(), at(30, 31));
}

#[test]
fn unknown_identifier_is_unbound_value_path() {
    let f = procedure(F, 10, &[X], vec![ret(path_expr(&[Z], 50))]);
    let err = resolve(vec![module(vec![module_decl(M, 0), f])]).unwrap_err();
    match &err.error.data {
        ResolveError::UnboundValuePath(p) => assert_eq!(parts(p), vec![M, Z]),
        other => panic!("{:?}", other),
    }
    assert_eq!(err.location(), at(50, 51));
}

#[test]
fn shadowing_let_binds_innermost_and_restores_outer() {
    // let x = 1 in f(let x = 2 in x, x)
    let inner = let_in(X, number(2), path_expr(&[X], 20));
    let e = let_in(X, number(1), call(path_expr(&[F], 10), vec![inner, path_expr(&[X], 30)]));
    let f = procedure(F, 5, &[], vec![ret(e)]);
    let out = resolve(vec![module(vec![module_decl(M, 0), f])]).unwrap();
    let e = returned(&body_of(&out[0], 1)[0]);
    let Expression::Let { body, .. } = &e.data else { panic!() };
    let Expression::Application { function, arguments } = &body.data else { panic!() };
    assert_eq!(absolute(bound_of(function)), vec![M, F]);
    let Expression::Let { body: inner_body, .. } = &arguments[0].data else { panic!() };
    assert_eq!(local(bound_of(inner_body)), 0);
    assert_eq!(local(bound_of(&arguments[1])), 0);
}

#[test]
fn let_binding_counts_distance_from_innermost() {
    // procedure f(x) { return let y = x in x }
    let e = let_in(Y, path_expr(&[X], 10), path_expr(&[X], 20));
    let f = procedure(F, 5, &[X], vec![ret(e)]);
    let out = resolve(vec![module(vec![module_decl(M, 0), f])]).unwrap();
    let e = returned(&body_of(&out[0], 1)[0]);
    let Expression::Let { value, body, .. } = &e.data else { panic!() };
    assert_eq!(local(bound_of(value)), 0);
    assert_eq!(local(bound_of(body)), 1);
}

#[test]
fn import_of_undeclared_module() {
    let err = resolve(vec![module(vec![module_decl(M, 0), import_decl(OTHER, 7)])]).unwrap_err();
    match &err.error.data {
        ResolveError::ModuleDoesNotExist(s) => assert_eq!(*s, sym(OTHER)),
        other => panic!("{:?}", other),
    }
    assert_eq!(err.location(), at(7, 8));
}

#[test]
fn two_modules_with_one_name_collide() {
    let err = resolve(vec![module(vec![module_decl(M, 0)]), module(vec![module_decl(M, 3)])]).unwrap_err();
    match &err.error.data {
        ResolveError::CollidingModuleNames(s) => assert_eq!(*s, sym(M)),
        other => panic!("{:?}", other),
    }
    assert_eq!(err.location(), at(3, 4));
}

fn branch(case_name: u64, fields: Option<Vec<u64>>, statement: Located<Statement>) -> Located<Branch> {
    Located::new(
        Branch {
            pattern: Located::new(
                Pattern::VariantCase { name: name(case_name, 0), fields: fields.map(|f| f.into_iter().map(|n| name(n, 0)).collect()) },
                at(0, 1),
            ),
            statement: Box::new(statement),
        },
        at(0, 1),
    )
}

#[test]
fn match_bindings_stay_in_their_branch() {
    let m = Located::new(
        Statement::Match {
            expression: path_expr(&[X], 10),
            branches: vec![
                branch(C, Some(vec![A]), ret(path_expr(&[A], 20))),
                branch(D, None, ret(path_expr(&[A], 30))),
            ],
        },
        at(0, 1),
    );
    let f = procedure(F, 5, &[X], vec![m]);
    let err = resolve(vec![module(vec![module_decl(M, 0), f])]).unwrap_err();
    match &err.error.data {
        ResolveError::UnboundValuePath(p) => assert_eq!(parts(p), vec![M, A]),
        other => panic!("{:?}", other),
    }
    assert_eq!(err.location(), at(30, 31));
}

#[test]
fn match_binding_is_local_in_its_branch() {
    let m = Located::new(
        Statement::Match {
            expression: path_expr(&[X], 10),
            branches: vec![branch(C, Some(vec![A, Y]), ret(path_expr(&[A], 20)))],
        },
        at(0, 1),
    );
    let f = procedure(F, 5, &[X], vec![m]);
    let out = resolve(vec![module(vec![module_decl(M, 0), f])]).unwrap();
    let Statement::Match { expression, branches } = &body_of(&out[0], 1)[0].data else { panic!() };
    assert_eq!(local(bound_of(expression)), 0);
    assert_eq!(local(bound_of(returned(&branches[0].data.statement))), 1);
}

fn sample_program() -> Vec<Module> {
    let v = variant(V, 10, vec![case(C, 20, Some(vec![path_type(&[T], 21)])), case(D, 30, None)]);
    let f = procedure(F, 40, &[X], vec![ret(call(path_expr(&[V, C], 50), vec![path_expr(&[X], 52)]))]);
    let g = procedure(G, 60, &[], vec![ret(path_expr(&[OTHER, Z], 70))]);
    let other = module(vec![module_decl(OTHER, 0), procedure(Z, 5, &[], vec![])]);
    vec![module(vec![module_decl(M, 0), import_decl(OTHER, 2), v, f, g]), other]
}

#[test]
fn resolving_fresh_copies_gives_identical_output() {
    let first = resolve(sample_program()).unwrap();
    let second = resolve(sample_program()).unwrap();
    assert_eq!(format!("{:?}", first), format!("{:?}", second));
}

#[test]
fn constructors_and_imported_paths_resolve() {
    let out = resolve(sample_program()).unwrap();
    match &out[0].declarations[2] {
        Declaration::Variant(v) => {
            assert_eq!(parts(&v.path), vec![M, V]);
            assert_eq!(parts(&v.cases[0].data.path), vec![M, V, C]);
            assert_eq!(parts(&v.cases[1].data.path), vec![M, V, D]);
            let args = v.cases[0].data.arguments.as_ref().unwrap();
            assert_eq!(local(bound_of_type(&args[0])), 0);
        }
        _ => panic!(),
    }
    let Expression::Application { function, .. } = &returned(&body_of(&out[0], 3)[0]).data else { panic!() };
    assert_eq!(absolute(bound_of(function)), vec![M, V, C]);
    assert_eq!(absolute(bound_of(returned(&body_of(&out[0], 4)[0]))), vec![OTHER, Z]);
    assert_eq!(out[1].name, sym(OTHER));
}

#[test]
fn module_without_declaration() {
    let err = resolve(vec![module(vec![procedure(F, 1, &[], vec![])])]).unwrap_err();
    assert!(matches!(err.error.data, ResolveError::ModuleIsNotDeclared));
    assert_eq!(err.location(), at(0, 0));
}

#[test]
fn second_module_declaration_in_one_body() {
    let err = resolve(vec![module(vec![module_decl(M, 0), module_decl(OTHER, 9)])]).unwrap_err();
    assert!(matches!(err.error.data, ResolveError::DuplicateModuleDeclaration));
    assert_eq!(err.location(), at(9, 10));
}

fn interface(n: u64, start: usize) -> Declaration {
    Declaration::Interface(InterfaceDeclaration {
        name: name(n, start),
        path: Path::empty(),
        receiver: name(SELF, 0),
        methods: vec![MethodSignature {
            name: name(F, 0),
            arguments: vec![argument(X, path_type(&[SELF], 0))],
            return_type: path_type(&[SELF], 0),
        }],
    })
}

#[test]
fn interface_and_variant_share_type_names() {
    let err = resolve(vec![module(vec![module_decl(M, 0), variant(V, 10, vec![]), interface(V, 20)])]).unwrap_err();
    match &err.error.data {
        ResolveError::DuplicateTypeDeclaration(p) => assert_eq!(parts(p), vec![M, V]),
        other => panic!("{:?}", other),
    }
    assert_eq!(err.location(), at(20, 21));
}

#[test]
fn unknown_type_is_unbound_type_path() {
    let f = Declaration::Procedure(ProcedureDeclaration {
        name: name(F, 1),
        path: Path::empty(),
        type_vars: vec![],
        arguments: vec![],
        return_type: path_type(&[Z], 9),
        body: vec![],
    });
    let err = resolve(vec![module(vec![module_decl(M, 0), f])]).unwrap_err();
    match &err.error.data {
        ResolveError::UnboundTypePath(p) => assert_eq!(parts(p), vec![M, Z]),
        other => panic!("{:?}", other),
    }
    assert_eq!(err.location(), at(9, 10));
}

#[test]
fn method_constraints_and_receiver_resolve() {
    let method = MethodDeclaration {
        name: name(G, 0),
        constraints: vec![Constraint {
            type_var: Located::new(TypeVar { name: name(T, 0), interfaces: vec![(name(I, 0), Path::empty())] }, at(0, 1)),
            index: 99,
        }],
        instance: name(SELF, 0),
        arguments: vec![argument(X, path_type(&[T], 0))],
        return_type: path_type(&[V], 0),
        body: vec![ret(call(path_expr(&[SELF], 0), vec![path_expr(&[X], 0)]))],
    };
    let v = Declaration::Variant(VariantDeclaration {
        name: name(V, 10),
        path: Path::empty(),
        type_vars: vec![name(T, 0)],
        cases: vec![],
        methods: vec![method],
    });
    let out = resolve(vec![module(vec![module_decl(M, 0), interface(I, 5), v])]).unwrap();
    assert!(!undetermined_in_module(&out[0]));
    let Declaration::Variant(v) = &out[0].declarations[2] else { panic!() };
    let m = &v.methods[0];
    assert_eq!(m.constraints[0].index, 0);
    assert_eq!(parts(&m.constraints[0].type_var.data.interfaces[0].1), vec![M, I]);
    assert_eq!(absolute(bound_of_type(&m.return_type)), vec![M, V]);
    let Expression::Application { function, arguments } = &returned(&m.body[0]).data else { panic!() };
    assert_eq!(local(bound_of(function)), 1);
    assert_eq!(local(bound_of(&arguments[0])), 0);
    let Declaration::Interface(i) = &out[0].declarations[1] else { panic!() };
    assert_eq!(parts(&i.path), vec![M, I]);
    assert_eq!(local(bound_of_type(&i.methods[0].return_type)), 0);
}

#[test]
fn unknown_interface_is_unbound_type_path() {
    let f = Declaration::Procedure(ProcedureDeclaration {
        name: name(F, 1),
        path: Path::empty(),
        type_vars: vec![Located::new(TypeVar { name: name(T, 0), interfaces: vec![(name(I, 4), Path::empty())] }, at(0, 1))],
        arguments: vec![],
        return_type: path_type(&[T], 9),
        body: vec![],
    });
    let err = resolve(vec![module(vec![module_decl(M, 0), f])]).unwrap_err();
    match &err.error.data {
        ResolveError::UnboundTypePath(p) => assert_eq!(parts(p), vec![M, I]),
        other => panic!("{:?}", other),
    }
    assert_eq!(err.location(), at(4, 5));
}

#[test]
fn descriptions_name_the_paths() {
    let mut interner = Interner::new();
    let m = interner.intern("Main");
    let f = interner.intern("fact");
    let again = interner.intern("Main");
    assert_eq!(m, again);
    assert_eq!(interner.get(f), "fact");
    let p = Path::empty().append(m).append(f);
    assert_eq!(p.as_string(&interner), "Main.fact");
    assert_eq!(
        ResolveError::UnboundValuePath(p.duplicate()).description(&interner),
        "`Main.fact` is not bound to a value."
    );
    assert_eq!(
        ResolveError::DuplicateProcedureDeclaration(p.duplicate()).description(&interner),
        "Duplicate declaration of procedure `Main.fact`."
    );
    assert_eq!(
        ResolveError::DuplicateConstructorDeclaration { constructor: f, variant_path: Path::empty().append(m) }
            .description(&interner),
        "Duplicate declaration of constructor `fact` in variant type `Main`."
    );
    assert_eq!(ResolveError::ModuleDoesNotExist(m).description(&interner), "Imported module `Main` does not exist.");
    assert_eq!(ResolveError::CollidingModuleNames(m).description(&interner), "Already imported a module named `Main`.");
    assert_eq!(ResolveError::ModuleIsNotDeclared.description(&interner), "No module declarations found.");
    assert_eq!(ResolveError::DuplicateModuleDeclaration.description(&interner), "Duplicate declaration of module.");
    assert_eq!(ResolveError::DuplicateTypeDeclaration(p.duplicate()).description(&interner), "Duplicate declaration of type `Main.fact`.");
    assert_eq!(ResolveError::UnboundTypePath(p).description(&interner), "`Main.fact` is not bound to a type.");
}

#[test]
fn path_operations() {
    let mut p = Path::empty();
    assert_eq!(p.len(), 0);
    p.push(sym(1));
    p.push(sym(2));
    let q = p.append_parts(&[sym(3), sym(4)]);
    assert_eq!(parts(&q), vec![1, 2, 3, 4]);
    assert!(q.append_parts_from(&[sym(5), sym(6)], 1).same(&Path { parts: vec![sym(1), sym(2), sym(3), sym(4), sym(6)] }));
    p.pop();
    assert_eq!(parts(&p), vec![1]);
    assert!(!p.same(&q));
}

#[test]
fn procedure_and_case_with_one_name_do_not_collide() {
    // `M.C` (a procedure) and `M.V.C` (a constructor) are different paths.
    let f = procedure(C, 10, &[], vec![]);
    let v = variant(V, 20, vec![case(C, 30, None)]);
    let out = resolve(vec![module(vec![module_decl(M, 0), f, v])]).unwrap();
    let Declaration::Procedure(p) = &out[0].declarations[1] else { panic!() };
    assert_eq!(parts(&p.path), vec![M, C]);
    let Declaration::Variant(v) = &out[0].declarations[2] else { panic!() };
    assert_eq!(parts(&v.cases[0].data.path), vec![M, V, C]);
}

#[test]
fn empty_program_resolves_to_nothing() {
    assert!(resolve(vec![]).unwrap().is_empty());
}

use etac::ast::span_table::SpanTable;
use etac::ast::{Block, Decl, Definition, DefinitionKind, GlobDecl, Ident, Interface, Method, Program, Type, TypeKind, Value, ValueKind};
use etac::diag::DiagCtx;
use etac::typecheck::{add_interface, check_glob_decl, check_method, check_value, collect_global, Env, Scope};
use etac::span::Span;
use etac::typecheck::{AnyTy, FnTy, IntTy, Scopes, StmtTy, Types, UnitTy, ValueType, VarTy};

#[test]
fn written_types() {
    let mut spans = SpanTable::new();
    let id = spans.allocate(Span::new(0, 5));
    let arr = TypeKind::Array { of: Box::new(Type::new(id, TypeKind::Bool)), size: None };
    match VarTy::from_kind(&arr) {
        VarTy::Array(a) => assert!(matches!(*a.of, VarTy::Bool(_))),
        other => panic!("unexpected {:?}", other),
    }
    assert!(matches!(VarTy::from_kind(&TypeKind::Error), VarTy::Error(_)));
    assert!(matches!(VarTy::from_kind(&TypeKind::Int), VarTy::Int(_)));
    assert_eq!(ValueType::of(&ValueKind::Int(3)), ValueType::Int(IntTy));
}

#[test]
fn a_node_reads_back_its_type() {
    let mut spans = SpanTable::new();
    let a = spans.allocate(Span::new(0, 1));
    let b = spans.allocate(Span::new(1, 2));
    let mut types = Types::new();
    assert!(matches!(types.assign_type(a, AnyTy::Stmt(StmtTy::Unit(UnitTy))), AnyTy::Stmt(StmtTy::Unit(_))));
    types.assign_type(b, AnyTy::Var(VarTy::Int(IntTy)));
    assert!(matches!(types.lookup_type(a), AnyTy::Stmt(StmtTy::Unit(_))));
    assert!(matches!(types.lookup_type(b), AnyTy::Var(VarTy::Int(_))));
}

#[test]
fn scopes_shadow_and_refuse_redeclaration() {
    let mut spans = SpanTable::new();
    let d1 = spans.allocate(Span::new(0, 1));
    let d2 = spans.allocate(Span::new(2, 3));
    let d3 = spans.allocate(Span::new(4, 5));
    let mut scopes = Scopes::new();
    let x = "x".to_string();
    assert!(scopes.lookup_var(&x).is_none());
    assert_eq!(scopes.declare_var(d1, x.clone(), VarTy::Int(IntTy)), Ok(()));
    assert_eq!(scopes.declare_var(d2, x.clone(), VarTy::Int(IntTy)), Err(d1));
    scopes.push();
    assert_eq!(scopes.lookup_var(&x).unwrap().declared, d1);
    assert_eq!(scopes.declare_var(d3, x.clone(), VarTy::Int(IntTy)), Ok(()));
    assert_eq!(scopes.lookup_var(&x).unwrap().declared, d3);
    scopes.pop();
    assert_eq!(scopes.lookup_var(&x).unwrap().declared, d1);

    let f = "f".to_string();
    assert_eq!(scopes.declare_fn(d2, f.clone(), FnTy { from: vec![], to: vec![VarTy::Int(IntTy)] }), Ok(()));
    assert_eq!(scopes.lookup_fn(&f).unwrap().declared, d2);
    assert!(scopes.lookup_ret().is_none());
    scopes.push();
    scopes.declare_ret_type(d2, vec![]);
    assert_eq!(scopes.lookup_ret().unwrap().declared, d2);
}

#[test]
fn declarations_are_checked_once_per_scope() {
    let mut spans = SpanTable::new();
    let mut dcx = DiagCtx::new();
    let mut env = Env::new();
    let m1 = spans.allocate(Span::new(0, 4));
    let p_ty = spans.allocate(Span::new(5, 8));
    let p = spans.allocate(Span::new(5, 8));
    let body = spans.allocate(Span::new(9, 11));
    let method = Method::new(
        m1,
        Ident::new(m1, "f".to_string()),
        vec![Decl::new(p, Ident::new(p, "a".to_string()), Type::new(p_ty, TypeKind::Int))],
        vec![],
        Block::new(body, vec![]),
    );
    assert!(check_method(&method, &mut env, &spans, &mut dcx).is_ok());
    match env.types.lookup_type(m1) {
        AnyTy::Fn(f) => {
            assert_eq!(f.from.len(), 1);
            assert!(matches!(f.from[0], VarTy::Int(_)));
            assert!(f.to.is_empty());
        }
        other => panic!("unexpected {:?}", other),
    }
    let m2 = spans.allocate(Span::new(20, 24));
    let again = Method::new(m2, Ident::new(m2, "f".to_string()), vec![], vec![], Block::new(body, vec![]));
    assert!(check_method(&again, &mut env, &spans, &mut dcx).is_err());
    assert_eq!(dcx.err_count(), 1);

    let g = spans.allocate(Span::new(30, 31));
    let g_ty = spans.allocate(Span::new(32, 36));
    let glob = GlobDecl::new(g, Ident::new(g, "x".to_string()), Type::new(g_ty, TypeKind::Bool), None);
    assert!(check_glob_decl(&glob, &mut env, &spans, &mut dcx).is_ok());
    assert!(matches!(env.types.lookup_type(g), AnyTy::Var(VarTy::Bool(_))));
    assert!(matches!(env.types.lookup_type(g_ty), AnyTy::Var(VarTy::Bool(_))));

    let bad = spans.allocate(Span::new(40, 41));
    let bad_ty = spans.allocate(Span::new(42, 43));
    let broken = GlobDecl::new(bad, Ident::new(bad, "y".to_string()), Type::new(bad_ty, TypeKind::Error), None);
    assert!(check_glob_decl(&broken, &mut env, &spans, &mut dcx).is_err());
    assert_eq!(dcx.err_count(), 1);

    let v = spans.allocate(Span::new(50, 51));
    assert_eq!(check_value(&Value::new(v, ValueKind::Bool(true)), &mut env), ValueType::Bool(etac::typecheck::BoolTy));

    let all = dcx.into_diagnostics();
    assert_eq!(all[0].message, "method f already exists");
    assert_eq!(all[0].loc, Some(Span::new(0, 4)));
    assert_eq!(all[0].labels[0].1, "method first defined here");
}

#[test]
fn collecting_the_global_scope_keeps_the_first_declaration() {
    let mut spans = SpanTable::new();
    let mut dcx = DiagCtx::new();
    let mut env = Env::new();
    let mut mk = |lo: u32| spans.allocate(Span::new(lo, lo + 1));
    let (f1, f2, b) = (mk(0), mk(2), mk(4));
    let (x1, t1, x2, t2, y, ty) = (mk(6), mk(8), mk(10), mk(12), mk(14), mk(16));
    let method = |id, ret: Vec<Type>| Method::new(id, Ident::new(id, "f".to_string()), vec![], ret, Block::new(b, vec![]));
    let glob = |id, name: &str, t| GlobDecl::new(id, Ident::new(id, name.to_string()), t, None);
    let defs = vec![
        Definition::new(f1, DefinitionKind::Method(method(f1, vec![]))),
        Definition::new(f2, DefinitionKind::Method(method(f2, vec![Type::new(b, TypeKind::Int)]))),
        Definition::new(x1, DefinitionKind::GlobDecl(glob(x1, "x", Type::new(t1, TypeKind::Int)))),
        Definition::new(x2, DefinitionKind::GlobDecl(glob(x2, "x", Type::new(t2, TypeKind::Bool)))),
        Definition::new(y, DefinitionKind::GlobDecl(glob(y, "y", Type::new(ty, TypeKind::Error)))),
        Definition::new(y, DefinitionKind::Error),
    ];
    let prog = Program::new(b, vec![], defs);
    collect_global(&prog, &mut env, &spans, &mut dcx);
    let f = env.scopes.lookup_fn(&"f".to_string()).unwrap();
    assert_eq!(f.declared, f1);
    assert!(f.ty.to.is_empty());
    let x = env.scopes.lookup_var(&"x".to_string()).unwrap();
    assert_eq!(x.declared, x1);
    assert!(matches!(x.ty, VarTy::Int(_)));
    assert!(env.scopes.lookup_var(&"y".to_string()).is_none());
    assert_eq!(dcx.err_count(), 1);
    let all = dcx.into_diagnostics();
    assert_eq!(all[0].message, "variable x already exists");
    assert_eq!(all[0].loc, Some(Span::new(6, 7)));
}

#[test]
fn the_current_scope_is_the_innermost() {
    let mut spans = SpanTable::new();
    let d = spans.allocate(Span::new(0, 1));
    let x = "x".to_string();
    let mut scopes = Scopes::new();
    assert_eq!(scopes.declare_var(d, x.clone(), VarTy::Int(IntTy)), Ok(()));
    assert_ne!(format!("{:?}", scopes.current()), format!("{:?}", Scope::new()));
    scopes.push();
    assert_eq!(format!("{:?}", scopes.current()), format!("{:?}", Scope::new()));
    scopes.pop();
    *scopes.current_mut() = Scope::new();
    assert!(scopes.lookup_var(&x).is_none());
}

#[test]
fn an_interface_adds_nothing_yet() {
    let mut spans = SpanTable::new();
    let d = spans.allocate(Span::new(0, 1));
    let mut env = Env::new();
    assert_eq!(env.scopes.declare_var(d, "x".to_string(), VarTy::Int(IntTy)), Ok(()));
    let before = format!("{:?}", env.scopes.current());
    add_interface(&mut env, &Interface::new(d, Vec::new()));
    assert_eq!(format!("{:?}", env.scopes.current()), before);
}

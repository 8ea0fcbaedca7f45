use etac::ast::span_table::{AstNode, NodeId, SpanTable};
use etac::ast::sexpr::{expr_sexpr, program_sexpr, SExpr};
use etac::ast::{
    ArrLit, BinOp, Block, Definition, DefinitionKind, Expr, ExprKind, Ident, LValue, LValueKind, Leaf, Lit, Method, Program, Stmt,
    StmtKind, TypeKind, UOp, Use,
};
use etac::parse::lvalue_to_expr;
use etac::span::Span;

#[test]
fn allocated_ids_are_fresh_and_keep_their_spans() {
    let mut spans = SpanTable::new();
    let a = spans.allocate(Span::new(0, 3));
    let b = spans.allocate(Span::new(4, 9));
    assert_ne!(a, b);
    assert_eq!(a.as_u32(), 0);
    assert_eq!(b.as_u32(), 1);
    assert_eq!(spans.get(a), Span::new(0, 3));
    assert_eq!(spans.get(b), Span::new(4, 9));
}

#[test]
fn dup_shares_the_span() {
    let mut spans = SpanTable::new();
    let a = spans.allocate(Span::new(2, 5));
    let c = spans.dup(a);
    assert_ne!(a, c);
    assert_eq!(spans.get(c), Span::new(2, 5));
}

#[test]
fn placeholder_id_has_placeholder_span() {
    let spans = SpanTable::new();
    assert_eq!(spans.get(NodeId::dummy()), Span::dummy());
    assert_eq!(NodeId::dummy().as_u32(), u32::MAX);
}

#[test]
fn span_of_a_node() {
    let mut spans = SpanTable::new();
    let id = spans.allocate(Span::new(7, 8));
    let leaf = Leaf::new(id, BinOp::Add);
    assert_eq!(leaf.node_id(), id);
    assert_eq!(spans.span_of(&leaf), Span::new(7, 8));
    let ident = Ident::new(id, "x".to_string());
    assert_eq!(spans.span_of(&ident), Span::new(7, 8));
}

#[test]
fn operators() {
    assert_eq!(UOp::Neg.as_str(), "-");
    assert_eq!(UOp::Not.as_str(), "!");
    assert_eq!(BinOp::HighMul.as_str(), "*>>");
    assert_eq!(BinOp::Ge.as_str(), ">=");
    assert_eq!(BinOp::Or.precedence(), 1);
    assert_eq!(BinOp::And.precedence(), 2);
    assert_eq!(BinOp::Neq.precedence(), 3);
    assert_eq!(BinOp::Le.precedence(), 4);
    assert_eq!(BinOp::Sub.precedence(), 5);
    assert_eq!(BinOp::Mod.precedence(), 6);
    assert!(BinOp::Lt.is_comparison());
    assert!(!BinOp::Add.is_comparison());
    assert!(BinOp::And.is_short_circuit());
    assert!(!BinOp::Eq.is_short_circuit());
    assert!(TypeKind::Array { of: Box::new(etac::ast::Type::new(NodeId::dummy(), TypeKind::Int)), size: None }.is_array());
    assert!(!TypeKind::Int.is_array());
}

#[test]
fn lvalue_reads_as_expression_with_a_fresh_id() {
    let mut spans = SpanTable::new();
    let id = spans.allocate(Span::new(10, 11));
    let lv_id = spans.allocate(Span::new(10, 11));
    let lv = LValue::new(lv_id, LValueKind::Id(Ident::new(id, "a".to_string())));
    let e: Expr = lvalue_to_expr(lv, &mut spans);
    assert_ne!(e.node_id, lv_id);
    assert_eq!(spans.get(e.node_id), Span::new(10, 11));
    match e.kind {
        ExprKind::Id(i) => assert_eq!(i.sym, "a"),
        other => panic!("unexpected {:?}", other),
    }
}

#[test]
fn sexpr_of_a_program() {
    let d = NodeId::dummy();
    let ret = Stmt::new(d, StmtKind::Return { values: vec![Expr::new(d, ExprKind::Lit(Lit::Int(-3)))] });
    let m = Method::new(d, Ident::new(d, "main".to_string()), vec![], vec![], Block::new(d, vec![ret]));
    let p = Program::new(
        d,
        vec![Use::new(d, Ident::new(d, "io".to_string()))],
        vec![Definition::new(d, DefinitionKind::Method(m)), Definition::new(d, DefinitionKind::Error)],
    );
    assert_eq!(flat(&program_sexpr(&p)), "(((use io)) ((main () () ((return -3))) Error))");
}

#[test]
fn sexpr_of_literals_and_operators() {
    let d = NodeId::dummy();
    let s = Expr::new(d, ExprKind::Lit(Lit::Arr(ArrLit::Str("a\"\u{e9}".to_string()))));
    match expr_sexpr(&s) {
        SExpr::Atom(a) => assert_eq!(a, "\"a\\\"\\u{e9}\""),
        other => panic!("unexpected {:?}", other),
    }
    let c = Expr::new(d, ExprKind::Lit(Lit::Char('x')));
    match expr_sexpr(&c) {
        SExpr::Atom(a) => assert_eq!(a, "'x'"),
        other => panic!("unexpected {:?}", other),
    }
    let sum = Expr::new(
        d,
        ExprKind::Binary {
            op: Leaf::new(d, BinOp::HighMul),
            lhs: Box::new(Expr::new(d, ExprKind::Id(Ident::new(d, "a".to_string())))),
            rhs: Box::new(Expr::new(d, ExprKind::Error)),
        },
    );
    match expr_sexpr(&sum) {
        SExpr::List(v) => {
            assert_eq!(v.len(), 3);
            assert!(matches!(&v[0], SExpr::Atom(a) if a == "*>>"));
            assert!(matches!(&v[2], SExpr::Atom(a) if a == "Error"));
        }
        other => panic!("unexpected {:?}", other),
    }
}

fn flat(s: &SExpr) -> String {
    match s {
        SExpr::Atom(a) => a.clone(),
        SExpr::List(v) => format!("({})", v.iter().map(flat).collect::<Vec<_>>().join(" ")),
        SExpr::Run(v) => v.iter().map(flat).collect::<Vec<_>>().join(" "),
    }
}

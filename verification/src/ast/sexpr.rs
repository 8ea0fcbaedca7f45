//! The S-expression form of a syntax tree, written to the `.parsed` dump.
//! Each node becomes an atom or a parenthesized list; laying the lists out
//! on lines of a given width is left to the printer.
use vstd::prelude::*;
use vstd::string::StringExecFns;
use crate::ast::{binop_text, uop_text, ArrLit, Block, Decl, Definition, DefinitionKind, Expr, ExprKind, GlobDecl, Interface, InterfaceItem, InterfaceItemKind, LValue, LValueKind, Lit, Method, MethodDecl, ProcCall, Program, Stmt, StmtKind, Target, Type, TypeKind, Use, Value, ValueKind};
use crate::lexer::text::{escape_default_str, int_decimal, push_escape_default_str, push_int, push_int_wide, string_of};
use crate::text::{push_char, push_str};

verus! {

/// An S-expression.
#[derive(Debug)]
pub enum SExpr {
    /// A word.
    Atom(String),
    /// Items in parentheses.
    List(Vec<SExpr>),
    /// Items side by side, without parentheses.
    Run(Vec<SExpr>),
}

pub open spec fn items(s: SExpr) -> Seq<SExpr> {
    match s {
        SExpr::List(v) => v@,
        SExpr::Run(v) => v@,
        SExpr::Atom(_) => Seq::empty(),
    }
}

pub open spec fn is_atom(s: SExpr, t: Seq<char>) -> bool {
    s matches SExpr::Atom(a) && a@ == t
}

pub open spec fn is_list(s: SExpr, n: int) -> bool {
    s is List && items(s).len() == n
}

pub open spec fn bool_text(b: bool) -> Seq<char> {
    if b {
        "true"@
    } else {
        "false"@
    }
}

/// The atom of a literal that is not an array.
pub open spec fn lit_atom(l: Lit) -> Seq<char> {
    match l {
        Lit::Int(i) => int_decimal(i as int),
        Lit::Bool(b) => bool_text(b),
        Lit::Char(c) => "'"@ + seq![c] + "'"@,
        Lit::Arr(ArrLit::Str(t)) => "\""@ + escape_default_str(t@) + "\""@,
        Lit::Arr(ArrLit::Array(_)) => Seq::empty(),
    }
}

/// `s` is the S-expression of `e`.
pub open spec fn expr_sx(e: Expr, s: SExpr) -> bool
    decreases e, 0int,
{
    match e.kind {
        ExprKind::Id(id) => is_atom(s, id.sym@),
        ExprKind::Lit(Lit::Arr(ArrLit::Array(es))) => {
            &&& is_list(s, es@.len() as int)
            &&& forall|i: int| 0 <= i < es@.len() ==> expr_sx(#[trigger] es@[i], items(s)[i])
        },
        ExprKind::Lit(l) => is_atom(s, lit_atom(l)),
        ExprKind::Index { array, index } => {
            &&& is_list(s, 3)
            &&& is_atom(items(s)[0], "[]"@)
            &&& expr_sx(*array, items(s)[1])
            &&& expr_sx(*index, items(s)[2])
        },
        ExprKind::Call(pc) => call_sx(pc, s),
        ExprKind::Length(x) => {
            &&& is_list(s, 2)
            &&& is_atom(items(s)[0], "length"@)
            &&& expr_sx(*x, items(s)[1])
        },
        ExprKind::Unary { op, operand } => {
            &&& is_list(s, 2)
            &&& is_atom(items(s)[0], uop_text(op.node))
            &&& expr_sx(*operand, items(s)[1])
        },
        ExprKind::Binary { op, lhs, rhs } => {
            &&& is_list(s, 3)
            &&& is_atom(items(s)[0], binop_text(op.node))
            &&& expr_sx(*lhs, items(s)[1])
            &&& expr_sx(*rhs, items(s)[2])
        },
        ExprKind::Error => is_atom(s, "Error"@),
    }
}

/// `s` is the S-expression of a call: the name, then the arguments.
pub open spec fn call_sx(pc: ProcCall, s: SExpr) -> bool
    decreases pc, 1int,
{
    &&& is_list(s, pc.args@.len() + 1int)
    &&& is_atom(items(s)[0], pc.id.sym@)
    &&& forall|i: int| 0 <= i < pc.args@.len() ==> expr_sx(#[trigger] pc.args@[i], items(s)[i + 1])
}

fn atom_of(t: &str) -> (s: SExpr)
    ensures
        is_atom(s, t@),
{
    SExpr::Atom(String::from_str(t))
}

fn name_atom(t: &String) -> (s: SExpr)
    ensures
        is_atom(s, t@),
{
    SExpr::Atom(t.clone())
}

fn lit_atom_exec(l: &Lit) -> (s: SExpr)
    requires
        !(*l matches Lit::Arr(ArrLit::Array(_))),
    ensures
        is_atom(s, lit_atom(*l)),
{
    match l {
        Lit::Int(i) => {
            let mut t = String::new();
            push_int_wide(&mut t, *i);
            proof {
                assert(t@ =~= int_decimal(*i as int));
            }
            SExpr::Atom(t)
        },
        Lit::Bool(b) => if *b {
            atom_of("true")
        } else {
            atom_of("false")
        },
        Lit::Char(c) => {
            let mut t = String::from_str("'");
            push_char(&mut t, *c);
            push_str(&mut t, "'");
            proof {
                assert(t@ =~= "'"@ + seq![*c] + "'"@);
            }
            SExpr::Atom(t)
        },
        Lit::Arr(ArrLit::Str(text)) => {
            let mut buf: Vec<char> = Vec::new();
            buf.push('"');
            push_escape_default_str(&mut buf, text.as_str());
            buf.push('"');
            proof {
                reveal_strlit("\"");
                assert(buf@ =~= "\""@ + escape_default_str(text@) + "\""@);
            }
            SExpr::Atom(string_of(&buf))
        },
        Lit::Arr(ArrLit::Array(_)) => {
            proof {
                assert(false);
            }
            atom_of("")
        },
    }
}

/// The S-expressions of `es`, one each.
pub fn exprs_sexprs(es: &Vec<Expr>) -> (v: Vec<SExpr>)
    ensures
        v@.len() == es@.len(),
        forall|i: int| 0 <= i < es@.len() ==> expr_sx(#[trigger] es@[i], v@[i]),
    decreases es, 1int,
{
    let mut v: Vec<SExpr> = Vec::new();
    let mut i: usize = 0;
    while i < es.len()
        invariant
            i <= es@.len(),
            v@.len() == i,
            forall|j: int| 0 <= j < i ==> expr_sx(#[trigger] es@[j], v@[j]),
        decreases es@.len() - i,
    {
        let x = expr_sexpr(&es[i]);
        v.push(x);
        i += 1;
    }
    v
}

/// The S-expression of an expression.
pub fn expr_sexpr(e: &Expr) -> (s: SExpr)
    ensures
        expr_sx(*e, s),
    decreases e, 0int,
{
    match &e.kind {
        ExprKind::Id(id) => name_atom(&id.sym),
        ExprKind::Lit(Lit::Arr(ArrLit::Array(es))) => SExpr::List(exprs_sexprs(es)),
        ExprKind::Lit(l) => lit_atom_exec(l),
        ExprKind::Index { array, index } => {
            let mut v: Vec<SExpr> = Vec::new();
            v.push(atom_of("[]"));
            v.push(expr_sexpr(array));
            v.push(expr_sexpr(index));
            SExpr::List(v)
        },
        ExprKind::Call(pc) => call_sexpr(pc),
        ExprKind::Length(x) => {
            let mut v: Vec<SExpr> = Vec::new();
            v.push(atom_of("length"));
            v.push(expr_sexpr(x));
            SExpr::List(v)
        },
        ExprKind::Unary { op, operand } => {
            let mut v: Vec<SExpr> = Vec::new();
            v.push(atom_of(op.node.as_str()));
            v.push(expr_sexpr(operand));
            SExpr::List(v)
        },
        ExprKind::Binary { op, lhs, rhs } => {
            let mut v: Vec<SExpr> = Vec::new();
            v.push(atom_of(op.node.as_str()));
            v.push(expr_sexpr(lhs));
            v.push(expr_sexpr(rhs));
            SExpr::List(v)
        },
        ExprKind::Error => atom_of("Error"),
    }
}

/// The S-expression of a call.
pub fn call_sexpr(pc: &ProcCall) -> (s: SExpr)
    ensures
        call_sx(*pc, s),
    decreases pc, 2int,
{
    let mut v: Vec<SExpr> = Vec::new();
    v.push(name_atom(&pc.id.sym));
    let mut args = exprs_sexprs(&pc.args);
    let ghost a = args@;
    v.append(&mut args);
    proof {
        assert forall|j: int| 0 <= j < pc.args@.len() implies expr_sx(#[trigger] pc.args@[j], items(SExpr::List(v))[j + 1]) by {
            assert(v@[j + 1] == a[j]);
        }
    }
    SExpr::List(v)
}

// ---- types, declarations, places ----

pub open spec fn type_sx(t: Type, s: SExpr) -> bool
    decreases t,
{
    match t.kind {
        TypeKind::Array { of, size } => match size {
            Some(e) => {
                &&& is_list(s, 3)
                &&& is_atom(items(s)[0], "[]"@)
                &&& type_sx(*of, items(s)[1])
                &&& expr_sx(*e, items(s)[2])
            },
            None => {
                &&& is_list(s, 2)
                &&& is_atom(items(s)[0], "[]"@)
                &&& type_sx(*of, items(s)[1])
            },
        },
        TypeKind::Int => is_atom(s, "int"@),
        TypeKind::Bool => is_atom(s, "bool"@),
        TypeKind::Error => is_atom(s, "Error"@),
    }
}

pub open spec fn decl_sx(d: Decl, s: SExpr) -> bool {
    &&& is_list(s, 2)
    &&& is_atom(items(s)[0], d.id.sym@)
    &&& type_sx(d.typ, items(s)[1])
}

pub open spec fn lvalue_sx(l: LValue, s: SExpr) -> bool {
    match l.kind {
        LValueKind::Index { array, index } => {
            &&& is_list(s, 3)
            &&& is_atom(items(s)[0], "[]"@)
            &&& expr_sx(*array, items(s)[1])
            &&& expr_sx(*index, items(s)[2])
        },
        LValueKind::Id(id) => is_atom(s, id.sym@),
        LValueKind::ProcCall(pc) => call_sx(pc, s),
    }
}

pub open spec fn target_sx(t: Target, s: SExpr) -> bool {
    match t {
        Target::LValue(v) => lvalue_sx(v, s),
        Target::Decl(d) => decl_sx(d, s),
        Target::Discard(_) => is_atom(s, "_"@),
    }
}

/// The S-expression of a written type.
pub fn type_sexpr(t: &Type) -> (s: SExpr)
    ensures
        type_sx(*t, s),
    decreases t,
{
    match &t.kind {
        TypeKind::Array { of, size } => {
            let mut v: Vec<SExpr> = Vec::new();
            v.push(atom_of("[]"));
            v.push(type_sexpr(of));
            match size {
                Some(e) => {
                    v.push(expr_sexpr(e));
                },
                None => {},
            }
            SExpr::List(v)
        },
        TypeKind::Int => atom_of("int"),
        TypeKind::Bool => atom_of("bool"),
        TypeKind::Error => atom_of("Error"),
    }
}

pub fn decl_sexpr(d: &Decl) -> (s: SExpr)
    ensures
        decl_sx(*d, s),
{
    let mut v: Vec<SExpr> = Vec::new();
    v.push(name_atom(&d.id.sym));
    v.push(type_sexpr(&d.typ));
    SExpr::List(v)
}

pub fn lvalue_sexpr(l: &LValue) -> (s: SExpr)
    ensures
        lvalue_sx(*l, s),
{
    match &l.kind {
        LValueKind::Index { array, index } => {
            let mut v: Vec<SExpr> = Vec::new();
            v.push(atom_of("[]"));
            v.push(expr_sexpr(array));
            v.push(expr_sexpr(index));
            SExpr::List(v)
        },
        LValueKind::Id(id) => name_atom(&id.sym),
        LValueKind::ProcCall(pc) => call_sexpr(pc),
    }
}

pub fn target_sexpr(t: &Target) -> (s: SExpr)
    ensures
        target_sx(*t, s),
{
    match t {
        Target::LValue(v) => lvalue_sexpr(v),
        Target::Decl(d) => decl_sexpr(d),
        Target::Discard(_) => atom_of("_"),
    }
}

// ---- statements ----

/// One target or value alone, else all of them in a list.
pub open spec fn targets_sx(ts: Seq<Target>, s: SExpr) -> bool {
    if ts.len() == 1 {
        target_sx(ts[0], s)
    } else {
        &&& is_list(s, ts.len() as int)
        &&& forall|i: int| 0 <= i < ts.len() ==> target_sx(#[trigger] ts[i], items(s)[i])
    }
}

pub open spec fn values_sx(es: Seq<Expr>, s: SExpr) -> bool {
    if es.len() == 1 {
        expr_sx(es[0], s)
    } else {
        &&& is_list(s, es.len() as int)
        &&& forall|i: int| 0 <= i < es.len() ==> expr_sx(#[trigger] es[i], items(s)[i])
    }
}

pub open spec fn stmt_sx(st: Stmt, s: SExpr) -> bool
    decreases st, 0int,
{
    match st.kind {
        StmtKind::Assign { targets, values } => {
            &&& is_list(s, 3)
            &&& is_atom(items(s)[0], "="@)
            &&& targets_sx(targets@, items(s)[1])
            &&& values_sx(values@, items(s)[2])
        },
        StmtKind::If { cond, then_branch, else_branch } => match else_branch {
            Some(e) => {
                &&& is_list(s, 4)
                &&& is_atom(items(s)[0], "if"@)
                &&& expr_sx(cond, items(s)[1])
                &&& stmt_sx(*then_branch, items(s)[2])
                &&& stmt_sx(*e, items(s)[3])
            },
            None => {
                &&& is_list(s, 3)
                &&& is_atom(items(s)[0], "if"@)
                &&& expr_sx(cond, items(s)[1])
                &&& stmt_sx(*then_branch, items(s)[2])
            },
        },
        StmtKind::While { cond, body } => {
            &&& is_list(s, 3)
            &&& is_atom(items(s)[0], "while"@)
            &&& expr_sx(cond, items(s)[1])
            &&& stmt_sx(*body, items(s)[2])
        },
        StmtKind::Return { values } => {
            &&& is_list(s, values@.len() + 1int)
            &&& is_atom(items(s)[0], "return"@)
            &&& forall|i: int| 0 <= i < values@.len() ==> expr_sx(#[trigger] values@[i], items(s)[i + 1])
        },
        StmtKind::Call(pc) => call_sx(pc, s),
        StmtKind::Block(b) => block_sx(b, s),
        StmtKind::Decls(decls) => {
            &&& s is Run
            &&& items(s).len() == decls@.len()
            &&& forall|i: int| 0 <= i < decls@.len() ==> decl_sx(#[trigger] decls@[i], items(s)[i])
        },
        StmtKind::Error => is_atom(s, "Error"@),
    }
}

pub open spec fn block_sx(b: Block, s: SExpr) -> bool
    decreases b, 1int,
{
    &&& is_list(s, b.stmts@.len() as int)
    &&& forall|i: int| 0 <= i < b.stmts@.len() ==> stmt_sx(#[trigger] b.stmts@[i], items(s)[i])
}

fn decls_sexprs(xs: &Vec<Decl>) -> (v: Vec<SExpr>)
    ensures
        v@.len() == xs@.len(),
        forall|i: int| 0 <= i < xs@.len() ==> decl_sx(#[trigger] xs@[i], v@[i]),
{
    let mut v: Vec<SExpr> = Vec::new();
    let mut i: usize = 0;
    while i < xs.len()
        invariant
            i <= xs@.len(),
            v@.len() == i,
            forall|j: int| 0 <= j < i ==> decl_sx(#[trigger] xs@[j], v@[j]),
        decreases xs@.len() - i,
    {
        let x = decl_sexpr(&xs[i]);
        v.push(x);
        i += 1;
    }
    v
}

fn targets_sexprs(xs: &Vec<Target>) -> (v: Vec<SExpr>)
    ensures
        v@.len() == xs@.len(),
        forall|i: int| 0 <= i < xs@.len() ==> target_sx(#[trigger] xs@[i], v@[i]),
{
    let mut v: Vec<SExpr> = Vec::new();
    let mut i: usize = 0;
    while i < xs.len()
        invariant
            i <= xs@.len(),
            v@.len() == i,
            forall|j: int| 0 <= j < i ==> target_sx(#[trigger] xs@[j], v@[j]),
        decreases xs@.len() - i,
    {
        let x = target_sexpr(&xs[i]);
        v.push(x);
        i += 1;
    }
    v
}

fn types_sexprs(xs: &Vec<Type>) -> (v: Vec<SExpr>)
    ensures
        v@.len() == xs@.len(),
        forall|i: int| 0 <= i < xs@.len() ==> type_sx(#[trigger] xs@[i], v@[i]),
{
    let mut v: Vec<SExpr> = Vec::new();
    let mut i: usize = 0;
    while i < xs.len()
        invariant
            i <= xs@.len(),
            v@.len() == i,
            forall|j: int| 0 <= j < i ==> type_sx(#[trigger] xs@[j], v@[j]),
        decreases xs@.len() - i,
    {
        let x = type_sexpr(&xs[i]);
        v.push(x);
        i += 1;
    }
    v
}

fn targets_sexpr(ts: &Vec<Target>) -> (s: SExpr)
    ensures
        targets_sx(ts@, s),
{
    if ts.len() == 1 {
        target_sexpr(&ts[0])
    } else {
        SExpr::List(targets_sexprs(ts))
    }
}

fn values_sexpr(es: &Vec<Expr>) -> (s: SExpr)
    ensures
        values_sx(es@, s),
{
    if es.len() == 1 {
        expr_sexpr(&es[0])
    } else {
        SExpr::List(exprs_sexprs(es))
    }
}

/// The S-expression of a statement.
pub fn stmt_sexpr(st: &Stmt) -> (s: SExpr)
    ensures
        stmt_sx(*st, s),
    decreases st, 0int,
{
    match &st.kind {
        StmtKind::Assign { targets, values } => {
            let mut v: Vec<SExpr> = Vec::new();
            v.push(atom_of("="));
            v.push(targets_sexpr(targets));
            v.push(values_sexpr(values));
            SExpr::List(v)
        },
        StmtKind::If { cond, then_branch, else_branch } => {
            let mut v: Vec<SExpr> = Vec::new();
            v.push(atom_of("if"));
            v.push(expr_sexpr(cond));
            v.push(stmt_sexpr(then_branch));
            match else_branch {
                Some(e) => {
                    v.push(stmt_sexpr(e));
                },
                None => {},
            }
            SExpr::List(v)
        },
        StmtKind::While { cond, body } => {
            let mut v: Vec<SExpr> = Vec::new();
            v.push(atom_of("while"));
            v.push(expr_sexpr(cond));
            v.push(stmt_sexpr(body));
            SExpr::List(v)
        },
        StmtKind::Return { values } => {
            let mut v: Vec<SExpr> = Vec::new();
            v.push(atom_of("return"));
            let mut rest = exprs_sexprs(values);
            let ghost a = rest@;
            v.append(&mut rest);
            proof {
                assert forall|i: int| 0 <= i < values@.len() implies expr_sx(
                    #[trigger] values@[i],
                    items(SExpr::List(v))[i + 1],
                ) by {
                    assert(v@[i + 1] == a[i]);
                }
            }
            SExpr::List(v)
        },
        StmtKind::Call(pc) => call_sexpr(pc),
        StmtKind::Block(b) => block_sexpr(b),
        StmtKind::Decls(decls) => SExpr::Run(decls_sexprs(decls)),
        StmtKind::Error => atom_of("Error"),
    }
}

/// The S-expression of a block: its statements in a list.
pub fn block_sexpr(b: &Block) -> (s: SExpr)
    ensures
        block_sx(*b, s),
    decreases b, 1int,
{
    let mut v: Vec<SExpr> = Vec::new();
    let mut i: usize = 0;
    while i < b.stmts.len()
        invariant
            i <= b.stmts@.len(),
            v@.len() == i,
            forall|j: int| 0 <= j < i ==> stmt_sx(#[trigger] b.stmts@[j], v@[j]),
        decreases b.stmts@.len() - i,
    {
        let x = stmt_sexpr(&b.stmts[i]);
        v.push(x);
        i += 1;
    }
    SExpr::List(v)
}

// ---- top level ----

pub open spec fn value_sx(v: Value, s: SExpr) -> bool {
    match v.kind {
        ValueKind::Int(i) => is_atom(s, int_decimal(i as int)),
        ValueKind::Bool(b) => is_atom(s, bool_text(b)),
    }
}

pub open spec fn glob_sx(g: GlobDecl, s: SExpr) -> bool {
    &&& is_atom(items(s)[0], ":global"@)
    &&& is_atom(items(s)[1], g.id.sym@)
    &&& type_sx(g.typ, items(s)[2])
    &&& match g.val {
        Some(v) => is_list(s, 4) && value_sx(v, items(s)[3]),
        None => is_list(s, 3),
    }
}

/// A list holding the S-expression of each declaration.
pub open spec fn decls_list_sx(ds: Seq<Decl>, s: SExpr) -> bool {
    &&& is_list(s, ds.len() as int)
    &&& forall|i: int| 0 <= i < ds.len() ==> decl_sx(#[trigger] ds[i], items(s)[i])
}

/// A list holding the S-expression of each type.
pub open spec fn types_list_sx(ts: Seq<Type>, s: SExpr) -> bool {
    &&& is_list(s, ts.len() as int)
    &&& forall|i: int| 0 <= i < ts.len() ==> type_sx(#[trigger] ts[i], items(s)[i])
}

pub open spec fn method_decl_sx(m: MethodDecl, s: SExpr) -> bool {
    &&& is_list(s, 3)
    &&& is_atom(items(s)[0], m.id.sym@)
    &&& decls_list_sx(m.params@, items(s)[1])
    &&& types_list_sx(m.ret_types@, items(s)[2])
}

pub open spec fn method_sx(m: Method, s: SExpr) -> bool {
    &&& is_list(s, 4)
    &&& is_atom(items(s)[0], m.id.sym@)
    &&& decls_list_sx(m.params@, items(s)[1])
    &&& types_list_sx(m.ret_types@, items(s)[2])
    &&& block_sx(m.body, items(s)[3])
}

pub open spec fn definition_sx(d: Definition, s: SExpr) -> bool {
    match d.kind {
        DefinitionKind::Method(m) => method_sx(m, s),
        DefinitionKind::GlobDecl(g) => glob_sx(g, s),
        DefinitionKind::Error => is_atom(s, "Error"@),
    }
}

pub open spec fn use_sx(u: Use, s: SExpr) -> bool {
    &&& is_list(s, 2)
    &&& is_atom(items(s)[0], "use"@)
    &&& is_atom(items(s)[1], u.id.sym@)
}

pub open spec fn interface_item_sx(it: InterfaceItem, s: SExpr) -> bool {
    match it.kind {
        InterfaceItemKind::MethodDecl(m) => method_decl_sx(m, s),
        InterfaceItemKind::Error => is_atom(s, "Error"@),
    }
}

/// A program is the list of its `use`s and the list of its definitions.
pub open spec fn program_sx(p: Program, s: SExpr) -> bool {
    &&& is_list(s, 2)
    &&& is_list(items(s)[0], p.uses@.len() as int)
    &&& forall|i: int| 0 <= i < p.uses@.len() ==> use_sx(#[trigger] p.uses@[i], items(items(s)[0])[i])
    &&& is_list(items(s)[1], p.definitions@.len() as int)
    &&& forall|i: int|
        0 <= i < p.definitions@.len() ==> definition_sx(#[trigger] p.definitions@[i], items(items(s)[1])[i])
}

/// An interface is a list holding the list of its items.
pub open spec fn interface_sx(f: Interface, s: SExpr) -> bool {
    &&& is_list(s, 1)
    &&& is_list(items(s)[0], f.items@.len() as int)
    &&& forall|i: int| 0 <= i < f.items@.len() ==> interface_item_sx(#[trigger] f.items@[i], items(items(s)[0])[i])
}

pub fn value_sexpr(v: &Value) -> (s: SExpr)
    ensures
        value_sx(*v, s),
{
    match v.kind {
        ValueKind::Int(i) => {
            let mut t = String::new();
            push_int(&mut t, i);
            proof {
                assert(t@ =~= int_decimal(i as int));
            }
            SExpr::Atom(t)
        },
        ValueKind::Bool(b) => if b {
            atom_of("true")
        } else {
            atom_of("false")
        },
    }
}

pub fn glob_sexpr(g: &GlobDecl) -> (s: SExpr)
    ensures
        glob_sx(*g, s),
{
    let mut v: Vec<SExpr> = Vec::new();
    v.push(atom_of(":global"));
    v.push(name_atom(&g.id.sym));
    v.push(type_sexpr(&g.typ));
    match &g.val {
        Some(x) => {
            v.push(value_sexpr(x));
        },
        None => {},
    }
    SExpr::List(v)
}

pub fn method_decl_sexpr(m: &MethodDecl) -> (s: SExpr)
    ensures
        method_decl_sx(*m, s),
{
    let mut v: Vec<SExpr> = Vec::new();
    v.push(name_atom(&m.id.sym));
    v.push(SExpr::List(decls_sexprs(&m.params)));
    v.push(SExpr::List(types_sexprs(&m.ret_types)));
    SExpr::List(v)
}

pub fn method_sexpr(m: &Method) -> (s: SExpr)
    ensures
        method_sx(*m, s),
{
    let mut v: Vec<SExpr> = Vec::new();
    v.push(name_atom(&m.id.sym));
    v.push(SExpr::List(decls_sexprs(&m.params)));
    v.push(SExpr::List(types_sexprs(&m.ret_types)));
    v.push(block_sexpr(&m.body));
    SExpr::List(v)
}

pub fn definition_sexpr(d: &Definition) -> (s: SExpr)
    ensures
        definition_sx(*d, s),
{
    match &d.kind {
        DefinitionKind::Method(m) => method_sexpr(m),
        DefinitionKind::GlobDecl(g) => glob_sexpr(g),
        DefinitionKind::Error => atom_of("Error"),
    }
}

pub fn use_sexpr(u: &Use) -> (s: SExpr)
    ensures
        use_sx(*u, s),
{
    let mut v: Vec<SExpr> = Vec::new();
    v.push(atom_of("use"));
    v.push(name_atom(&u.id.sym));
    SExpr::List(v)
}

pub fn interface_item_sexpr(it: &InterfaceItem) -> (s: SExpr)
    ensures
        interface_item_sx(*it, s),
{
    match &it.kind {
        InterfaceItemKind::MethodDecl(m) => method_decl_sexpr(m),
        InterfaceItemKind::Error => atom_of("Error"),
    }
}

fn uses_sexprs(xs: &Vec<Use>) -> (v: Vec<SExpr>)
    ensures
        v@.len() == xs@.len(),
        forall|i: int| 0 <= i < xs@.len() ==> use_sx(#[trigger] xs@[i], v@[i]),
{
    let mut v: Vec<SExpr> = Vec::new();
    let mut i: usize = 0;
    while i < xs.len()
        invariant
            i <= xs@.len(),
            v@.len() == i,
            forall|j: int| 0 <= j < i ==> use_sx(#[trigger] xs@[j], v@[j]),
        decreases xs@.len() - i,
    {
        let x = use_sexpr(&xs[i]);
        v.push(x);
        i += 1;
    }
    v
}

fn definitions_sexprs(xs: &Vec<Definition>) -> (v: Vec<SExpr>)
    ensures
        v@.len() == xs@.len(),
        forall|i: int| 0 <= i < xs@.len() ==> definition_sx(#[trigger] xs@[i], v@[i]),
{
    let mut v: Vec<SExpr> = Vec::new();
    let mut i: usize = 0;
    while i < xs.len()
        invariant
            i <= xs@.len(),
            v@.len() == i,
            forall|j: int| 0 <= j < i ==> definition_sx(#[trigger] xs@[j], v@[j]),
        decreases xs@.len() - i,
    {
        let x = definition_sexpr(&xs[i]);
        v.push(x);
        i += 1;
    }
    v
}

fn interface_items_sexprs(xs: &Vec<InterfaceItem>) -> (v: Vec<SExpr>)
    ensures
        v@.len() == xs@.len(),
        forall|i: int| 0 <= i < xs@.len() ==> interface_item_sx(#[trigger] xs@[i], v@[i]),
{
    let mut v: Vec<SExpr> = Vec::new();
    let mut i: usize = 0;
    while i < xs.len()
        invariant
            i <= xs@.len(),
            v@.len() == i,
            forall|j: int| 0 <= j < i ==> interface_item_sx(#[trigger] xs@[j], v@[j]),
        decreases xs@.len() - i,
    {
        let x = interface_item_sexpr(&xs[i]);
        v.push(x);
        i += 1;
    }
    v
}

/// The S-expression of a program.
pub fn program_sexpr(p: &Program) -> (s: SExpr)
    ensures
        program_sx(*p, s),
{
    let mut v: Vec<SExpr> = Vec::new();
    v.push(SExpr::List(uses_sexprs(&p.uses)));
    v.push(SExpr::List(definitions_sexprs(&p.definitions)));
    SExpr::List(v)
}

/// The S-expression of an interface.
pub fn interface_sexpr(f: &Interface) -> (s: SExpr)
    ensures
        interface_sx(*f, s),
{
    let mut v: Vec<SExpr> = Vec::new();
    v.push(SExpr::List(interface_items_sexprs(&f.items)));
    SExpr::List(v)
}

} // verus!

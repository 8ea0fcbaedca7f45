//! The syntax tree of Eta. Every carrier struct owns a [`NodeId`]; spans live
//! outside the tree in the session's [`SpanTable`]. A `*Kind` enum holds the
//! shape of a node, and `Error` variants mark regions the parser recovered from.
use vstd::prelude::*;

pub mod span_table;
pub mod sexpr;

use span_table::{AstNode, NodeId, SpanTable};
use vstd::utf8::encode_utf8;
use crate::lexer::grammar::{lemma_spelling, spelling, Fixed};
use crate::lexer::text::{chars_of, lemma_ascii_chars_of, lemma_spelling_ascii};

verus! {

/// Something too small for a carrier struct (an operator, a `_` discard),
/// paired with the id under which its span is recorded.
#[derive(Debug, Clone, Copy)]
pub struct Leaf<T> {
    pub node_id: NodeId,
    pub node: T,
}

impl<T> Leaf<T> {
    pub fn new(node_id: NodeId, node: T) -> (r: Leaf<T>)
        ensures
            r.node_id == node_id,
            r.node == node,
    {
        Leaf { node_id, node }
    }
}

impl<T> AstNode for Leaf<T> {
    open spec fn spec_node_id(&self) -> NodeId {
        self.node_id
    }

    fn node_id(&self) -> (id: NodeId) {
        self.node_id
    }
}

/// An identifier.
#[derive(Debug, Clone)]
pub struct Ident {
    pub node_id: NodeId,
    pub sym: String,
}

impl Ident {
    pub fn new(node_id: NodeId, sym: String) -> (r: Ident)
        ensures
            r.node_id == node_id,
            r.sym == sym,
    {
        Ident { node_id, sym }
    }
}

impl AstNode for Ident {
    open spec fn spec_node_id(&self) -> NodeId {
        self.node_id
    }

    fn node_id(&self) -> (id: NodeId) {
        self.node_id
    }
}

/// A source file: its `use`s and definitions.
#[derive(Debug)]
pub struct Program {
    pub node_id: NodeId,
    pub uses: Vec<Use>,
    pub definitions: Vec<Definition>,
}

impl Program {
    pub fn new(node_id: NodeId, uses: Vec<Use>, definitions: Vec<Definition>) -> (r: Program)
        ensures
            r.node_id == node_id,
            r.uses == uses,
            r.definitions == definitions,
    {
        Program { node_id, uses, definitions }
    }
}

impl AstNode for Program {
    open spec fn spec_node_id(&self) -> NodeId {
        self.node_id
    }

    fn node_id(&self) -> (id: NodeId) {
        self.node_id
    }
}

/// An interface file: method declarations.
#[derive(Debug)]
pub struct Interface {
    pub node_id: NodeId,
    pub items: Vec<InterfaceItem>,
}

impl Interface {
    pub fn new(node_id: NodeId, items: Vec<InterfaceItem>) -> (r: Interface)
        ensures
            r.node_id == node_id,
            r.items == items,
    {
        Interface { node_id, items }
    }
}

impl AstNode for Interface {
    open spec fn spec_node_id(&self) -> NodeId {
        self.node_id
    }

    fn node_id(&self) -> (id: NodeId) {
        self.node_id
    }
}

/// `use name`.
#[derive(Debug, Clone)]
pub struct Use {
    pub node_id: NodeId,
    pub id: Ident,
}

impl Use {
    pub fn new(node_id: NodeId, id: Ident) -> (r: Use)
        ensures
            r.node_id == node_id,
            r.id == id,
    {
        Use { node_id, id }
    }
}

impl AstNode for Use {
    open spec fn spec_node_id(&self) -> NodeId {
        self.node_id
    }

    fn node_id(&self) -> (id: NodeId) {
        self.node_id
    }
}

/// A top-level definition.
#[derive(Debug)]
pub struct Definition {
    pub node_id: NodeId,
    pub kind: DefinitionKind,
}

impl Definition {
    pub fn new(node_id: NodeId, kind: DefinitionKind) -> (r: Definition)
        ensures
            r.node_id == node_id,
            r.kind == kind,
    {
        Definition { node_id, kind }
    }
}

impl AstNode for Definition {
    open spec fn spec_node_id(&self) -> NodeId {
        self.node_id
    }

    fn node_id(&self) -> (id: NodeId) {
        self.node_id
    }
}

/// An item of an interface file.
#[derive(Debug)]
pub struct InterfaceItem {
    pub node_id: NodeId,
    pub kind: InterfaceItemKind,
}

impl InterfaceItem {
    pub fn new(node_id: NodeId, kind: InterfaceItemKind) -> (r: InterfaceItem)
        ensures
            r.node_id == node_id,
            r.kind == kind,
    {
        InterfaceItem { node_id, kind }
    }
}

impl AstNode for InterfaceItem {
    open spec fn spec_node_id(&self) -> NodeId {
        self.node_id
    }

    fn node_id(&self) -> (id: NodeId) {
        self.node_id
    }
}

/// A method signature without a body.
#[derive(Debug)]
pub struct MethodDecl {
    pub node_id: NodeId,
    pub id: Ident,
    pub params: Vec<Decl>,
    pub ret_types: Vec<Type>,
}

impl MethodDecl {
    pub fn new(node_id: NodeId, id: Ident, params: Vec<Decl>, ret_types: Vec<Type>) -> (r: MethodDecl)
        ensures
            r.node_id == node_id,
            r.id == id,
            r.params == params,
            r.ret_types == ret_types,
    {
        MethodDecl { node_id, id, params, ret_types }
    }
}

impl AstNode for MethodDecl {
    open spec fn spec_node_id(&self) -> NodeId {
        self.node_id
    }

    fn node_id(&self) -> (id: NodeId) {
        self.node_id
    }
}

/// A method with its body.
#[derive(Debug)]
pub struct Method {
    pub node_id: NodeId,
    pub id: Ident,
    pub params: Vec<Decl>,
    pub ret_types: Vec<Type>,
    pub body: Block,
}

impl Method {
    pub fn new(node_id: NodeId, id: Ident, params: Vec<Decl>, ret_types: Vec<Type>, body: Block) -> (r: Method)
        ensures
            r.node_id == node_id,
            r.id == id,
            r.params == params,
            r.ret_types == ret_types,
            r.body == body,
    {
        Method { node_id, id, params, ret_types, body }
    }
}

impl AstNode for Method {
    open spec fn spec_node_id(&self) -> NodeId {
        self.node_id
    }

    fn node_id(&self) -> (id: NodeId) {
        self.node_id
    }
}

/// A global variable, with an optional constant initializer.
#[derive(Debug)]
pub struct GlobDecl {
    pub node_id: NodeId,
    pub id: Ident,
    pub typ: Type,
    pub val: Option<Value>,
}

impl GlobDecl {
    pub fn new(node_id: NodeId, id: Ident, typ: Type, val: Option<Value>) -> (r: GlobDecl)
        ensures
            r.node_id == node_id,
            r.id == id,
            r.typ == typ,
            r.val == val,
    {
        GlobDecl { node_id, id, typ, val }
    }
}

impl AstNode for GlobDecl {
    open spec fn spec_node_id(&self) -> NodeId {
        self.node_id
    }

    fn node_id(&self) -> (id: NodeId) {
        self.node_id
    }
}

/// A constant initializer of a global.
#[derive(Debug, Clone)]
pub struct Value {
    pub node_id: NodeId,
    pub kind: ValueKind,
}

impl Value {
    pub fn new(node_id: NodeId, kind: ValueKind) -> (r: Value)
        ensures
            r.node_id == node_id,
            r.kind == kind,
    {
        Value { node_id, kind }
    }
}

impl AstNode for Value {
    open spec fn spec_node_id(&self) -> NodeId {
        self.node_id
    }

    fn node_id(&self) -> (id: NodeId) {
        self.node_id
    }
}

/// `name: type`.
#[derive(Debug)]
pub struct Decl {
    pub node_id: NodeId,
    pub id: Ident,
    pub typ: Type,
}

impl Decl {
    pub fn new(node_id: NodeId, id: Ident, typ: Type) -> (r: Decl)
        ensures
            r.node_id == node_id,
            r.id == id,
            r.typ == typ,
    {
        Decl { node_id, id, typ }
    }
}

impl AstNode for Decl {
    open spec fn spec_node_id(&self) -> NodeId {
        self.node_id
    }

    fn node_id(&self) -> (id: NodeId) {
        self.node_id
    }
}

/// A written type.
#[derive(Debug)]
pub struct Type {
    pub node_id: NodeId,
    pub kind: TypeKind,
}

impl Type {
    pub fn new(node_id: NodeId, kind: TypeKind) -> (r: Type)
        ensures
            r.node_id == node_id,
            r.kind == kind,
    {
        Type { node_id, kind }
    }
}

impl AstNode for Type {
    open spec fn spec_node_id(&self) -> NodeId {
        self.node_id
    }

    fn node_id(&self) -> (id: NodeId) {
        self.node_id
    }
}

/// `{ .. }`.
#[derive(Debug)]
pub struct Block {
    pub node_id: NodeId,
    pub stmts: Vec<Stmt>,
}

impl Block {
    pub fn new(node_id: NodeId, stmts: Vec<Stmt>) -> (r: Block)
        ensures
            r.node_id == node_id,
            r.stmts == stmts,
    {
        Block { node_id, stmts }
    }
}

impl AstNode for Block {
    open spec fn spec_node_id(&self) -> NodeId {
        self.node_id
    }

    fn node_id(&self) -> (id: NodeId) {
        self.node_id
    }
}

/// A statement.
#[derive(Debug)]
pub struct Stmt {
    pub node_id: NodeId,
    pub kind: StmtKind,
}

impl Stmt {
    pub fn new(node_id: NodeId, kind: StmtKind) -> (r: Stmt)
        ensures
            r.node_id == node_id,
            r.kind == kind,
    {
        Stmt { node_id, kind }
    }
}

impl AstNode for Stmt {
    open spec fn spec_node_id(&self) -> NodeId {
        self.node_id
    }

    fn node_id(&self) -> (id: NodeId) {
        self.node_id
    }
}

/// Something that can be assigned to.
#[derive(Debug)]
pub struct LValue {
    pub node_id: NodeId,
    pub kind: LValueKind,
}

impl LValue {
    pub fn new(node_id: NodeId, kind: LValueKind) -> (r: LValue)
        ensures
            r.node_id == node_id,
            r.kind == kind,
    {
        LValue { node_id, kind }
    }
}

impl AstNode for LValue {
    open spec fn spec_node_id(&self) -> NodeId {
        self.node_id
    }

    fn node_id(&self) -> (id: NodeId) {
        self.node_id
    }
}

/// A call `f(args)`.
#[derive(Debug)]
pub struct ProcCall {
    pub node_id: NodeId,
    pub id: Ident,
    pub args: Vec<Expr>,
}

impl ProcCall {
    pub fn new(node_id: NodeId, id: Ident, args: Vec<Expr>) -> (r: ProcCall)
        ensures
            r.node_id == node_id,
            r.id == id,
            r.args == args,
    {
        ProcCall { node_id, id, args }
    }
}

impl AstNode for ProcCall {
    open spec fn spec_node_id(&self) -> NodeId {
        self.node_id
    }

    fn node_id(&self) -> (id: NodeId) {
        self.node_id
    }
}

/// An expression.
#[derive(Debug)]
pub struct Expr {
    pub node_id: NodeId,
    pub kind: ExprKind,
}

impl Expr {
    pub fn new(node_id: NodeId, kind: ExprKind) -> (r: Expr)
        ensures
            r.node_id == node_id,
            r.kind == kind,
    {
        Expr { node_id, kind }
    }
}

impl AstNode for Expr {
    open spec fn spec_node_id(&self) -> NodeId {
        self.node_id
    }

    fn node_id(&self) -> (id: NodeId) {
        self.node_id
    }
}

#[derive(Debug)]
pub enum DefinitionKind {
    Method(Method),
    GlobDecl(GlobDecl),
    Error,
}

#[derive(Debug)]
pub enum InterfaceItemKind {
    MethodDecl(MethodDecl),
    Error,
}

/// A constant: an integer or a boolean.
#[derive(Debug, Clone, Copy, PartialEq, Eq, Structural)]
pub enum ValueKind {
    Int(i64),
    Bool(bool),
}

#[derive(Debug)]
pub enum TypeKind {
    Array { of: Box<Type>, size: Option<Box<Expr>> },
    Int,
    Bool,
    Error,
}

impl TypeKind {
    pub fn is_array(&self) -> (b: bool)
        ensures
            b == (*self is Array),
    {
        match self {
            TypeKind::Array { .. } => true,
            _ => false,
        }
    }
}

#[derive(Debug)]
pub enum StmtKind {
    Assign { targets: Vec<Target>, values: Vec<Expr> },
    If { cond: Expr, then_branch: Box<Stmt>, else_branch: Option<Box<Stmt>> },
    While { cond: Expr, body: Box<Stmt> },
    Return { values: Vec<Expr> },
    Call(ProcCall),
    Block(Block),
    Decls(Vec<Decl>),
    Error,
}

/// The left side of an assignment. It has no id of its own: each variant's
/// payload carries one.
#[derive(Debug)]
pub enum Target {
    LValue(LValue),
    Decl(Decl),
    Discard(Leaf<()>),
}

impl AstNode for Target {
    open spec fn spec_node_id(&self) -> NodeId {
        match self {
            Target::LValue(lv) => lv.node_id,
            Target::Decl(d) => d.node_id,
            Target::Discard(leaf) => leaf.node_id,
        }
    }

    fn node_id(&self) -> (id: NodeId) {
        match self {
            Target::LValue(lv) => lv.node_id,
            Target::Decl(d) => d.node_id,
            Target::Discard(leaf) => leaf.node_id,
        }
    }
}

#[derive(Debug)]
pub enum LValueKind {
    Id(Ident),
    ProcCall(ProcCall),
    Index { array: Box<Expr>, index: Box<Expr> },
}

#[derive(Debug)]
pub enum ExprKind {
    Id(Ident),
    Lit(Lit),
    Index { array: Box<Expr>, index: Box<Expr> },
    Call(ProcCall),
    Length(Box<Expr>),
    Unary { op: Leaf<UOp>, operand: Box<Expr> },
    Binary { op: Leaf<BinOp>, lhs: Box<Expr>, rhs: Box<Expr> },
    Error,
}

/// Literals carry no id; they are located through the enclosing `Expr`.
#[derive(Debug)]
pub enum Lit {
    Int(i128),
    Bool(bool),
    Char(char),
    Arr(ArrLit),
}

#[derive(Debug)]
pub enum ArrLit {
    Str(String),
    Array(Vec<Expr>),
}

// ---- operators ----

#[derive(Debug, Clone, Copy, PartialEq, Eq, Structural)]
pub enum UOp {
    Neg,
    Not,
}

pub open spec fn uop_text(op: UOp) -> Seq<char> {
    match op {
        UOp::Neg => "-"@,
        UOp::Not => "!"@,
    }
}

impl UOp {
    pub fn as_str(self) -> (s: &'static str)
        ensures
            s@ == uop_text(self),
    {
        match self {
            UOp::Neg => "-",
            UOp::Not => "!",
        }
    }
}

#[derive(Debug, Clone, Copy, PartialEq, Eq, Structural)]
pub enum BinOp {
    Add,
    Sub,
    Mul,
    HighMul,
    Div,
    Mod,
    Eq,
    Neq,
    Lt,
    Gt,
    Le,
    Ge,
    And,
    Or,
}

pub open spec fn binop_text(op: BinOp) -> Seq<char> {
    match op {
        BinOp::Add => "+"@,
        BinOp::Sub => "-"@,
        BinOp::Mul => "*"@,
        BinOp::HighMul => "*>>"@,
        BinOp::Div => "/"@,
        BinOp::Mod => "%"@,
        BinOp::Eq => "=="@,
        BinOp::Neq => "!="@,
        BinOp::Lt => "<"@,
        BinOp::Gt => ">"@,
        BinOp::Le => "<="@,
        BinOp::Ge => ">="@,
        BinOp::And => "&"@,
        BinOp::Or => "|"@,
    }
}

/// The lexer's token that an operator is written with in the source.
pub open spec fn binop_token(op: BinOp) -> Fixed {
    match op {
        BinOp::Add => Fixed::OperatorAdd,
        BinOp::Sub => Fixed::Minus,
        BinOp::Mul => Fixed::OperatorMul,
        BinOp::HighMul => Fixed::OperatorHighMul,
        BinOp::Div => Fixed::OperatorDiv,
        BinOp::Mod => Fixed::OperatorMod,
        BinOp::Eq => Fixed::RelOpEq,
        BinOp::Neq => Fixed::RelOpNeq,
        BinOp::Lt => Fixed::RelOpLt,
        BinOp::Gt => Fixed::RelOpGr,
        BinOp::Le => Fixed::RelOpLe,
        BinOp::Ge => Fixed::RelOpGe,
        BinOp::And => Fixed::Land,
        BinOp::Or => Fixed::Lor,
    }
}

proof fn lemma_binop_chars(op: BinOp)
    ensures
        binop_text(op) == chars_of(spelling(binop_token(op))),
{
    match op {
        BinOp::Add => {
            reveal_strlit("+");
        },
        BinOp::Sub => {
            reveal_strlit("-");
        },
        BinOp::Mul => {
            reveal_strlit("*");
        },
        BinOp::HighMul => {
            reveal_strlit("*>>");
        },
        BinOp::Div => {
            reveal_strlit("/");
        },
        BinOp::Mod => {
            reveal_strlit("%");
        },
        BinOp::Eq => {
            reveal_strlit("==");
        },
        BinOp::Neq => {
            reveal_strlit("!=");
        },
        BinOp::Lt => {
            reveal_strlit("<");
        },
        BinOp::Gt => {
            reveal_strlit(">");
        },
        BinOp::Le => {
            reveal_strlit("<=");
        },
        BinOp::Ge => {
            reveal_strlit(">=");
        },
        BinOp::And => {
            reveal_strlit("&");
        },
        BinOp::Or => {
            reveal_strlit("|");
        },
    }
    assert(binop_text(op) =~= chars_of(spelling(binop_token(op))));
}

/// An operator prints as it is written: the text of `a`, encoded, is the
/// spelling of the lexer's token for `a` (`%` for `Mod`, `&` for `And`), and
/// two operators that print alike are the same operator.
pub proof fn lemma_binop_text_is_spelling(a: BinOp, b: BinOp)
    ensures
        encode_utf8(binop_text(a)) == spelling(binop_token(a)),
        binop_text(a) == binop_text(b) ==> a == b,
{
    lemma_binop_chars(a);
    lemma_binop_chars(b);
    lemma_spelling_ascii(binop_token(a));
    lemma_spelling_ascii(binop_token(b));
    lemma_ascii_chars_of(spelling(binop_token(a)));
    lemma_ascii_chars_of(spelling(binop_token(b)));
    lemma_spelling(binop_token(a));
    lemma_spelling(binop_token(b));
}

/// Binding strength; higher binds tighter.
pub open spec fn binop_precedence(op: BinOp) -> u8 {
    match op {
        BinOp::Or => 1,
        BinOp::And => 2,
        BinOp::Eq | BinOp::Neq => 3,
        BinOp::Lt | BinOp::Le | BinOp::Gt | BinOp::Ge => 4,
        BinOp::Add | BinOp::Sub => 5,
        BinOp::Mul | BinOp::Div | BinOp::Mod | BinOp::HighMul => 6,
    }
}

pub open spec fn binop_is_comparison(op: BinOp) -> bool {
    op is Eq || op is Neq || op is Lt || op is Gt || op is Le || op is Ge
}

pub open spec fn binop_is_short_circuit(op: BinOp) -> bool {
    op is And || op is Or
}

impl BinOp {
    pub fn as_str(self) -> (s: &'static str)
        ensures
            s@ == binop_text(self),
    {
        match self {
            BinOp::Add => "+",
            BinOp::Sub => "-",
            BinOp::Mul => "*",
            BinOp::HighMul => "*>>",
            BinOp::Div => "/",
            BinOp::Mod => "%",
            BinOp::Eq => "==",
            BinOp::Neq => "!=",
            BinOp::Lt => "<",
            BinOp::Gt => ">",
            BinOp::Le => "<=",
            BinOp::Ge => ">=",
            BinOp::And => "&",
            BinOp::Or => "|",
        }
    }

    /// Binding strength; higher binds tighter.
    pub fn precedence(self) -> (p: u8)
        ensures
            p == binop_precedence(self),
    {
        match self {
            BinOp::Or => 1,
            BinOp::And => 2,
            BinOp::Eq | BinOp::Neq => 3,
            BinOp::Lt | BinOp::Le | BinOp::Gt | BinOp::Ge => 4,
            BinOp::Add | BinOp::Sub => 5,
            BinOp::Mul | BinOp::Div | BinOp::Mod | BinOp::HighMul => 6,
        }
    }

    pub fn is_comparison(self) -> (b: bool)
        ensures
            b == binop_is_comparison(self),
    {
        match self {
            BinOp::Eq | BinOp::Neq | BinOp::Lt | BinOp::Gt | BinOp::Le | BinOp::Ge => true,
            _ => false,
        }
    }

    /// `&` and `|` short-circuit.
    pub fn is_short_circuit(self) -> (b: bool)
        ensures
            b == binop_is_short_circuit(self),
    {
        match self {
            BinOp::And | BinOp::Or => true,
            _ => false,
        }
    }
}

/// The operator classes are bands of precedence: the short-circuit operators
/// bind loosest, then the comparisons, then arithmetic; every precedence lies
/// between 1 and 6.
pub proof fn lemma_precedence_bands(op: BinOp)
    ensures
        1 <= binop_precedence(op) <= 6,
        binop_is_short_circuit(op) <==> binop_precedence(op) <= 2,
        binop_is_comparison(op) <==> (3 <= binop_precedence(op) <= 4),
        !binop_is_short_circuit(op) && !binop_is_comparison(op) <==> binop_precedence(op) >= 5,
{
}

} // verus!

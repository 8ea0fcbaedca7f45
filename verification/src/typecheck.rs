//! Types of Eta and the typing context: the type recorded for each node, and
//! the nested scopes of variables and methods.
use vstd::prelude::*;
use crate::ast::span_table::{NodeId, SpanTable};
use crate::ast::{Decl, Definition, DefinitionKind, GlobDecl, Interface, Method, MethodDecl, Program, Type, TypeKind, Value, ValueKind};
use crate::diag::{views, Diag, DiagCtx, DiagnosticView, ErrorGuaranteed, LabelColor, Level};
use crate::span::Span;
use crate::text::push_str;
use vstd::string::StringExecFns;

verus! {

#[derive(Clone, Copy, PartialEq, Eq, Structural, Debug)]
pub struct IntTy;

#[derive(Clone, Copy, PartialEq, Eq, Structural, Debug)]
pub struct BoolTy;

#[derive(Clone, Copy, PartialEq, Eq, Structural, Debug)]
pub struct ErrTy;

#[derive(Clone, Copy, PartialEq, Eq, Structural, Debug)]
pub struct VoidTy;

#[derive(Clone, Copy, PartialEq, Eq, Structural, Debug)]
pub struct UnitTy;

#[derive(Debug)]
pub struct ArrayTy {
    pub of: Box<VarTy>,
}

/// The type of a variable.
#[derive(Debug)]
pub enum VarTy {
    Int(IntTy),
    Bool(BoolTy),
    Array(ArrayTy),
    Error(ErrTy),
}

/// The type of a statement: it completes, or it never does (`return`).
#[derive(Clone, Copy, PartialEq, Eq, Structural, Debug)]
pub enum StmtTy {
    Unit(UnitTy),
    Void(VoidTy),
}

/// A method's parameter types and return types.
#[derive(Debug)]
pub struct FnTy {
    pub from: Vec<VarTy>,
    pub to: Vec<VarTy>,
}

/// The type of a constant initializer.
#[derive(Clone, Copy, PartialEq, Eq, Structural, Debug)]
pub enum ValueType {
    Int(IntTy),
    Bool(BoolTy),
}

/// Any type a node can be given.
#[derive(Debug)]
pub enum AnyTy {
    Var(VarTy),
    Stmt(StmtTy),
    Fn(FnTy),
    Value(ValueType),
}

/// The type a written type stands for; a type the parser recovered from is
/// the error type.
pub open spec fn var_ty_of(k: TypeKind) -> VarTy
    decreases k,
{
    match k {
        TypeKind::Array { of, .. } => VarTy::Array(ArrayTy { of: Box::new(var_ty_of(of.kind)) }),
        TypeKind::Int => VarTy::Int(IntTy),
        TypeKind::Bool => VarTy::Bool(BoolTy),
        TypeKind::Error => VarTy::Error(ErrTy),
    }
}

/// How many arrays a written type nests: `int[][]` has two.
pub open spec fn written_depth(k: TypeKind) -> nat
    decreases k,
{
    match k {
        TypeKind::Array { of, .. } => 1 + written_depth(of.kind),
        _ => 0,
    }
}

/// The written type inside all the arrays of `k`.
pub open spec fn written_element(k: TypeKind) -> TypeKind
    decreases k,
{
    match k {
        TypeKind::Array { of, .. } => written_element(of.kind),
        _ => k,
    }
}

/// How many arrays a type nests.
pub open spec fn ty_depth(t: VarTy) -> nat
    decreases t,
{
    match t {
        VarTy::Array(a) => 1 + ty_depth(*a.of),
        _ => 0,
    }
}

/// The type inside all the arrays of `t`.
pub open spec fn ty_element(t: VarTy) -> VarTy
    decreases t,
{
    match t {
        VarTy::Array(a) => ty_element(*a.of),
        _ => t,
    }
}

/// A written type stands for a type with exactly as many levels of array
/// around the type of its innermost element: `int[][]` is an array of arrays
/// of `int`, `bool[]` an array of `bool`, and a type the parser recovered
/// from stays the error type however deep it sits.
pub proof fn lemma_array_levels(k: TypeKind)
    ensures
        ty_depth(var_ty_of(k)) == written_depth(k),
        written_element(k) is Int <==> ty_element(var_ty_of(k)) is Int,
        written_element(k) is Bool <==> ty_element(var_ty_of(k)) is Bool,
        written_element(k) is Error <==> ty_element(var_ty_of(k)) is Error,
        !(ty_element(var_ty_of(k)) is Array),
    decreases k,
{
    match k {
        TypeKind::Array { of, .. } => {
            lemma_array_levels(of.kind);
        },
        _ => {},
    }
}

impl VarTy {
    pub fn from_kind(k: &TypeKind) -> (t: VarTy)
        ensures
            t == var_ty_of(*k),
        decreases k,
    {
        match k {
            TypeKind::Array { of, .. } => VarTy::Array(ArrayTy { of: Box::new(VarTy::from_kind(&of.kind)) }),
            TypeKind::Int => VarTy::Int(IntTy),
            TypeKind::Bool => VarTy::Bool(BoolTy),
            TypeKind::Error => VarTy::Error(ErrTy),
        }
    }
}

impl ValueType {
    pub open spec fn of_spec(k: ValueKind) -> ValueType {
        match k {
            ValueKind::Int(_) => ValueType::Int(IntTy),
            ValueKind::Bool(_) => ValueType::Bool(BoolTy),
        }
    }

    /// The type of a constant.
    pub fn of(k: &ValueKind) -> (t: ValueType)
        ensures
            t == ValueType::of_spec(*k),
    {
        match k {
            ValueKind::Int(_) => ValueType::Int(IntTy),
            ValueKind::Bool(_) => ValueType::Bool(BoolTy),
        }
    }
}

// ---- the type of each node ----

/// The latest type recorded for `id` in `s`.
pub open spec fn latest_type(s: Seq<(NodeId, AnyTy)>, id: NodeId) -> Option<AnyTy>
    decreases s.len(),
{
    if s.len() == 0 {
        None
    } else if s.last().0 == id {
        Some(s.last().1)
    } else {
        latest_type(s.drop_last(), id)
    }
}

/// The type given to each node.
pub struct Types {
    entries: Vec<(NodeId, AnyTy)>,
}

impl Types {
    pub closed spec fn type_of(self, id: NodeId) -> Option<AnyTy> {
        latest_type(self.entries@, id)
    }

    pub fn new() -> (t: Types)
        ensures
            forall|id: NodeId| #[trigger] t.type_of(id) is None,
    {
        Types { entries: Vec::new() }
    }

    /// Records `ty` for `node`, other nodes keeping theirs, and gives back the
    /// type as recorded.
    pub fn assign_type(&mut self, node: NodeId, ty: AnyTy) -> (r: &AnyTy)
        ensures
            *r == ty,
            final(self).type_of(node) == Some(ty),
            forall|other: NodeId| other != node ==> #[trigger] final(self).type_of(other) == old(self).type_of(other),
    {
        self.entries.push((node, ty));
        proof {
            assert(self.entries@.drop_last() =~= old(self).entries@);
        }
        let n = self.entries.len();
        &self.entries[n - 1].1
    }

    /// The type recorded for `node`; it must have one.
    pub fn lookup_type(&self, node: NodeId) -> (t: &AnyTy)
        requires
            self.type_of(node) is Some,
        ensures
            Some(*t) == self.type_of(node),
    {
        let mut i = self.entries.len();
        proof {
            assert(self.entries@.take(i as int) =~= self.entries@);
        }
        while i > 0
            invariant
                i <= self.entries@.len(),
                latest_type(self.entries@.take(i as int), node) == self.type_of(node),
            decreases i,
        {
            let ghost t = self.entries@.take(i as int);
            proof {
                assert(t.drop_last() =~= self.entries@.take(i - 1));
            }
            if self.entries[i - 1].0 == node {
                return &self.entries[i - 1].1;
            }
            i -= 1;
        }
        proof {
            assert(self.entries@.take(0) =~= Seq::<(NodeId, AnyTy)>::empty());
        }
        &self.entries[0].1
    }
}

// ---- scopes ----

#[derive(Debug)]
pub struct VarEntry {
    pub ty: VarTy,
    pub declared: NodeId,
}

#[derive(Debug)]
pub struct FnEntry {
    pub ty: FnTy,
    pub declared: NodeId,
}

#[derive(Debug)]
pub struct RetEntry {
    pub ty: Vec<VarTy>,
    pub declared: NodeId,
}

/// The latest entry named `name` in `s`.
pub open spec fn named<E>(s: Seq<(String, E)>, name: Seq<char>) -> Option<E>
    decreases s.len(),
{
    if s.len() == 0 {
        None
    } else if s.last().0@ == name {
        Some(s.last().1)
    } else {
        named(s.drop_last(), name)
    }
}

/// One level of nesting: its variables, its methods, and the return types
/// of the method it belongs to.
#[derive(Debug)]
pub struct Scope {
    vars: Vec<(String, VarEntry)>,
    fns: Vec<(String, FnEntry)>,
    ret: Option<RetEntry>,
}

impl Scope {
    pub closed spec fn var(self, name: Seq<char>) -> Option<VarEntry> {
        named(self.vars@, name)
    }

    pub closed spec fn func(self, name: Seq<char>) -> Option<FnEntry> {
        named(self.fns@, name)
    }

    pub closed spec fn ret(self) -> Option<RetEntry> {
        self.ret
    }

    pub closed spec fn is_empty(self) -> bool {
        &&& self.vars@.len() == 0
        &&& self.fns@.len() == 0
        &&& self.ret is None
    }

    pub fn new() -> (s: Scope)
        ensures
            s.is_empty(),
            forall|n: Seq<char>| #[trigger] s.var(n) is None && s.func(n) is None,
            s.ret() is None,
    {
        Scope { vars: Vec::new(), fns: Vec::new(), ret: None }
    }
}

/// Index of the latest entry named `name`, if any.
fn find_named<E>(v: &Vec<(String, E)>, name: &String) -> (r: Option<usize>)
    ensures
        r matches Some(i) ==> i < v@.len() && named(v@, name@) == Some(v@[i as int].1),
        r is None <==> named(v@, name@) is None,
{
    let mut i = v.len();
    proof {
        assert(v@.take(i as int) =~= v@);
    }
    while i > 0
        invariant
            i <= v@.len(),
            named(v@.take(i as int), name@) == named(v@, name@),
        decreases i,
    {
        proof {
            assert(v@.take(i as int).drop_last() =~= v@.take(i - 1));
        }
        if v[i - 1].0 == *name {
            return Some(i - 1);
        }
        i -= 1;
    }
    proof {
        assert(v@.take(0) =~= Seq::<(String, E)>::empty());
    }
    None
}

/// The innermost binding of a variable across nested scopes.
pub open spec fn scoped_var(ss: Seq<Scope>, name: Seq<char>) -> Option<VarEntry>
    decreases ss.len(),
{
    if ss.len() == 0 {
        None
    } else if ss.last().var(name) is Some {
        ss.last().var(name)
    } else {
        scoped_var(ss.drop_last(), name)
    }
}

/// The innermost binding of a method across nested scopes.
pub open spec fn scoped_fn(ss: Seq<Scope>, name: Seq<char>) -> Option<FnEntry>
    decreases ss.len(),
{
    if ss.len() == 0 {
        None
    } else if ss.last().func(name) is Some {
        ss.last().func(name)
    } else {
        scoped_fn(ss.drop_last(), name)
    }
}

/// The innermost return types across nested scopes.
pub open spec fn scoped_ret(ss: Seq<Scope>) -> Option<RetEntry>
    decreases ss.len(),
{
    if ss.len() == 0 {
        None
    } else if ss.last().ret() is Some {
        ss.last().ret()
    } else {
        scoped_ret(ss.drop_last())
    }
}

/// Nested scopes; the first is the global one and is never left.
#[derive(Debug)]
pub struct Scopes {
    scopes: Vec<Scope>,
}

impl View for Scopes {
    type V = Seq<Scope>;

    closed spec fn view(&self) -> Seq<Scope> {
        self.scopes@
    }
}

impl Scopes {
    /// Just the global scope, empty.
    pub fn new() -> (s: Scopes)
        ensures
            s@.len() == 1,
            s@[0].is_empty(),
    {
        let mut scopes = Vec::new();
        scopes.push(Scope::new());
        Scopes { scopes }
    }

    /// The innermost scope.
    pub fn current(&self) -> (s: &Scope)
        requires
            self@.len() > 0,
        ensures
            *s == self@.last(),
    {
        let n = self.scopes.len();
        &self.scopes[n - 1]
    }

    /// The innermost scope, to change in place.
    pub fn current_mut(&mut self) -> (s: &mut Scope)
        requires
            old(self)@.len() > 0,
        ensures
            *s == old(self)@.last(),
            final(self)@ == old(self)@.update(old(self)@.len() - 1, *final(s)),
    {
        let n = self.scopes.len();
        &mut self.scopes[n - 1]
    }

    /// Enters a new, empty scope.
    pub fn push(&mut self)
        ensures
            final(self)@.len() == old(self)@.len() + 1,
            final(self)@.drop_last() == old(self)@,
            final(self)@.last().is_empty(),
    {
        self.scopes.push(Scope::new());
        proof {
            assert(self@.drop_last() =~= old(self)@);
        }
    }

    /// Leaves the innermost scope; the global one cannot be left.
    pub fn pop(&mut self)
        requires
            old(self)@.len() > 1,
        ensures
            final(self)@ == old(self)@.drop_last(),
    {
        let _ = self.scopes.pop();
    }

    pub fn lookup_var(&self, bind: &String) -> (r: Option<&VarEntry>)
        ensures
            r matches Some(e) ==> scoped_var(self@, bind@) == Some(*e),
            r is None <==> scoped_var(self@, bind@) is None,
    {
        let mut i = self.scopes.len();
        proof {
            assert(self@.take(i as int) =~= self@);
        }
        while i > 0
            invariant
                i <= self@.len(),
                scoped_var(self@.take(i as int), bind@) == scoped_var(self@, bind@),
            decreases i,
        {
            proof {
                assert(self@.take(i as int).drop_last() =~= self@.take(i - 1));
            }
            match find_named(&self.scopes[i - 1].vars, bind) {
                Some(j) => {
                    return Some(&self.scopes[i - 1].vars[j].1);
                },
                None => {},
            }
            i -= 1;
        }
        proof {
            assert(self@.take(0) =~= Seq::<Scope>::empty());
        }
        None
    }

    pub fn lookup_fn(&self, bind: &String) -> (r: Option<&FnEntry>)
        ensures
            r matches Some(e) ==> scoped_fn(self@, bind@) == Some(*e),
            r is None <==> scoped_fn(self@, bind@) is None,
    {
        let mut i = self.scopes.len();
        proof {
            assert(self@.take(i as int) =~= self@);
        }
        while i > 0
            invariant
                i <= self@.len(),
                scoped_fn(self@.take(i as int), bind@) == scoped_fn(self@, bind@),
            decreases i,
        {
            proof {
                assert(self@.take(i as int).drop_last() =~= self@.take(i - 1));
            }
            match find_named(&self.scopes[i - 1].fns, bind) {
                Some(j) => {
                    return Some(&self.scopes[i - 1].fns[j].1);
                },
                None => {},
            }
            i -= 1;
        }
        proof {
            assert(self@.take(0) =~= Seq::<Scope>::empty());
        }
        None
    }

    pub fn lookup_ret(&self) -> (r: Option<&RetEntry>)
        ensures
            r matches Some(e) ==> scoped_ret(self@) == Some(*e),
            r is None <==> scoped_ret(self@) is None,
    {
        let mut i = self.scopes.len();
        proof {
            assert(self@.take(i as int) =~= self@);
        }
        while i > 0
            invariant
                i <= self@.len(),
                scoped_ret(self@.take(i as int)) == scoped_ret(self@),
            decreases i,
        {
            proof {
                assert(self@.take(i as int).drop_last() =~= self@.take(i - 1));
            }
            match &self.scopes[i - 1].ret {
                Some(e) => {
                    return Some(e);
                },
                None => {},
            }
            i -= 1;
        }
        proof {
            assert(self@.take(0) =~= Seq::<Scope>::empty());
        }
        None
    }

    /// Declares a variable in the innermost scope. A name already declared
    /// there is refused with the node that declared it, and nothing changes;
    /// otherwise the variable is bound there, shadowing outer ones.
    pub fn declare_var(&mut self, declaration: NodeId, binding: String, ty: VarTy) -> (r: Result<(), NodeId>)
        requires
            old(self)@.len() >= 1,
        ensures
            final(self)@.len() == old(self)@.len(),
            match old(self)@.last().var(binding@) {
                Some(e) => r == Err::<(), NodeId>(e.declared) && final(self)@ == old(self)@,
                None => {
                    &&& r is Ok
                    &&& final(self)@.drop_last() == old(self)@.drop_last()
                    &&& final(self)@.last().var(binding@) == Some(VarEntry { ty, declared: declaration })
                    &&& scoped_var(final(self)@, binding@) == Some(VarEntry { ty, declared: declaration })
                    &&& forall|n: Seq<char>| n != binding@ ==> #[trigger] final(self)@.last().var(n)
                        == old(self)@.last().var(n)
                    &&& forall|n: Seq<char>| #[trigger] final(self)@.last().func(n) == old(self)@.last().func(n)
                    &&& final(self)@.last().ret() == old(self)@.last().ret()
                },
            },
    {
        let last = self.scopes.len() - 1;
        match find_named(&self.scopes[last].vars, &binding) {
            Some(j) => Err(self.scopes[last].vars[j].1.declared),
            None => {
                let mut scope = self.scopes.remove(last);
                let ghost old_scope = scope;
                let ghost entry = VarEntry { ty, declared: declaration };
                let ghost key = binding@;
                scope.vars.push((binding, VarEntry { ty, declared: declaration }));
                proof {
                    assert(scope.vars@.drop_last() =~= old_scope.vars@);
                    assert forall|n: Seq<char>| n != key implies #[trigger] scope.var(n) == old_scope.var(n) by {}
                }
                self.scopes.push(scope);
                proof {
                    assert(self@.drop_last() =~= old(self)@.drop_last());
                    assert(self@.last() == scope);
                }
                Ok(())
            },
        }
    }

    /// Declares a method in the innermost scope, refusing a name already
    /// declared there.
    pub fn declare_fn(&mut self, declaration: NodeId, binding: String, ty: FnTy) -> (r: Result<(), NodeId>)
        requires
            old(self)@.len() >= 1,
        ensures
            final(self)@.len() == old(self)@.len(),
            match old(self)@.last().func(binding@) {
                Some(e) => r == Err::<(), NodeId>(e.declared) && final(self)@ == old(self)@,
                None => {
                    &&& r is Ok
                    &&& final(self)@.drop_last() == old(self)@.drop_last()
                    &&& final(self)@.last().func(binding@) == Some(FnEntry { ty, declared: declaration })
                    &&& scoped_fn(final(self)@, binding@) == Some(FnEntry { ty, declared: declaration })
                    &&& forall|n: Seq<char>| n != binding@ ==> #[trigger] final(self)@.last().func(n)
                        == old(self)@.last().func(n)
                    &&& forall|n: Seq<char>| #[trigger] final(self)@.last().var(n) == old(self)@.last().var(n)
                    &&& final(self)@.last().ret() == old(self)@.last().ret()
                },
            },
    {
        let last = self.scopes.len() - 1;
        match find_named(&self.scopes[last].fns, &binding) {
            Some(j) => Err(self.scopes[last].fns[j].1.declared),
            None => {
                let mut scope = self.scopes.remove(last);
                let ghost old_scope = scope;
                let ghost key = binding@;
                scope.fns.push((binding, FnEntry { ty, declared: declaration }));
                proof {
                    assert(scope.fns@.drop_last() =~= old_scope.fns@);
                    assert forall|n: Seq<char>| n != key implies #[trigger] scope.func(n) == old_scope.func(n) by {}
                }
                self.scopes.push(scope);
                proof {
                    assert(self@.drop_last() =~= old(self)@.drop_last());
                    assert(self@.last() == scope);
                }
                Ok(())
            },
        }
    }

    /// Records the return types of the method whose scope is innermost.
    pub fn declare_ret_type(&mut self, declaration: NodeId, ty: Vec<VarTy>)
        requires
            old(self)@.len() >= 1,
        ensures
            final(self)@.len() == old(self)@.len(),
            final(self)@.drop_last() == old(self)@.drop_last(),
            final(self)@.last().ret() == Some(RetEntry { ty, declared: declaration }),
            scoped_ret(final(self)@) == Some(RetEntry { ty, declared: declaration }),
            forall|n: Seq<char>| #[trigger] final(self)@.last().var(n) == old(self)@.last().var(n),
            forall|n: Seq<char>| #[trigger] final(self)@.last().func(n) == old(self)@.last().func(n),
    {
        let last = self.scopes.len() - 1;
        let mut scope = self.scopes.remove(last);
        scope.ret = Some(RetEntry { ty, declared: declaration });
        self.scopes.push(scope);
        proof {
            assert(self@.drop_last() =~= old(self)@.drop_last());
        }
    }
}

// ---- checking declarations ----

/// The typing context of one compilation: scopes and node types.
pub struct Env {
    pub scopes: Scopes,
    pub types: Types,
}

impl Env {
    pub fn new() -> (e: Env)
        ensures
            e.scopes@.len() == 1,
            e.scopes@[0].is_empty(),
            forall|id: NodeId| #[trigger] e.types.type_of(id) is None,
    {
        Env { scopes: Scopes::new(), types: Types::new() }
    }
}

fn copy_var_ty(t: &VarTy) -> (r: VarTy)
    ensures
        r == *t,
    decreases t,
{
    match t {
        VarTy::Int(_) => VarTy::Int(IntTy),
        VarTy::Bool(_) => VarTy::Bool(BoolTy),
        VarTy::Array(a) => VarTy::Array(ArrayTy { of: Box::new(copy_var_ty(&a.of)) }),
        VarTy::Error(_) => VarTy::Error(ErrTy),
    }
}

pub open spec fn param_types(params: Seq<Decl>) -> Seq<VarTy> {
    params.map_values(|d: Decl| var_ty_of(d.typ.kind))
}

pub open spec fn return_types(rets: Seq<Type>) -> Seq<VarTy> {
    rets.map_values(|t: Type| var_ty_of(t.kind))
}

/// `f` is the type of a method with these parameters and return types.
pub open spec fn is_fn_ty(f: FnTy, params: Seq<Decl>, rets: Seq<Type>) -> bool {
    f.from@ == param_types(params) && f.to@ == return_types(rets)
}

fn fn_ty(params: &Vec<Decl>, rets: &Vec<Type>) -> (f: FnTy)
    ensures
        is_fn_ty(f, params@, rets@),
{
    let mut from: Vec<VarTy> = Vec::new();
    let mut i: usize = 0;
    while i < params.len()
        invariant
            i <= params@.len(),
            from@ == param_types(params@.take(i as int)),
        decreases params@.len() - i,
    {
        from.push(VarTy::from_kind(&params[i].typ.kind));
        i += 1;
        proof {
            assert(from@ =~= param_types(params@.take(i as int)));
        }
    }
    let mut to: Vec<VarTy> = Vec::new();
    let mut j: usize = 0;
    while j < rets.len()
        invariant
            j <= rets@.len(),
            to@ == return_types(rets@.take(j as int)),
        decreases rets@.len() - j,
    {
        to.push(VarTy::from_kind(&rets[j].kind));
        j += 1;
        proof {
            assert(to@ =~= return_types(rets@.take(j as int)));
        }
    }
    proof {
        assert(params@.take(params@.len() as int) =~= params@);
        assert(rets@.take(rets@.len() as int) =~= rets@);
    }
    FnTy { from, to }
}

/// The diagnostic of a second declaration of a name: an error at the first
/// declaration, pointing there.
pub open spec fn already_declared_view(thing: Seq<char>, name: Seq<char>, at: Span) -> DiagnosticView {
    DiagnosticView {
        level: Level::Error,
        message: thing + " "@ + name + " already exists"@,
        loc: Some(at),
        labels: seq![(at, thing + " first defined here"@, LabelColor::Red)],
        code: None,
        note: None,
    }
}

fn already_declared(thing: &str, name: &String, first: NodeId, spans: &SpanTable, dcx: &mut DiagCtx) -> (g:
    ErrorGuaranteed)
    requires
        spans.knows(first),
        old(dcx).wf(),
    ensures
        final(dcx).wf(),
        final(dcx).is_pending() == old(dcx).is_pending(),
        final(dcx)@.len() == old(dcx)@.len() + 1,
        final(dcx)@.drop_last() == old(dcx)@,
        final(dcx)@.last()@ == already_declared_view(thing@, name@, spans.span_for(first)),
{
    let at = spans.get(first);
    let mut msg = String::from_str(thing);
    push_str(&mut msg, " ");
    push_str(&mut msg, name.as_str());
    push_str(&mut msg, " already exists");
    let mut label = String::from_str(thing);
    push_str(&mut label, " first defined here");
    let d = dcx.err(at, msg).with_primary_label(label);
    proof {
        d.lemma_view();
        assert(d@ =~= already_declared_view(thing@, name@, at));
    }
    let g = d.finish(dcx);
    proof {
        assert(dcx@.drop_last() =~= old(dcx)@);
    }
    g
}

/// What checking a declaration of `name` by node `node` does to the scopes
/// and the diagnostics: a name new to the innermost scope is bound there
/// and nothing is reported; a name already there is reported as declared
/// twice, at its first declaration, and the scopes stay as they were.
pub open spec fn declared_once(
    old_env: Env,
    new_env: Env,
    old_dcx: Seq<crate::diag::Diagnostic>,
    new_dcx: Seq<crate::diag::Diagnostic>,
    spans: SpanTable,
    thing: Seq<char>,
    name: Seq<char>,
    existing: Option<NodeId>,
    ok: bool,
) -> bool {
    match existing {
        Some(first) => {
            &&& !ok
            &&& new_env.scopes@ == old_env.scopes@
            &&& new_dcx.len() == old_dcx.len() + 1
            &&& new_dcx.drop_last() == old_dcx
            &&& new_dcx.last()@ == already_declared_view(thing, name, spans.span_for(first))
        },
        None => {
            &&& ok
            &&& new_dcx == old_dcx
            &&& new_env.scopes@.len() == old_env.scopes@.len()
            &&& new_env.scopes@.drop_last() == old_env.scopes@.drop_last()
        },
    }
}

/// Declaring a method named `name` leaves every variable, every other
/// method and the return types of the innermost scope as they were.
pub open spec fn fn_others_kept(old_env: Env, new_env: Env, name: Seq<char>) -> bool {
    &&& forall|n: Seq<char>| n != name ==> #[trigger] new_env.scopes@.last().func(n) == old_env.scopes@.last().func(n)
    &&& forall|n: Seq<char>| #[trigger] new_env.scopes@.last().var(n) == old_env.scopes@.last().var(n)
    &&& new_env.scopes@.last().ret() == old_env.scopes@.last().ret()
}

/// Declaring a variable named `name` leaves every method, every other
/// variable and the return types of the innermost scope as they were.
pub open spec fn var_others_kept(old_env: Env, new_env: Env, name: Seq<char>) -> bool {
    &&& forall|n: Seq<char>| n != name ==> #[trigger] new_env.scopes@.last().var(n) == old_env.scopes@.last().var(n)
    &&& forall|n: Seq<char>| #[trigger] new_env.scopes@.last().func(n) == old_env.scopes@.last().func(n)
    &&& new_env.scopes@.last().ret() == old_env.scopes@.last().ret()
}

pub open spec fn existing_fn(env: Env, name: Seq<char>) -> Option<NodeId> {
    match env.scopes@.last().func(name) {
        Some(e) => Some(e.declared),
        None => None,
    }
}

pub open spec fn existing_var(env: Env, name: Seq<char>) -> Option<NodeId> {
    match env.scopes@.last().var(name) {
        Some(e) => Some(e.declared),
        None => None,
    }
}

/// Checks a method declaration of an interface: records its type and
/// declares it in the innermost scope.
pub fn check_method_decl(m: &MethodDecl, env: &mut Env, spans: &SpanTable, dcx: &mut DiagCtx) -> (r: Result<(), ErrorGuaranteed>)
    requires
        old(env).scopes@.len() >= 1,
        old(dcx).wf(),
        existing_fn(*old(env), m.id.sym@) matches Some(first) ==> spans.knows(first),
    ensures
        final(dcx).wf(),
        final(dcx).is_pending() == old(dcx).is_pending(),
        final(env).types.type_of(m.node_id) matches Some(AnyTy::Fn(f)) && is_fn_ty(f, m.params@, m.ret_types@),
        forall|other: NodeId| other != m.node_id ==> #[trigger] final(env).types.type_of(other)
            == old(env).types.type_of(other),
        declared_once(*old(env), *final(env), old(dcx)@, final(dcx)@, *spans, "method"@, m.id.sym@,
            existing_fn(*old(env), m.id.sym@), r is Ok),
        r is Ok ==> (final(env).scopes@.last().func(m.id.sym@) matches Some(e) && e.declared == m.node_id
            && is_fn_ty(e.ty, m.params@, m.ret_types@)),
        fn_others_kept(*old(env), *final(env), m.id.sym@),
{
    check_fn(m.node_id, &m.id.sym, &m.params, &m.ret_types, env, spans, dcx)
}

/// Checks a method definition's signature: records its type and declares it
/// in the innermost scope.
pub fn check_method(m: &Method, env: &mut Env, spans: &SpanTable, dcx: &mut DiagCtx) -> (r: Result<(), ErrorGuaranteed>)
    requires
        old(env).scopes@.len() >= 1,
        old(dcx).wf(),
        existing_fn(*old(env), m.id.sym@) matches Some(first) ==> spans.knows(first),
    ensures
        final(dcx).wf(),
        final(dcx).is_pending() == old(dcx).is_pending(),
        final(env).types.type_of(m.node_id) matches Some(AnyTy::Fn(f)) && is_fn_ty(f, m.params@, m.ret_types@),
        forall|other: NodeId| other != m.node_id ==> #[trigger] final(env).types.type_of(other)
            == old(env).types.type_of(other),
        declared_once(*old(env), *final(env), old(dcx)@, final(dcx)@, *spans, "method"@, m.id.sym@,
            existing_fn(*old(env), m.id.sym@), r is Ok),
        r is Ok ==> (final(env).scopes@.last().func(m.id.sym@) matches Some(e) && e.declared == m.node_id
            && is_fn_ty(e.ty, m.params@, m.ret_types@)),
        fn_others_kept(*old(env), *final(env), m.id.sym@),
{
    check_fn(m.node_id, &m.id.sym, &m.params, &m.ret_types, env, spans, dcx)
}

fn check_fn(
    node: NodeId,
    sym: &String,
    params: &Vec<Decl>,
    rets: &Vec<Type>,
    env: &mut Env,
    spans: &SpanTable,
    dcx: &mut DiagCtx,
) -> (r: Result<(), ErrorGuaranteed>)
    requires
        old(env).scopes@.len() >= 1,
        old(dcx).wf(),
        existing_fn(*old(env), sym@) matches Some(first) ==> spans.knows(first),
    ensures
        final(dcx).wf(),
        final(dcx).is_pending() == old(dcx).is_pending(),
        final(env).types.type_of(node) matches Some(AnyTy::Fn(f)) && is_fn_ty(f, params@, rets@),
        forall|other: NodeId| other != node ==> #[trigger] final(env).types.type_of(other)
            == old(env).types.type_of(other),
        declared_once(*old(env), *final(env), old(dcx)@, final(dcx)@, *spans, "method"@, sym@,
            existing_fn(*old(env), sym@), r is Ok),
        r is Ok ==> (final(env).scopes@.last().func(sym@) matches Some(e) && e.declared == node
            && is_fn_ty(e.ty, params@, rets@)),
        fn_others_kept(*old(env), *final(env), sym@),
{
    let for_types = fn_ty(params, rets);
    env.types.assign_type(node, AnyTy::Fn(for_types));
    let for_scope = fn_ty(params, rets);
    let ghost scope_ty = for_scope;
    match env.scopes.declare_fn(node, sym.clone(), for_scope) {
        Ok(()) => {
            proof {
                assert(final(env).scopes@.last().func(sym@) == Some(FnEntry { ty: scope_ty, declared: node }));
            }
            Ok(())
        },
        Err(first) => Err(already_declared("method", sym, first, spans, dcx)),
    }
}

/// What checking a written type gives: its type, or a failure for a type
/// the parser already reported.
pub open spec fn type_result(k: TypeKind) -> Option<VarTy> {
    match k {
        TypeKind::Error => None,
        _ => Some(var_ty_of(k)),
    }
}

/// The nodes of a written type, outermost first.
pub open spec fn type_nodes(t: Type) -> Set<NodeId>
    decreases t,
{
    match t.kind {
        TypeKind::Array { of, .. } => type_nodes(*of).insert(t.node_id),
        _ => set![t.node_id],
    }
}

/// Checks a written type: every node of it that is not a recovered error
/// gets its type recorded, and an array of an erroneous type is an array of
/// the error type.
pub fn check_type(t: &Type, env: &mut Env) -> (r: Result<VarTy, ErrorGuaranteed>)
    ensures
        match type_result(t.kind) {
            Some(v) => r == Ok::<VarTy, ErrorGuaranteed>(v) && final(env).types.type_of(t.node_id) == Some(
                AnyTy::Var(v),
            ),
            None => r is Err,
        },
        forall|other: NodeId| !type_nodes(*t).contains(other) ==> #[trigger] final(env).types.type_of(other)
            == old(env).types.type_of(other),
        final(env).scopes == old(env).scopes,
    decreases t,
{
    let ty = match &t.kind {
        TypeKind::Array { of, .. } => {
            let inner = check_type(of, env);
            let recovered = match inner {
                Ok(v) => v,
                Err(_) => VarTy::Error(ErrTy),
            };
            VarTy::Array(ArrayTy { of: Box::new(recovered) })
        },
        TypeKind::Int => VarTy::Int(IntTy),
        TypeKind::Bool => VarTy::Bool(BoolTy),
        TypeKind::Error => {
            return Err(ErrorGuaranteed::already_reported());
        },
    };
    let kept = copy_var_ty(&ty);
    env.types.assign_type(t.node_id, AnyTy::Var(ty));
    Ok(kept)
}

/// Checks a global: its type is checked and recorded for the global, and
/// the global is declared in the innermost scope.
pub fn check_glob_decl(g: &GlobDecl, env: &mut Env, spans: &SpanTable, dcx: &mut DiagCtx) -> (r: Result<(), ErrorGuaranteed>)
    requires
        old(env).scopes@.len() >= 1,
        old(dcx).wf(),
        existing_var(*old(env), g.id.sym@) matches Some(first) ==> spans.knows(first),
        !type_nodes(g.typ).contains(g.node_id),
    ensures
        final(dcx).wf(),
        final(dcx).is_pending() == old(dcx).is_pending(),
        match type_result(g.typ.kind) {
            None => r is Err && final(dcx)@ == old(dcx)@ && final(env).scopes == old(env).scopes,
            Some(v) => {
                &&& final(env).types.type_of(g.node_id) == Some(AnyTy::Var(v))
                &&& final(env).types.type_of(g.typ.node_id) == Some(AnyTy::Var(v))
                &&& declared_once(*old(env), *final(env), old(dcx)@, final(dcx)@, *spans, "variable"@,
                    g.id.sym@, existing_var(*old(env), g.id.sym@), r is Ok)
                &&& r is Ok ==> final(env).scopes@.last().var(g.id.sym@) == Some(
                    VarEntry { ty: v, declared: g.node_id },
                )
            },
        },
        forall|other: NodeId| other != g.node_id && !type_nodes(g.typ).contains(other)
            ==> #[trigger] final(env).types.type_of(other) == old(env).types.type_of(other),
        final(env).scopes@.len() == old(env).scopes@.len(),
        final(env).scopes@.drop_last() == old(env).scopes@.drop_last(),
        var_others_kept(*old(env), *final(env), g.id.sym@),
        type_result(g.typ.kind) is None || existing_var(*old(env), g.id.sym@) is Some ==> final(env).scopes@
            == old(env).scopes@,
{
    let ty = match check_type(&g.typ, env) {
        Ok(t) => t,
        Err(e) => {
            return Err(e);
        },
    };
    let for_types = copy_var_ty(&ty);
    env.types.assign_type(g.node_id, AnyTy::Var(for_types));
    match env.scopes.declare_var(g.node_id, g.id.sym.clone(), ty) {
        Ok(()) => Ok(()),
        Err(first) => Err(already_declared("variable", &g.id.sym, first, spans, dcx)),
    }
}

/// Checks a constant initializer: its type is recorded.
pub fn check_value(v: &Value, env: &mut Env) -> (t: ValueType)
    ensures
        t == ValueType::of_spec(v.kind),
        final(env).types.type_of(v.node_id) == Some(AnyTy::Value(t)),
        forall|other: NodeId| other != v.node_id ==> #[trigger] final(env).types.type_of(other)
            == old(env).types.type_of(other),
        final(env).scopes == old(env).scopes,
{
    let t = ValueType::of(&v.kind);
    env.types.assign_type(v.node_id, AnyTy::Value(t));
    t
}

// ---- the global scope of a program ----

/// Index of the first method among `defs` named `n`.
pub open spec fn first_method(defs: Seq<Definition>, n: Seq<char>) -> Option<int>
    decreases defs.len(),
{
    if defs.len() == 0 {
        None
    } else {
        match first_method(defs.drop_last(), n) {
            Some(j) => Some(j),
            None => if defs.last().kind matches DefinitionKind::Method(m) && m.id.sym@ == n {
                Some(defs.len() - 1)
            } else {
                None
            },
        }
    }
}

/// Index of the first global among `defs` named `n` whose type checks.
pub open spec fn first_global(defs: Seq<Definition>, n: Seq<char>) -> Option<int>
    decreases defs.len(),
{
    if defs.len() == 0 {
        None
    } else {
        match first_global(defs.drop_last(), n) {
            Some(j) => Some(j),
            None => if defs.last().kind matches DefinitionKind::GlobDecl(g) && g.id.sym@ == n && type_result(
                g.typ.kind,
            ) is Some {
                Some(defs.len() - 1)
            } else {
                None
            },
        }
    }
}

/// After collecting `defs` into the innermost scope, which held `before`:
/// a name already bound keeps its binding, and otherwise the first method
/// (the first global whose type checks) of that name is bound.
pub open spec fn collected(before: Scope, after: Scope, defs: Seq<Definition>) -> bool {
    &&& forall|n: Seq<char>| before.func(n) is Some ==> #[trigger] after.func(n) == before.func(n)
    &&& forall|n: Seq<char>|
        before.func(n) is None ==> match first_method(defs, n) {
            None => #[trigger] after.func(n) is None,
            Some(j) => (after.func(n) matches Some(e) && defs[j].kind matches DefinitionKind::Method(m)
                && e.declared == m.node_id && is_fn_ty(e.ty, m.params@, m.ret_types@)),
        }
    &&& forall|n: Seq<char>| before.var(n) is Some ==> #[trigger] after.var(n) == before.var(n)
    &&& forall|n: Seq<char>|
        before.var(n) is None ==> match first_global(defs, n) {
            None => #[trigger] after.var(n) is None,
            Some(j) => (defs[j].kind matches DefinitionKind::GlobDecl(g) && after.var(n) == Some(
                VarEntry { ty: var_ty_of(g.typ.kind), declared: g.node_id },
            )),
        }
    &&& after.ret() == before.ret()
}

proof fn lemma_first_bounds(defs: Seq<Definition>, n: Seq<char>)
    ensures
        first_method(defs, n) matches Some(j) ==> 0 <= j < defs.len(),
        first_global(defs, n) matches Some(j) ==> 0 <= j < defs.len(),
    decreases defs.len(),
{
    if defs.len() > 0 {
        lemma_first_bounds(defs.drop_last(), n);
    }
}

proof fn lemma_collect_method(before: Scope, mid: Scope, after: Scope, upto: Seq<Definition>, d: Definition, m: Method)
    requires
        collected(before, mid, upto),
        d.kind == DefinitionKind::Method(m),
        mid.func(m.id.sym@) is Some ==> after == mid,
        mid.func(m.id.sym@) is None ==> (after.func(m.id.sym@) matches Some(e) && e.declared == m.node_id
            && is_fn_ty(e.ty, m.params@, m.ret_types@)),
        forall|n: Seq<char>| n != m.id.sym@ ==> #[trigger] after.func(n) == mid.func(n),
        forall|n: Seq<char>| #[trigger] after.var(n) == mid.var(n),
        after.ret() == mid.ret(),
    ensures
        collected(before, after, upto.push(d)),
{
    let next = upto.push(d);
    assert(next.drop_last() =~= upto);
    lemma_first_bounds(upto, m.id.sym@);
    assert forall|n: Seq<char>| before.func(n) is Some implies #[trigger] after.func(n) == before.func(n) by {
        if n == m.id.sym@ {
            assert(mid.func(n) is Some);
        }
    }
    assert forall|n: Seq<char>|
        before.func(n) is None implies match first_method(next, n) {
            None => #[trigger] after.func(n) is None,
            Some(j) => (after.func(n) matches Some(e) && next[j].kind matches DefinitionKind::Method(mm)
                && e.declared == mm.node_id && is_fn_ty(e.ty, mm.params@, mm.ret_types@)),
        } by {
        lemma_first_bounds(upto, n);
        match first_method(upto, n) {
            Some(j) => {
                assert(next[j] == upto[j]);
                if n == m.id.sym@ {
                    assert(mid.func(n) is Some);
                }
            },
            None => {},
        }
    }
    assert forall|n: Seq<char>|
        before.var(n) is None implies match first_global(next, n) {
            None => #[trigger] after.var(n) is None,
            Some(j) => (next[j].kind matches DefinitionKind::GlobDecl(g) && after.var(n) == Some(
                VarEntry { ty: var_ty_of(g.typ.kind), declared: g.node_id },
            )),
        } by {
        lemma_first_bounds(upto, n);
        match first_global(upto, n) {
            Some(j) => {
                assert(next[j] == upto[j]);
            },
            None => {},
        }
    }
}

proof fn lemma_collect_global(before: Scope, mid: Scope, after: Scope, upto: Seq<Definition>, d: Definition, g: GlobDecl)
    requires
        collected(before, mid, upto),
        d.kind == DefinitionKind::GlobDecl(g),
        type_result(g.typ.kind) is None || mid.var(g.id.sym@) is Some ==> after == mid,
        type_result(g.typ.kind) is Some && mid.var(g.id.sym@) is None ==> after.var(g.id.sym@) == Some(
            VarEntry { ty: var_ty_of(g.typ.kind), declared: g.node_id },
        ),
        forall|n: Seq<char>| n != g.id.sym@ ==> #[trigger] after.var(n) == mid.var(n),
        forall|n: Seq<char>| #[trigger] after.func(n) == mid.func(n),
        after.ret() == mid.ret(),
    ensures
        collected(before, after, upto.push(d)),
{
    let next = upto.push(d);
    assert(next.drop_last() =~= upto);
    assert forall|n: Seq<char>| before.var(n) is Some implies #[trigger] after.var(n) == before.var(n) by {
        if n == g.id.sym@ {
            assert(mid.var(n) is Some);
        }
    }
    assert forall|n: Seq<char>|
        before.func(n) is None implies match first_method(next, n) {
            None => #[trigger] after.func(n) is None,
            Some(j) => (after.func(n) matches Some(e) && next[j].kind matches DefinitionKind::Method(mm)
                && e.declared == mm.node_id && is_fn_ty(e.ty, mm.params@, mm.ret_types@)),
        } by {
        lemma_first_bounds(upto, n);
        match first_method(upto, n) {
            Some(j) => {
                assert(next[j] == upto[j]);
            },
            None => {},
        }
    }
    assert forall|n: Seq<char>|
        before.var(n) is None implies match first_global(next, n) {
            None => #[trigger] after.var(n) is None,
            Some(j) => (next[j].kind matches DefinitionKind::GlobDecl(gg) && after.var(n) == Some(
                VarEntry { ty: var_ty_of(gg.typ.kind), declared: gg.node_id },
            )),
        } by {
        lemma_first_bounds(upto, n);
        match first_global(upto, n) {
            Some(j) => {
                assert(next[j] == upto[j]);
                if n == g.id.sym@ {
                    assert(mid.var(n) is Some);
                }
            },
            None => {},
        }
    }
}

proof fn lemma_collect_error(before: Scope, mid: Scope, upto: Seq<Definition>, d: Definition)
    requires
        collected(before, mid, upto),
        d.kind == DefinitionKind::Error,
    ensures
        collected(before, mid, upto.push(d)),
{
    let next = upto.push(d);
    assert(next.drop_last() =~= upto);
    assert forall|n: Seq<char>|
        before.func(n) is None implies match first_method(next, n) {
            None => #[trigger] mid.func(n) is None,
            Some(j) => (mid.func(n) matches Some(e) && next[j].kind matches DefinitionKind::Method(mm)
                && e.declared == mm.node_id && is_fn_ty(e.ty, mm.params@, mm.ret_types@)),
        } by {
        lemma_first_bounds(upto, n);
        match first_method(upto, n) {
            Some(j) => {
                assert(next[j] == upto[j]);
            },
            None => {},
        }
    }
    assert forall|n: Seq<char>|
        before.var(n) is None implies match first_global(next, n) {
            None => #[trigger] mid.var(n) is None,
            Some(j) => (next[j].kind matches DefinitionKind::GlobDecl(gg) && mid.var(n) == Some(
                VarEntry { ty: var_ty_of(gg.typ.kind), declared: gg.node_id },
            )),
        } by {
        lemma_first_bounds(upto, n);
        match first_global(upto, n) {
            Some(j) => {
                assert(next[j] == upto[j]);
            },
            None => {},
        }
    }
}

/// During collection, the declaration a variable name is bound to is the
/// one the innermost scope holds.
proof fn lemma_bound_var(before: Scope, mid: Scope, upto: Seq<Definition>, n: Seq<char>)
    requires
        collected(before, mid, upto),
    ensures
        bound_var(before, upto, n) == match mid.var(n) {
            Some(e) => Some(e.declared),
            None => None::<NodeId>,
        },
{
    lemma_first_bounds(upto, n);
}

/// Every variable of the innermost scope, during collection, was declared by
/// a node the span table knows.
proof fn lemma_known_vars(before: Scope, mid: Scope, upto: Seq<Definition>, defs: Seq<Definition>, spans: SpanTable, n: Seq<char>)
    requires
        collected(before, mid, upto),
        upto.len() <= defs.len(),
        upto == defs.take(upto.len() as int),
        forall|x: Seq<char>| (#[trigger] before.var(x)) matches Some(e) ==> spans.knows(e.declared),
        forall|j: int|
            0 <= j < defs.len() ==> ((#[trigger] defs[j]).kind matches DefinitionKind::GlobDecl(g) ==> spans.knows(
                g.node_id,
            ) && !type_nodes(g.typ).contains(g.node_id)),
    ensures
        mid.var(n) matches Some(e) ==> spans.knows(e.declared),
{
    lemma_first_bounds(upto, n);
    if before.var(n) is None {
        match first_global(upto, n) {
            Some(j) => {
                assert(upto[j] == defs[j]);
            },
            None => {},
        }
    }
}

/// The declaration a variable name is bound to after collecting `upto`
/// into a scope that held `before`.
pub open spec fn bound_var(before: Scope, upto: Seq<Definition>, n: Seq<char>) -> Option<NodeId> {
    match before.var(n) {
        Some(e) => Some(e.declared),
        None => match first_global(upto, n) {
            Some(j) => match upto[j].kind {
                DefinitionKind::GlobDecl(g) => Some(g.node_id),
                _ => None,
            },
            None => None,
        },
    }
}

/// What collecting `defs` reports, in order: each global whose type checks
/// but whose name is already bound, at the declaration it is bound to.
pub open spec fn global_reports(before: Scope, defs: Seq<Definition>, spans: SpanTable) -> Seq<DiagnosticView>
    decreases defs.len(),
{
    if defs.len() == 0 {
        Seq::empty()
    } else {
        let prev = global_reports(before, defs.drop_last(), spans);
        match defs.last().kind {
            DefinitionKind::GlobDecl(g) => if type_result(g.typ.kind) is Some {
                match bound_var(before, defs.drop_last(), g.id.sym@) {
                    Some(first) => prev.push(already_declared_view("variable"@, g.id.sym@, spans.span_for(first))),
                    None => prev,
                }
            } else {
                prev
            },
            _ => prev,
        }
    }
}

/// Collects what an interface adds to the global scope. Interface items
/// declare nothing yet, so the environment is left as it was.
pub fn add_interface(env: &mut Env, interface: &Interface)
    ensures
        *final(env) == *old(env),
{
}

/// Collects the global scope of a program: every method is declared in the
/// innermost scope (a name already declared there is kept, and nothing is
/// reported), and every global is checked as by [`check_glob_decl`].
pub fn collect_global(prog: &Program, env: &mut Env, spans: &SpanTable, dcx: &mut DiagCtx)
    requires
        old(env).scopes@.len() >= 1,
        old(dcx).wf(),
        forall|n: Seq<char>| (#[trigger] old(env).scopes@.last().var(n)) matches Some(e) ==> spans.knows(e.declared),
        forall|i: int|
            0 <= i < prog.definitions@.len() ==> ((#[trigger] prog.definitions@[i]).kind matches DefinitionKind::GlobDecl(g)
                ==> spans.knows(g.node_id) && !type_nodes(g.typ).contains(g.node_id)),
    ensures
        final(dcx).wf(),
        final(dcx).is_pending() == old(dcx).is_pending(),
        views(final(dcx)@) == views(old(dcx)@) + global_reports(old(env).scopes@.last(), prog.definitions@, *spans),
        final(env).scopes@.len() == old(env).scopes@.len(),
        final(env).scopes@.drop_last() == old(env).scopes@.drop_last(),
        collected(old(env).scopes@.last(), final(env).scopes@.last(), prog.definitions@),
{
    let defs = &prog.definitions;
    let ghost before = env.scopes@.last();
    let mut i: usize = 0;
    proof {
        assert(defs@.take(0) =~= Seq::<Definition>::empty());
    }
    while i < defs.len()
        invariant
            i <= defs@.len(),
            env.scopes@.len() == old(env).scopes@.len(),
            env.scopes@.len() >= 1,
            env.scopes@.drop_last() == old(env).scopes@.drop_last(),
            before == old(env).scopes@.last(),
            dcx.wf(),
            dcx.is_pending() == old(dcx).is_pending(),
            views(dcx@) == views(old(dcx)@) + global_reports(before, defs@.take(i as int), *spans),
            collected(before, env.scopes@.last(), defs@.take(i as int)),
            forall|n: Seq<char>| (#[trigger] before.var(n)) matches Some(e) ==> spans.knows(e.declared),
            forall|j: int|
                0 <= j < defs@.len() ==> ((#[trigger] defs@[j]).kind matches DefinitionKind::GlobDecl(g)
                    ==> spans.knows(g.node_id) && !type_nodes(g.typ).contains(g.node_id)),
        decreases defs@.len() - i,
    {
        let ghost mid = env.scopes@.last();
        let ghost env0 = *env;
        let ghost dcx0 = dcx@;
        let ghost upto = defs@.take(i as int);
        let ghost next = defs@.take(i + 1);
        proof {
            assert(next =~= upto.push(defs@[i as int]));
            assert(next.drop_last() =~= upto);
            assert(next.last() == defs@[i as int]);
        }
        match &defs[i].kind {
            DefinitionKind::Method(m) => {
                let t = fn_ty(&m.params, &m.ret_types);
                let ghost tv = t;
                let _ = env.scopes.declare_fn(m.node_id, m.id.sym.clone(), t);
                proof {
                    assert(global_reports(before, next, *spans) == global_reports(before, upto, *spans));
                    if mid.func(m.id.sym@) is Some {
                        assert(env.scopes@ == env0.scopes@);
                    } else {
                        assert(env.scopes@.last().func(m.id.sym@) == Some(FnEntry { ty: tv, declared: m.node_id }));
                    }
                    lemma_collect_method(before, mid, env.scopes@.last(), upto, defs@[i as int], *m);
                }
            },
            DefinitionKind::GlobDecl(g) => {
                proof {
                    assert(upto == defs@.take(upto.len() as int));
                    lemma_known_vars(before, mid, upto, defs@, *spans, g.id.sym@);
                    assert(!type_nodes(g.typ).contains(g.node_id));
                }
                let _ = check_glob_decl(g, env, spans, dcx);
                proof {
                    if type_result(g.typ.kind) is None || mid.var(g.id.sym@) is Some {
                        assert(env.scopes@ == env0.scopes@);
                    }
                    lemma_collect_global(before, mid, env.scopes@.last(), upto, defs@[i as int], *g);
                    lemma_bound_var(before, mid, upto, g.id.sym@);
                    assert(global_reports(before, next, *spans) == match bound_var(before, upto, g.id.sym@) {
                        Some(first) => if type_result(g.typ.kind) is Some {
                            global_reports(before, upto, *spans).push(
                                already_declared_view("variable"@, g.id.sym@, spans.span_for(first)),
                            )
                        } else {
                            global_reports(before, upto, *spans)
                        },
                        None => global_reports(before, upto, *spans),
                    });
                    if type_result(g.typ.kind) is Some && mid.var(g.id.sym@) is Some {
                        assert(views(dcx@) =~= views(dcx0).push(dcx@.last()@));
                    } else {
                        assert(dcx@ == dcx0);
                    }
                }
            },
            DefinitionKind::Error => {
                proof {
                    assert(global_reports(before, next, *spans) == global_reports(before, upto, *spans));
                    lemma_collect_error(before, mid, upto, defs@[i as int]);
                }
            },
        }
        i += 1;
    }
    proof {
        assert(defs@.take(defs@.len() as int) =~= defs@);
    }
}

} // verus!

//! Node identity and the span side table. Allocating an id and recording its
//! span are one step, so no id exists without a span.
use vstd::prelude::*;
use crate::span::Span;

verus! {

/// Stable identifier of a syntax-tree node, handed out by [`SpanTable::allocate`].
#[derive(Clone, Copy, PartialEq, Eq, Structural, Debug, Hash, PartialOrd, Ord)]
pub struct NodeId(u32);

impl NodeId {
    pub closed spec fn index(self) -> u32 {
        self.0
    }

    /// The placeholder id of synthesized nodes; the table maps it to the
    /// placeholder span.
    pub closed spec fn spec_dummy() -> NodeId {
        NodeId(u32::MAX)
    }

    /// An id is determined by its index, and the placeholder has the largest.
    pub proof fn lemma_index(a: NodeId, b: NodeId)
        ensures
            NodeId::spec_dummy().index() == u32::MAX,
            a.index() == b.index() <==> a == b,
    {
    }

    pub fn dummy() -> (id: NodeId)
        ensures
            id == NodeId::spec_dummy(),
    {
        NodeId(u32::MAX)
    }

    pub fn as_u32(self) -> (n: u32)
        ensures
            n == self.index(),
    {
        self.0
    }
}

/// A syntax-tree node: something that owns a [`NodeId`].
pub trait AstNode {
    spec fn spec_node_id(&self) -> NodeId;

    fn node_id(&self) -> (id: NodeId)
        ensures
            id == self.spec_node_id(),
    ;
}

/// Side table from every [`NodeId`] to its [`Span`]; also the id allocator:
/// the id of the `i`-th recorded span is `i`.
#[derive(Debug)]
pub struct SpanTable {
    spans: Vec<Span>,
}

impl View for SpanTable {
    type V = Seq<Span>;

    closed spec fn view(&self) -> Seq<Span> {
        self.spans@
    }
}

impl SpanTable {
    /// `id` was handed out by this table, or is the placeholder.
    pub open spec fn knows(self, id: NodeId) -> bool {
        id == NodeId::spec_dummy() || id.index() < self@.len()
    }

    /// The span recorded for `id`; the placeholder id has the placeholder span.
    pub open spec fn span_for(self, id: NodeId) -> Span {
        if id == NodeId::spec_dummy() {
            Span::spec_dummy()
        } else {
            self@[id.index() as int]
        }
    }

    pub fn new() -> (t: SpanTable)
        ensures
            t@ == Seq::<Span>::empty(),
    {
        SpanTable { spans: Vec::new() }
    }

    /// A fresh id with `span` recorded for it. The new id was not known
    /// before, and every id known before keeps its span.
    pub fn allocate(&mut self, span: Span) -> (id: NodeId)
        requires
            old(self)@.len() < u32::MAX,
        ensures
            final(self)@ == old(self)@.push(span),
            id.index() == old(self)@.len(),
            !old(self).knows(id),
            final(self).knows(id),
            final(self).span_for(id) == span,
            forall|other: NodeId| #[trigger]
                old(self).knows(other) ==> final(self).knows(other) && final(self).span_for(other)
                    == old(self).span_for(other),
    {
        let idx = self.spans.len();
        let id = NodeId(idx as u32);
        self.spans.push(span);
        id
    }

    /// A fresh id sharing the span already recorded for `of`, for wrapper
    /// nodes that cover the same source text.
    pub fn dup(&mut self, of: NodeId) -> (id: NodeId)
        requires
            old(self).knows(of),
            old(self)@.len() < u32::MAX,
        ensures
            final(self)@ == old(self)@.push(old(self).span_for(of)),
            id.index() == old(self)@.len(),
            !old(self).knows(id),
            final(self).knows(id),
            final(self).span_for(id) == old(self).span_for(of),
            forall|other: NodeId| #[trigger]
                old(self).knows(other) ==> final(self).knows(other) && final(self).span_for(other)
                    == old(self).span_for(other),
    {
        let span = self.get(of);
        self.allocate(span)
    }

    /// The span recorded for `id`. An id from another table is a logic error.
    pub fn get(&self, id: NodeId) -> (s: Span)
        requires
            self.knows(id),
        ensures
            s == self.span_for(id),
    {
        if id.0 == u32::MAX {
            return Span::dummy();
        }
        self.spans[id.0 as usize]
    }

    /// The span of a node.
    pub fn span_of<N: AstNode>(&self, node: &N) -> (s: Span)
        requires
            self.knows(node.spec_node_id()),
        ensures
            s == self.span_for(node.spec_node_id()),
    {
        self.get(node.node_id())
    }
}

} // verus!

//! The contract every pass implements, and the declaration node a pass
//! fills in before the graph is compiled.
//!
//! A pass declares - once, at registration time - which arena slots it
//! reads, writes, consumes or produces, and any explicit ordering
//! constraints relative to other passes by name. The scheduler derives the
//! dependency edges from these declarations alone; at frame time the pass's
//! [`PassEncoder::encode`] step is invoked with the arena and a recording
//! context.

use crate::res::{RenderResMap, ResId};
use vstd::prelude::*;

verus! {

/// Mathematical view of a declaration node.
#[verifier::ext_equal]
pub struct NodeView {
    pub name: Seq<char>,
    pub reads: Seq<ResId>,
    pub writes: Seq<ResId>,
    pub moves: Seq<ResId>,
    pub results: Seq<ResId>,
    pub before: Seq<Seq<char>>,
    pub after: Seq<Seq<char>>,
}

/// One node of the dependency graph: a pass's name, the slots it touches by
/// access kind, and its explicit ordering constraints.
pub struct PassNode {
    /// Human-readable name; explicit constraints refer to passes by it.
    pub name: String,
    /// Slots read (shared).
    pub reads: Vec<ResId>,
    /// Slots written in place (exclusive).
    pub writes: Vec<ResId>,
    /// Slots consumed (one-time move).
    pub moves: Vec<ResId>,
    /// Slots produced (value set or replaced).
    pub results: Vec<ResId>,
    /// Names of passes this one must run before.
    pub before: Vec<String>,
    /// Names of passes this one must run after.
    pub after: Vec<String>,
}

impl View for PassNode {
    type V = NodeView;

    open spec fn view(&self) -> NodeView {
        NodeView {
            name: self.name@,
            reads: self.reads@,
            writes: self.writes@,
            moves: self.moves@,
            results: self.results@,
            before: self.before.deep_view(),
            after: self.after.deep_view(),
        }
    }
}

impl DeepView for PassNode {
    type V = NodeView;

    open spec fn deep_view(&self) -> NodeView {
        self.view()
    }
}

/// The view of a node that declares nothing yet: just a name.
pub open spec fn blank_node(name: Seq<char>) -> NodeView {
    NodeView {
        name,
        reads: Seq::<ResId>::empty(),
        writes: Seq::<ResId>::empty(),
        moves: Seq::<ResId>::empty(),
        results: Seq::<ResId>::empty(),
        before: Seq::<Seq<char>>::empty(),
        after: Seq::<Seq<char>>::empty(),
    }
}

impl PassNode {
    /// A node with no declared dependencies.
    pub fn new(name: String) -> (n: PassNode)
        ensures
            n@ == blank_node(name@),
    {
        PassNode {
            name,
            reads: Vec::new(),
            writes: Vec::new(),
            moves: Vec::new(),
            results: Vec::new(),
            before: Vec::new(),
            after: Vec::new(),
        }
    }

    /// Declares a shared read of slot `id`.
    pub fn with_read(self, id: ResId) -> (n: PassNode)
        ensures
            n@ == (NodeView { reads: self@.reads.push(id), ..self@ }),
    {
        let mut node = self;
        node.reads.push(id);
        node
    }

    /// Declares an exclusive write of slot `id`.
    pub fn with_write(self, id: ResId) -> (n: PassNode)
        ensures
            n@ == (NodeView { writes: self@.writes.push(id), ..self@ }),
    {
        let mut node = self;
        node.writes.push(id);
        node
    }

    /// Declares a one-time consume of slot `id`.
    pub fn with_move(self, id: ResId) -> (n: PassNode)
        ensures
            n@ == (NodeView { moves: self@.moves.push(id), ..self@ }),
    {
        let mut node = self;
        node.moves.push(id);
        node
    }

    /// Declares that this pass produces the value of slot `id`.
    pub fn with_result(self, id: ResId) -> (n: PassNode)
        ensures
            n@ == (NodeView { results: self@.results.push(id), ..self@ }),
    {
        let mut node = self;
        node.results.push(id);
        node
    }

    /// Declares that this pass runs in a strictly earlier batch than every
    /// pass named `name`.
    pub fn run_before(self, name: String) -> (n: PassNode)
        ensures
            n@ == (NodeView { before: self@.before.push(name@), ..self@ }),
    {
        let mut node = self;
        node.before.push(name);
        node
    }

    /// Declares that this pass runs in a strictly later batch than every
    /// pass named `name`.
    pub fn run_after(self, name: String) -> (n: PassNode)
        ensures
            n@ == (NodeView { after: self@.after.push(name@), ..self@ }),
    {
        let mut node = self;
        node.after.push(name);
        node
    }
}

/// The contract every pass implements.
///
/// `Value` is the resource representation the arena stores; `Ctx` carries
/// whatever the recording layer hands each pass (a command encoder, a
/// device handle). A pass written outside the verifier is trusted to honour
/// `encode`'s contract; any pass that touches the arena only through its
/// public operations does so automatically.
pub trait PassEncoder: Sized {
    /// The resource representation stored in the arena slots.
    type Value;

    /// The per-frame recording context.
    type Ctx;

    /// Performs the pass's work for one frame: acquire the accesses
    /// declared at registration, record into `ctx`, and release every
    /// access before returning. Must leave the arena well-formed.
    fn encode(&mut self, res: &mut RenderResMap<Self::Value>, ctx: &mut Self::Ctx)
        requires
            old(res).wf(),
        ensures
            final(res).wf(),
    ;

    /// What [`Self::node_builder`] declares: the node it hands back, as a
    /// function of the pass and the starting node alone. A pass that
    /// declares nothing leaves this default in place and returns its node
    /// unchanged.
    open spec fn node_spec(&self, node: NodeView) -> NodeView {
        node
    }

    /// Attaches this pass's declarations to its graph node. Invoked once,
    /// at registration time, never per frame.
    fn node_builder(&self, node: PassNode) -> (n: PassNode)
        ensures
            n@ == self.node_spec(node@),
    ;
}

/// A wrapper pass that runs `T` unchanged but adds "run before every pass
/// named so" to its declarations.
pub struct RunBefore<T: PassEncoder>(pub T, pub String);

/// A wrapper pass that runs `T` unchanged but adds "run after every pass
/// named so" to its declarations.
pub struct RunAfter<T: PassEncoder>(pub T, pub String);

impl<T: PassEncoder> PassEncoder for RunBefore<T> {
    type Value = T::Value;

    type Ctx = T::Ctx;

    fn encode(&mut self, res: &mut RenderResMap<T::Value>, ctx: &mut T::Ctx) {
        self.0.encode(res, ctx);
    }

    /// Exactly the wrapped pass's declarations, plus one "run before every
    /// pass named so" constraint.
    open spec fn node_spec(&self, node: NodeView) -> NodeView {
        let inner = self.0.node_spec(node);
        NodeView { before: inner.before.push(self.1@), ..inner }
    }

    fn node_builder(&self, node: PassNode) -> PassNode {
        self.0.node_builder(node).run_before(self.1.clone())
    }
}

impl<T: PassEncoder> PassEncoder for RunAfter<T> {
    type Value = T::Value;

    type Ctx = T::Ctx;

    fn encode(&mut self, res: &mut RenderResMap<T::Value>, ctx: &mut T::Ctx) {
        self.0.encode(res, ctx);
    }

    /// Exactly the wrapped pass's declarations, plus one "run after every
    /// pass named so" constraint.
    open spec fn node_spec(&self, node: NodeView) -> NodeView {
        let inner = self.0.node_spec(node);
        NodeView { after: inner.after.push(self.1@), ..inner }
    }

    fn node_builder(&self, node: PassNode) -> PassNode {
        self.0.node_builder(node).run_after(self.1.clone())
    }
}

/// Attaches explicit ordering to any pass without modifying it: wrap it,
/// forward both operations, augment only the declaration step.
pub trait PassScheduler: PassEncoder {
    /// This pass, constrained to run before every pass named `name`.
    fn run_before(self, name: String) -> RunBefore<Self>;

    /// This pass, constrained to run after every pass named `name`.
    fn run_after(self, name: String) -> RunAfter<Self>;
}

impl<T: PassEncoder> PassScheduler for T {
    fn run_before(self, name: String) -> RunBefore<Self> {
        RunBefore(self, name)
    }

    fn run_after(self, name: String) -> RunAfter<Self> {
        RunAfter(self, name)
    }
}

} // verus!

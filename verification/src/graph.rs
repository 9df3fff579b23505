//! The graph builder and the per-frame executor.
//!
//! A builder accumulates passes and their declared edges; `build` compiles
//! them once into a [`Schedule`] and pairs it with the resource arena. The
//! resulting [`RenderGraph`] is walked once per frame: the two frame-scoped
//! values go into the reserved slots, every batch runs in order, and the
//! frame values are extracted back out for presentation.

use crate::pass::{blank_node, PassEncoder, PassNode};
use crate::res::{alloc_wf, frame_prepared, lemma_frame_round_trip, RenderGraphAlloc, RenderResMap};
use crate::sched::{
    build_schedule, canonical_batches, has_cycle, valid_batches, GraphError, Schedule,
};
use vstd::prelude::*;

verus! {

/// A frame-contract violation, detected by the executor.
#[derive(Debug, Clone, Copy, PartialEq, Eq, Structural)]
pub enum FrameError {
    /// A frame was started while a reserved slot still had an outstanding
    /// access: a pass retained a guard past its encode call.
    ReservedBusy,
    /// A reserved slot was left empty or still accessed when the frame
    /// ended: a pass consumed a frame value without restoring it. The
    /// target image could not be handed back for presentation.
    ReservedMissing,
}

/// Accumulates passes and their declared resource edges before the graph
/// is compiled.
pub struct RenderGraphBuilder<P: PassEncoder> {
    passes: Vec<P>,
    nodes: Vec<PassNode>,
}

impl<P: PassEncoder> RenderGraphBuilder<P> {
    /// The declaration nodes registered so far, in registration order.
    pub closed spec fn nodes_spec(&self) -> Seq<crate::pass::NodeView> {
        self.nodes.deep_view()
    }

    /// The passes registered so far, in registration order.
    pub closed spec fn passes_spec(&self) -> Seq<P> {
        self.passes@
    }

    /// Registers a pass under `name`: invokes the pass's declaration step
    /// on a blank node carrying the name, and appends what it declared.
    pub fn with_pass(self, name: String, pass: P) -> (r: Self)
        ensures
            r.passes_spec() == self.passes_spec().push(pass),
            r.nodes_spec() == self.nodes_spec().push(pass.node_spec(blank_node(name@))),
    {
        let node = pass.node_builder(PassNode::new(name));
        let ghost declared = node@;
        let mut builder = self;
        let ghost nodes_before = builder.nodes.deep_view();
        builder.nodes.push(node);
        proof {
            assert(builder.nodes.deep_view() =~= nodes_before.push(declared));
        }
        builder.passes.push(pass);
        builder
    }

    /// Compiles the declared edges into a schedule over `alloc`'s slots.
    /// Fails exactly when the declarations are cyclic: an authoring error,
    /// surfaced at build time.
    pub fn build(self, alloc: RenderGraphAlloc<P::Value>) -> (r: Result<RenderGraph<P>, GraphError>)
        requires
            alloc_wf(alloc.slots()),
        ensures
            (r matches Ok(g) ==> {
                &&& valid_batches(self.nodes_spec(), g.schedule_spec())
                &&& canonical_batches(self.nodes_spec(), g.schedule_spec())
                &&& g.data_spec().slots() == alloc.slots()
                &&& g.data_spec().wf()
                &&& g.passes_spec() == self.passes_spec()
            }),
            r is Ok <==> !has_cycle(self.nodes_spec()),
    {
        match build_schedule(&self.nodes) {
            Ok(schedule) => Ok(
                RenderGraph {
                    data: RenderResMap::not_ready(alloc),
                    schedule,
                    passes: self.passes,
                },
            ),
            Err(e) => Err(e),
        }
    }
}

impl<P: PassEncoder> Default for RenderGraphBuilder<P> {
    /// A builder with no passes.
    fn default() -> (r: Self)
        ensures
            r.nodes_spec() == Seq::<crate::pass::NodeView>::empty(),
            r.passes_spec() == Seq::<P>::empty(),
    {
        let r = RenderGraphBuilder { passes: Vec::new(), nodes: Vec::new() };
        proof {
            assert(r.nodes_spec() =~= Seq::<crate::pass::NodeView>::empty());
        }
        r
    }
}

/// A compiled, reusable render graph: the resource arena, the schedule,
/// and the passes it runs. One `build` produces a schedule that is walked
/// every frame without re-deriving batches.
pub struct RenderGraph<P: PassEncoder> {
    data: RenderResMap<P::Value>,
    schedule: Schedule,
    passes: Vec<P>,
}

impl<P: PassEncoder> RenderGraph<P> {
    /// The arena.
    pub closed spec fn data_spec(&self) -> RenderResMap<P::Value> {
        self.data
    }

    /// The compiled batches.
    pub closed spec fn schedule_spec(&self) -> Seq<Seq<usize>> {
        self.schedule@
    }

    /// The registered passes.
    pub closed spec fn passes_spec(&self) -> Seq<P> {
        self.passes@
    }

    /// An empty builder.
    pub fn builder() -> (r: RenderGraphBuilder<P>)
        ensures
            r.nodes_spec() == Seq::<crate::pass::NodeView>::empty(),
            r.passes_spec() == Seq::<P>::empty(),
    {
        RenderGraphBuilder::default()
    }

    /// The arena, for feeding data into the graph between frames. Manual
    /// accesses outside a frame's executing window must leave every slot
    /// idle again, or the next frame is refused.
    pub fn data(&mut self) -> (d: &mut RenderResMap<P::Value>)
        ensures
            *d == old(self).data_spec(),
            final(self).data_spec() == *final(d),
            final(self).schedule_spec() == old(self).schedule_spec(),
            final(self).passes_spec() == old(self).passes_spec(),
    {
        &mut self.data
    }

    /// The compiled schedule.
    pub fn schedule(&self) -> (s: &Schedule)
        ensures
            s@ == self.schedule_spec(),
    {
        &self.schedule
    }

    /// Executes one frame: installs the two frame-scoped values into the
    /// reserved slots, walks every batch in order, and extracts the frame
    /// values back out for submission and presentation.
    ///
    /// Refuses to start while a reserved slot is still being accessed, and
    /// reports a frame whose reserved slots were not restored; both are
    /// contract violations by some pass, not run-time conditions.
    pub fn run(&mut self, ctx: &mut P::Ctx, frame_view: P::Value, frame_surface_texture: P::Value)
        -> (r: Result<(P::Value, P::Value), FrameError>)
        requires
            old(self).data_spec().wf(),
        ensures
            final(self).data_spec().wf(),
            final(self).schedule_spec() == old(self).schedule_spec(),
            // the pre-walk refusal comes exactly when a reserved slot is
            // still being accessed, and then nothing has happened
            r == Err::<(P::Value, P::Value), FrameError>(FrameError::ReservedBusy) <==> !(({
                &&& old(self).data_spec().state_at(0) is Idle
                &&& old(self).data_spec().state_at(1) is Idle
            })),
            r == Err::<(P::Value, P::Value), FrameError>(FrameError::ReservedBusy) ==> *final(self)
                == *old(self) && *final(ctx) == *old(ctx),
            // where no pass runs at all, the frame values round-trip
            // exactly
            (old(self).data_spec().state_at(0) is Idle && old(self).data_spec().state_at(1) is Idle
                && old(self).schedule_spec().len() == 0) ==> r == Ok::<
                (P::Value, P::Value),
                FrameError,
            >((frame_view, frame_surface_texture)),
            (r matches Ok(p)) ==> ({
                &&& final(self).data_spec().value_at(0) is None
                &&& final(self).data_spec().value_at(1) is None
                &&& final(self).data_spec().state_at(0) is Idle
                &&& final(self).data_spec().state_at(1) is Idle
            }),
            // the post-walk failure reports exactly an arena whose
            // reserved slots cannot be drained
            r == Err::<(P::Value, P::Value), FrameError>(FrameError::ReservedMissing) ==> !(({
                &&& final(self).data_spec().value_at(0) is Some
                &&& final(self).data_spec().value_at(1) is Some
                &&& final(self).data_spec().state_at(0) is Idle
                &&& final(self).data_spec().state_at(1) is Idle
            })),
    {
        if !self.data.reserved_idle() {
            return Err(FrameError::ReservedBusy);
        }
        self.data.prepare(frame_view, frame_surface_texture);
        let batch_count = self.schedule.batch_count();
        let mut k: usize = 0;
        while k < batch_count
            invariant
                self.data_spec().wf(),
                self.schedule_spec() == old(self).schedule_spec(),
                batch_count == self.schedule_spec().len(),
                k <= batch_count,
                batch_count == 0 ==> self.data_spec().slots() == frame_prepared(
                    old(self).data_spec().slots(),
                    frame_view,
                    frame_surface_texture,
                ),
            decreases batch_count - k,
        {
            let batch_len = self.schedule.batch(k).len();
            let mut i: usize = 0;
            while i < batch_len
                invariant
                    self.data_spec().wf(),
                    self.schedule_spec() == old(self).schedule_spec(),
                    batch_count == self.schedule_spec().len(),
                    k < batch_count,
                    batch_len == self.schedule_spec()[k as int].len(),
                    i <= batch_len,
                decreases batch_len - i,
            {
                let idx = self.schedule.batch(k)[i];
                // by construction every schedule index names a registered
                // pass; the guard only keeps the walk total
                if idx < self.passes.len() {
                    self.passes[idx].encode(&mut self.data, ctx);
                }
                i = i + 1;
            }
            k = k + 1;
        }
        proof {
            if batch_count == 0 {
                lemma_frame_round_trip(
                    old(self).data_spec().slots(),
                    frame_view,
                    frame_surface_texture,
                );
            }
        }
        match self.data.try_finish() {
            Some(pair) => Ok(pair),
            None => Err(FrameError::ReservedMissing),
        }
    }
}

} // verus!

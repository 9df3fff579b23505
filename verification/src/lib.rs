//! A frame-oriented render graph.
//!
//! Independently authored rendering steps ("passes") declare, ahead of
//! execution, which shared resources they read, write, or consume. The
//! declarations are compiled once into an ordered sequence of batches that
//! respects every dependency, and the compiled schedule is walked once per
//! frame.
//!
//! The crate is organised around four pieces:
//!
//! - [`res`]: the resource arena. A fixed, pre-registered set of slots, each
//!   holding an optional value and a runtime access-state tag that enforces a
//!   single-writer / multi-reader discipline.
//! - [`pass`]: the contract every pass implements, plus the declaration node
//!   a pass fills in before the graph is compiled.
//! - [`sched`]: the scheduler. Compiles declared edges into the canonical
//!   topological batching, or reports a cycle.
//! - [`graph`]: the builder and the per-frame executor.
//!
//! [`control`] holds the generic event plumbing around it all: controllers,
//! ports, and the platform loop that decides when a frame happens.

pub mod control;
pub mod graph;
pub mod pass;
pub mod res;
pub mod sched;

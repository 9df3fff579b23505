//! Generic event plumbing: a controller consumes events, a port inspects
//! them on their way to an inner controller, and an adapter wires port
//! stages in front of an inner value.

use vstd::prelude::*;

verus! {

/// A unit of the application that consumes events of one kind.
pub trait Controller<Event> {
    /// Handles one event.
    fn run(&mut self, input: Event);
}

/// A stage that sees each event before the inner value does, and may act
/// on both.
pub trait Port<Event, Inner> {
    /// Handles one event on its way in.
    fn port(&mut self, event: &mut Event, inner: &mut Inner);
}

/// Wires a port stage in front of an inner value: events run through the
/// stage, which drives the inner value as it sees fit.
pub struct Adapter<P, I> {
    /// The stage every event passes through.
    pub ports: P,
    /// What the stage drives.
    pub inner: I,
}

impl<P, I, E> Controller<E> for Adapter<P, I> where P: Port<E, I> {
    fn run(&mut self, input: E) {
        let mut event = input;
        self.ports.port(&mut event, &mut self.inner);
    }
}

impl<Event> Controller<Event> for () {
    fn run(&mut self, _input: Event) {
    }
}

/// An event loop that drives a controller: the platform decides when
/// events happen and hands each one - carrying a handle back to the
/// platform - to the controller.
pub trait Platform {
    /// The platform's face inside an event: what a controller may ask of
    /// it (at least, to stop).
    type PlatformHandle<'a>: PlatformHandle;

    /// The events this platform produces; each carries a
    /// [`Self::PlatformHandle`] reaching back into the loop.
    type Output<'a>;

    /// Runs the loop to completion, feeding every event to `controller`.
    fn run<T: for<'a> Controller<Self::Output<'a>>>(&mut self, controller: &mut T);
}

/// What every platform lets a controller do from inside an event.
pub trait PlatformHandle {
    /// Asks the event loop to stop.
    fn exit(&self);
}

} // verus!

//! The resource arena: type-tagged slot storage with a per-slot runtime
//! access guard.
//!
//! An arena is a dense sequence of slots, indexed by [`ResId`]. Each slot
//! holds an optional value, a type tag fixed at registration time, and an
//! access state. The first two slots are reserved for the per-frame target
//! image view and the per-frame presentable image; they are filled by
//! [`RenderResMap::prepare`] before a frame's batches are walked and drained
//! by [`RenderResMap::finish`] afterwards.
//!
//! Handles are capability descriptors: a [`ResHandle`] names a slot and the
//! tag expected there, and derives the four access-specific sub-handles
//! ([`ReadRes`], [`WriteRes`], [`MoveRes`], [`ResultRes`]). Handles can only
//! be obtained from the arena that owns the slot, so a handle's tag always
//! agrees with its slot's tag in any map built from that arena.

use vstd::prelude::*;

verus! {

/// Tag carried by the reserved slot holding the per-frame target image view.
pub const FRAME_VIEW_TAG: u64 = 0;

/// Tag carried by the reserved slot holding the per-frame presentable image.
pub const FRAME_TARGET_TAG: u64 = 1;

/// Stable index of an arena slot, assigned at registration time and never
/// reused within one arena's lifetime.
#[derive(Debug, Clone, Copy, PartialEq, Eq, Structural)]
pub struct ResId {
    pub index: usize,
}

/// The four ways a pass may touch a slot.
#[derive(Debug, Clone, Copy, PartialEq, Eq, Structural)]
pub enum AccessKind {
    /// Shared, non-exclusive access; many may be outstanding at once.
    Read,
    /// Exclusive, in-place mutation access; at most one outstanding.
    Write,
    /// One-time consuming access: takes the value and leaves the slot empty.
    Move,
    /// Exclusive producer-side access used to set or replace the value.
    Result,
}

/// What an access sub-handle asks of the arena: which slot, under which type
/// tag, with which kind of access.
#[derive(Debug, Clone, Copy, PartialEq, Eq, Structural)]
pub struct AccessTarget {
    pub index: usize,
    pub tag: u64,
    pub kind: AccessKind,
}

/// Run-time access state of one slot: the single-writer / multi-reader
/// discipline that a compile-time borrow checker cannot enforce here, because
/// the graph - and with it the access pattern - is assembled dynamically.
#[derive(Debug, Clone, Copy, PartialEq, Eq, Structural)]
pub enum AccessState {
    /// No access outstanding.
    Idle,
    /// This many shared reads outstanding.
    SharedRead(u64),
    /// One exclusive write or producer access outstanding.
    ExclusiveWrite,
}

/// One arena cell: an optional value (absent means uninitialized or already
/// consumed), the type tag fixed when the slot was registered, and the
/// current access state.
pub struct ResSlot<V> {
    pub value: Option<V>,
    pub tag: u64,
    pub state: AccessState,
}

/// A typed capability reference to a slot: the slot's id plus the type tag
/// the holder expects there. Never itself an owner of the data.
#[derive(Debug, Clone, Copy)]
pub struct ResHandle {
    id: ResId,
    tag: u64,
}

/// Sub-handle for shared read access.
#[derive(Debug, Clone, Copy)]
pub struct ReadRes {
    id: ResId,
    tag: u64,
}

/// Sub-handle for exclusive in-place mutation.
#[derive(Debug, Clone, Copy)]
pub struct WriteRes {
    id: ResId,
    tag: u64,
}

/// Sub-handle for one-time consuming access.
#[derive(Debug, Clone, Copy)]
pub struct MoveRes {
    id: ResId,
    tag: u64,
}

/// Sub-handle for producer-side access.
#[derive(Debug, Clone, Copy)]
pub struct ResultRes {
    id: ResId,
    tag: u64,
}

/// Anything that can be resolved against an arena: the four access
/// sub-handles. Each names its slot, its expected tag, and its access kind.
pub trait ResAccessor: Sized {
    /// The request this accessor stands for.
    spec fn target_spec(&self) -> AccessTarget;

    /// Executable form of [`Self::target_spec`].
    fn target(&self) -> (t: AccessTarget)
        ensures
            t == self.target_spec(),
    ;
}

impl ResHandle {
    /// The slot this handle names.
    pub closed spec fn id_spec(&self) -> ResId {
        self.id
    }

    /// The type tag this handle expects at its slot.
    pub closed spec fn tag_spec(&self) -> u64 {
        self.tag
    }

    /// The slot this handle names.
    pub fn id(&self) -> (r: ResId)
        ensures
            r == self.id_spec(),
    {
        self.id
    }

    /// Derives the shared-read sub-handle.
    pub fn read(&self) -> (r: ReadRes)
        ensures
            r.target_spec() == (AccessTarget {
                index: self.id_spec().index,
                tag: self.tag_spec(),
                kind: AccessKind::Read,
            }),
    {
        ReadRes { id: self.id, tag: self.tag }
    }

    /// Derives the exclusive-write sub-handle.
    pub fn write(&self) -> (r: WriteRes)
        ensures
            r.target_spec() == (AccessTarget {
                index: self.id_spec().index,
                tag: self.tag_spec(),
                kind: AccessKind::Write,
            }),
    {
        WriteRes { id: self.id, tag: self.tag }
    }

    /// Derives the consuming sub-handle.
    pub fn move_(&self) -> (r: MoveRes)
        ensures
            r.target_spec() == (AccessTarget {
                index: self.id_spec().index,
                tag: self.tag_spec(),
                kind: AccessKind::Move,
            }),
    {
        MoveRes { id: self.id, tag: self.tag }
    }

    /// Derives the producer sub-handle.
    pub fn result(&self) -> (r: ResultRes)
        ensures
            r.target_spec() == (AccessTarget {
                index: self.id_spec().index,
                tag: self.tag_spec(),
                kind: AccessKind::Result,
            }),
    {
        ResultRes { id: self.id, tag: self.tag }
    }
}

impl ResAccessor for ReadRes {
    closed spec fn target_spec(&self) -> AccessTarget {
        AccessTarget { index: self.id.index, tag: self.tag, kind: AccessKind::Read }
    }

    fn target(&self) -> (t: AccessTarget) {
        AccessTarget { index: self.id.index, tag: self.tag, kind: AccessKind::Read }
    }
}

impl ResAccessor for WriteRes {
    closed spec fn target_spec(&self) -> AccessTarget {
        AccessTarget { index: self.id.index, tag: self.tag, kind: AccessKind::Write }
    }

    fn target(&self) -> (t: AccessTarget) {
        AccessTarget { index: self.id.index, tag: self.tag, kind: AccessKind::Write }
    }
}

impl ResAccessor for MoveRes {
    closed spec fn target_spec(&self) -> AccessTarget {
        AccessTarget { index: self.id.index, tag: self.tag, kind: AccessKind::Move }
    }

    fn target(&self) -> (t: AccessTarget) {
        AccessTarget { index: self.id.index, tag: self.tag, kind: AccessKind::Move }
    }
}

impl ResAccessor for ResultRes {
    closed spec fn target_spec(&self) -> AccessTarget {
        AccessTarget { index: self.id.index, tag: self.tag, kind: AccessKind::Result }
    }

    fn target(&self) -> (t: AccessTarget) {
        AccessTarget { index: self.id.index, tag: self.tag, kind: AccessKind::Result }
    }
}

/// What every arena produced by [`RenderGraphAlloc::default`] and grown by
/// [`RenderGraphAlloc::push`] looks like: the two reserved frame slots exist
/// and carry their fixed tags, and nothing is being accessed yet.
pub open spec fn alloc_wf<V>(s: Seq<ResSlot<V>>) -> bool {
    &&& s.len() >= 2
    &&& s[0].tag == FRAME_VIEW_TAG
    &&& s[1].tag == FRAME_TARGET_TAG
    &&& forall|i: int| 0 <= i < s.len() ==> #[trigger] s[i].state is Idle
}

/// The slot allocator used while the graph is assembled: registration is
/// append-only, and the two reserved frame slots exist from the start.
pub struct RenderGraphAlloc<V> {
    elems: Vec<ResSlot<V>>,
}

impl<V> RenderGraphAlloc<V> {
    /// The slots registered so far.
    pub closed spec fn slots(&self) -> Seq<ResSlot<V>> {
        self.elems@
    }

    /// Handle to the reserved slot that holds the per-frame target image
    /// view while a frame is executing.
    pub fn frame_view(&self) -> (h: ResHandle)
        ensures
            h.id_spec() == (ResId { index: 0 }),
            h.tag_spec() == FRAME_VIEW_TAG,
    {
        ResHandle { id: ResId { index: 0 }, tag: FRAME_VIEW_TAG }
    }

    /// Handle to the reserved slot that holds the per-frame presentable
    /// image while a frame is executing.
    pub fn frame_surface_texture(&self) -> (h: ResHandle)
        ensures
            h.id_spec() == (ResId { index: 1 }),
            h.tag_spec() == FRAME_TARGET_TAG,
    {
        ResHandle { id: ResId { index: 1 }, tag: FRAME_TARGET_TAG }
    }

    /// Registers a new slot, optionally pre-populated, carrying `tag` as the
    /// runtime stand-in for the value type stored there. Returns a handle
    /// usable for the arena's whole lifetime.
    ///
    /// Must be called only during graph construction: slot ids are
    /// append-only and positions are baked into the compiled schedule.
    pub fn push(&mut self, value: Option<V>, tag: u64) -> (h: ResHandle)
        ensures
            final(self).slots() == old(self).slots().push(
                ResSlot { value, tag, state: AccessState::Idle },
            ),
            h.id_spec().index == old(self).slots().len(),
            h.tag_spec() == tag,
            alloc_wf(old(self).slots()) ==> alloc_wf(final(self).slots()),
    {
        let index = self.elems.len();
        self.elems.push(ResSlot { value, tag, state: AccessState::Idle });
        ResHandle { id: ResId { index }, tag }
    }
}

impl<V> Default for RenderGraphAlloc<V> {
    /// An arena holding only the two reserved frame slots, both empty.
    fn default() -> (r: Self)
        ensures
            r.slots().len() == 2,
            r.slots()[0] == (ResSlot::<V> {
                value: None,
                tag: FRAME_VIEW_TAG,
                state: AccessState::Idle,
            }),
            r.slots()[1] == (ResSlot::<V> {
                value: None,
                tag: FRAME_TARGET_TAG,
                state: AccessState::Idle,
            }),
            alloc_wf(r.slots()),
    {
        let mut elems: Vec<ResSlot<V>> = Vec::new();
        elems.push(ResSlot { value: None, tag: FRAME_VIEW_TAG, state: AccessState::Idle });
        elems.push(ResSlot { value: None, tag: FRAME_TARGET_TAG, state: AccessState::Idle });
        RenderGraphAlloc { elems }
    }
}

/// The access state after one more shared read is granted.
pub open spec fn inc_read(st: AccessState) -> AccessState {
    match st {
        AccessState::Idle => AccessState::SharedRead(1),
        AccessState::SharedRead(n) => AccessState::SharedRead((n + 1) as u64),
        AccessState::ExclusiveWrite => st,
    }
}

/// The access state after one shared read is released.
pub open spec fn dec_read(st: AccessState) -> AccessState {
    match st {
        AccessState::SharedRead(n) => if n <= 1 {
            AccessState::Idle
        } else {
            AccessState::SharedRead((n - 1) as u64)
        },
        _ => st,
    }
}

/// `s` with slot `i`'s state replaced by `st`, everything else unchanged.
pub open spec fn state_updated<V>(s: Seq<ResSlot<V>>, i: int, st: AccessState) -> Seq<ResSlot<V>> {
    s.update(i, ResSlot { value: s[i].value, tag: s[i].tag, state: st })
}

/// `s` with slot `i`'s value replaced by `v`, everything else unchanged.
pub open spec fn value_updated<V>(s: Seq<ResSlot<V>>, i: int, v: Option<V>) -> Seq<ResSlot<V>> {
    s.update(i, ResSlot { value: v, tag: s[i].tag, state: s[i].state })
}

/// The slots after frame preparation: the two frame values installed in the
/// reserved slots, everything else untouched.
pub open spec fn frame_prepared<V>(s: Seq<ResSlot<V>>, view: V, target: V) -> Seq<ResSlot<V>> {
    value_updated(value_updated(s, 0, Some(view)), 1, Some(target))
}

/// The slots after frame extraction: the two reserved slots drained,
/// everything else untouched.
pub open spec fn frame_taken<V>(s: Seq<ResSlot<V>>) -> Seq<ResSlot<V>> {
    value_updated(value_updated(s, 0, None), 1, None)
}

/// The pair that frame extraction hands back: whatever the two reserved
/// slots hold.
pub open spec fn finish_result<V>(s: Seq<ResSlot<V>>) -> (V, V) {
    (s[0].value.unwrap(), s[1].value.unwrap())
}

/// Frame values installed by preparation are exactly what extraction hands
/// back: when no pass touches the reserved slots in between, a frame's
/// target view and presentable image round-trip through the arena unchanged.
pub proof fn lemma_frame_round_trip<V>(s: Seq<ResSlot<V>>, view: V, target: V)
    requires
        s.len() >= 2,
    ensures
        finish_result(frame_prepared(s, view, target)) == (view, target),
{
}


/// A slot whose state records outstanding shared reads also holds a value:
/// reads are granted only on populated slots, and neither consuming nor
/// producing access can run while reads are outstanding.
pub open spec fn reads_imply_present<V>(slot: ResSlot<V>) -> bool {
    match slot.state {
        AccessState::SharedRead(n) => n >= 1 && slot.value is Some,
        _ => true,
    }
}

/// Well-formedness of an arena in use: the two reserved frame slots exist
/// under their fixed tags, and outstanding reads always sit on a populated
/// slot. Every way to obtain or change a [`RenderResMap`] through this
/// module preserves it.
pub open spec fn map_wf<V>(s: Seq<ResSlot<V>>) -> bool {
    &&& s.len() >= 2
    &&& s[0].tag == FRAME_VIEW_TAG
    &&& s[1].tag == FRAME_TARGET_TAG
    &&& forall|i: int| 0 <= i < s.len() ==> reads_imply_present(#[trigger] s[i])
}

/// The single-writer / multi-reader discipline, seen from a slot with one
/// shared read outstanding: a second read is granted; write, move and
/// producer access are all refused until the read is given back; and
/// releasing the last outstanding read returns the slot to idle, while
/// releasing one of several leaves the others in place.
pub proof fn lemma_shared_read_discipline<V>(m: RenderResMap<V>, t: AccessTarget, n: u64)
    requires
        m.wf(),
        m.admits(t),
        t.kind is Read,
        m.state_at(t.index as int) == AccessState::SharedRead(n),
    ensures
        n < u64::MAX ==> m.can_acquire(t),
        !m.can_acquire(AccessTarget { index: t.index, tag: t.tag, kind: AccessKind::Write }),
        !m.can_acquire(AccessTarget { index: t.index, tag: t.tag, kind: AccessKind::Move }),
        !m.can_acquire(AccessTarget { index: t.index, tag: t.tag, kind: AccessKind::Result }),
        n == 1 ==> dec_read(m.state_at(t.index as int)) == AccessState::Idle,
        n > 1 ==> dec_read(m.state_at(t.index as int)) == AccessState::SharedRead((n - 1) as u64),
        n < u64::MAX ==> dec_read(inc_read(m.state_at(t.index as int))) == m.state_at(
            t.index as int,
        ),
        // granting a further read touches only the count, never the value
        m.acquired(t)[t.index as int].value == m.value_at(t.index as int),
{
}

/// A move consumes: the slot is empty afterwards, and any further read,
/// write or move on it - without an intervening producer access or a fresh
/// value - is refused for want of a value. `taken` is the arena as a
/// granted move leaves it.
pub proof fn lemma_move_empties_slot<V>(m: RenderResMap<V>, taken: RenderResMap<V>, t: AccessTarget)
    requires
        m.can_acquire(t),
        t.kind is Move,
        taken.slots() == m.acquired(t),
    ensures
        taken.value_at(t.index as int) is None,
        !taken.can_acquire(AccessTarget { index: t.index, tag: t.tag, kind: AccessKind::Read }),
        !taken.can_acquire(AccessTarget { index: t.index, tag: t.tag, kind: AccessKind::Write }),
        !taken.can_acquire(AccessTarget { index: t.index, tag: t.tag, kind: AccessKind::Move }),
        taken.can_acquire(AccessTarget { index: t.index, tag: t.tag, kind: AccessKind::Result }),
{
}

/// What an acquisition hands back, by access kind.
pub enum Accessed<V> {
    /// A shared read is now outstanding; fetch the value with
    /// [`RenderResMap::read_ref`] and give the access back with
    /// [`RenderResMap::release_read`].
    Read,
    /// An exclusive write is now outstanding; use
    /// [`RenderResMap::write_ref`] and [`RenderResMap::write_swap`], then
    /// give the access back with [`RenderResMap::release_write`].
    Write,
    /// The slot's value, moved out; the slot is left empty and idle.
    Moved(V),
    /// A producer guard: set or replace the slot's value through it, then
    /// give the access back with [`ResultResValue::release`].
    Result(ResultResValue),
}

/// Producer-side guard for one slot, handed out by a successful
/// [`AccessKind::Result`] acquisition. While it is held the slot is in
/// [`AccessState::ExclusiveWrite`].
pub struct ResultResValue {
    target: AccessTarget,
}

impl ResultResValue {
    /// The slot this guard produces into.
    pub closed spec fn target_spec(&self) -> AccessTarget {
        self.target
    }
}

/// The arena as the frame executor and the passes see it: fixed set of
/// slots, per-slot access guard.
pub struct RenderResMap<V> {
    alloc: RenderGraphAlloc<V>,
}

impl<V> RenderResMap<V> {
    /// The arena's slots.
    pub closed spec fn slots(&self) -> Seq<ResSlot<V>> {
        self.alloc.slots()
    }

    /// Well-formedness; see [`map_wf`].
    pub open spec fn wf(&self) -> bool {
        map_wf(self.slots())
    }

    /// Number of slots.
    pub open spec fn len(&self) -> nat {
        self.slots().len()
    }

    /// The value slot `i` currently holds, if any.
    pub open spec fn value_at(&self, i: int) -> Option<V> {
        self.slots()[i].value
    }

    /// The type tag slot `i` was registered with.
    pub open spec fn tag_at(&self, i: int) -> u64 {
        self.slots()[i].tag
    }

    /// The access state of slot `i`.
    pub open spec fn state_at(&self, i: int) -> AccessState {
        self.slots()[i].state
    }

    /// Whether `t` resolves against this arena at all: the slot exists and
    /// was registered under the tag the handle expects. A handle whose tag
    /// disagrees with its slot's tag comes from another arena and must not
    /// be resolved here.
    pub open spec fn admits(&self, t: AccessTarget) -> bool {
        &&& t.index < self.len()
        &&& self.tag_at(t.index as int) == t.tag
    }

    /// Whether the access `t` asks for can be granted right now: the slot
    /// resolves, holds a value where one is needed, and its current state
    /// does not conflict with the requested kind.
    pub open spec fn can_acquire(&self, t: AccessTarget) -> bool {
        &&& self.admits(t)
        &&& match t.kind {
            AccessKind::Read => self.value_at(t.index as int) is Some && match self.state_at(
                t.index as int,
            ) {
                AccessState::Idle => true,
                AccessState::SharedRead(n) => n < u64::MAX,
                AccessState::ExclusiveWrite => false,
            },
            AccessKind::Write => self.value_at(t.index as int) is Some && self.state_at(
                t.index as int,
            ) is Idle,
            AccessKind::Move => self.value_at(t.index as int) is Some && self.state_at(
                t.index as int,
            ) is Idle,
            AccessKind::Result => self.state_at(t.index as int) is Idle,
        }
    }

    /// The slots after the access `t` has been granted.
    pub open spec fn acquired(&self, t: AccessTarget) -> Seq<ResSlot<V>> {
        let i = t.index as int;
        match t.kind {
            AccessKind::Read => state_updated(self.slots(), i, inc_read(self.state_at(i))),
            AccessKind::Write => state_updated(self.slots(), i, AccessState::ExclusiveWrite),
            AccessKind::Move => value_updated(self.slots(), i, None),
            AccessKind::Result => state_updated(self.slots(), i, AccessState::ExclusiveWrite),
        }
    }

    /// Wraps a finished allocation into the map the executor will drive. The
    /// frame slots are not ready until [`RenderResMap::prepare`] runs.
    pub fn not_ready(alloc: RenderGraphAlloc<V>) -> (r: Self)
        requires
            alloc_wf(alloc.slots()),
        ensures
            r.slots() == alloc.slots(),
            r.wf(),
    {
        RenderResMap { alloc }
    }

    /// Installs the two frame-scoped values into the reserved slots. Called
    /// once per frame before the first batch.
    pub fn prepare(&mut self, frame_view: V, frame_surface_texture: V)
        requires
            old(self).wf(),
            old(self).state_at(0) is Idle,
            old(self).state_at(1) is Idle,
        ensures
            final(self).slots() == frame_prepared(
                old(self).slots(),
                frame_view,
                frame_surface_texture,
            ),
            final(self).wf(),
    {
        self.alloc.elems[0].value = Some(frame_view);
        self.alloc.elems[1].value = Some(frame_surface_texture);
    }

    /// Extracts the two frame-scoped values back out. Called once per frame
    /// after the last batch; the values must be handed back to the device
    /// layer for submission and presentation, so a frame in which a pass
    /// consumed a reserved slot without restoring it is a contract
    /// violation.
    pub fn finish(&mut self) -> (r: (V, V))
        requires
            old(self).wf(),
            old(self).value_at(0) is Some,
            old(self).value_at(1) is Some,
            old(self).state_at(0) is Idle,
            old(self).state_at(1) is Idle,
        ensures
            r == finish_result(old(self).slots()),
            final(self).slots() == frame_taken(old(self).slots()),
            final(self).wf(),
    {
        let mut view: Option<V> = None;
        let mut target: Option<V> = None;
        core::mem::swap(&mut view, &mut self.alloc.elems[0].value);
        core::mem::swap(&mut target, &mut self.alloc.elems[1].value);
        (view.unwrap(), target.unwrap())
    }

    /// Like [`RenderResMap::finish`], but reports a reserved slot that was
    /// left empty or still accessed instead of demanding it never happens.
    /// `None` leaves the arena unchanged.
    pub fn try_finish(&mut self) -> (r: Option<(V, V)>)
        requires
            old(self).wf(),
        ensures
            r is Some <==> (old(self).value_at(0) is Some && old(self).value_at(1) is Some
                && old(self).state_at(0) is Idle && old(self).state_at(1) is Idle),
            r is Some ==> r == Some(finish_result(old(self).slots())) && final(self).slots()
                == frame_taken(old(self).slots()),
            r is None ==> final(self).slots() == old(self).slots(),
            final(self).wf(),
    {
        let ready = self.alloc.elems[0].value.is_some() && self.alloc.elems[1].value.is_some()
            && self.alloc.elems[0].state == AccessState::Idle && self.alloc.elems[1].state
            == AccessState::Idle;
        if ready {
            Some(self.finish())
        } else {
            None
        }
    }

    /// Whether both reserved slots are idle, so a frame may begin.
    pub fn reserved_idle(&self) -> (r: bool)
        requires
            self.wf(),
        ensures
            r == (self.state_at(0) is Idle && self.state_at(1) is Idle),
    {
        self.alloc.elems[0].state == AccessState::Idle && self.alloc.elems[1].state
            == AccessState::Idle
    }

    /// Tries to acquire the access `a` asks for.
    ///
    /// Returns `None` - leaving the arena unchanged - when the slot holds no
    /// value although one is needed (uninitialized, or consumed by an
    /// earlier move), when the requested access conflicts with what is
    /// outstanding on the slot, or when the handle does not resolve against
    /// this arena. Passes that tolerate an absent optional resource use this
    /// variant and skip their work on `None`.
    ///
    /// The empty result deliberately covers all three causes: this is the
    /// fallible face of the guard, and it never fails. Where a conflict or
    /// an unresolvable handle is to be a fatal programming error rather
    /// than a condition to inspect, call [`RenderResMap::access`], whose
    /// precondition excludes exactly those inputs; the contract here says
    /// which cause applied, through [`RenderResMap::can_acquire`].
    pub fn try_access<A: ResAccessor>(&mut self, a: &A) -> (r: Option<Accessed<V>>)
        requires
            old(self).wf(),
        ensures
            r is Some <==> old(self).can_acquire(a.target_spec()),
            r is None ==> final(self).slots() == old(self).slots(),
            old(self).can_acquire(a.target_spec()) ==> final(self).slots() == old(self).acquired(
                a.target_spec(),
            ),
            old(self).can_acquire(a.target_spec()) ==> match a.target_spec().kind {
                AccessKind::Read => r == Some(Accessed::<V>::Read),
                AccessKind::Write => r == Some(Accessed::<V>::Write),
                AccessKind::Move => r == Some(
                    Accessed::Moved(old(self).value_at(a.target_spec().index as int).unwrap()),
                ),
                AccessKind::Result => r matches Some(Accessed::Result(g)) && g.target_spec()
                    == a.target_spec(),
            },
            final(self).wf(),
    {
        let t = a.target();
        if t.index >= self.alloc.elems.len() {
            return None;
        }
        if self.alloc.elems[t.index].tag != t.tag {
            return None;
        }
        match t.kind {
            AccessKind::Read => {
                if self.alloc.elems[t.index].value.is_none() {
                    return None;
                }
                match self.alloc.elems[t.index].state {
                    AccessState::Idle => {
                        self.alloc.elems[t.index].state = AccessState::SharedRead(1);
                        Some(Accessed::Read)
                    },
                    AccessState::SharedRead(n) => {
                        if n == u64::MAX {
                            return None;
                        }
                        self.alloc.elems[t.index].state = AccessState::SharedRead(n + 1);
                        Some(Accessed::Read)
                    },
                    AccessState::ExclusiveWrite => None,
                }
            },
            AccessKind::Write => {
                if self.alloc.elems[t.index].value.is_none() {
                    return None;
                }
                if !(self.alloc.elems[t.index].state == AccessState::Idle) {
                    return None;
                }
                self.alloc.elems[t.index].state = AccessState::ExclusiveWrite;
                Some(Accessed::Write)
            },
            AccessKind::Move => {
                if !(self.alloc.elems[t.index].state == AccessState::Idle) {
                    return None;
                }
                let mut taken: Option<V> = None;
                core::mem::swap(&mut taken, &mut self.alloc.elems[t.index].value);
                match taken {
                    Some(v) => Some(Accessed::Moved(v)),
                    None => None,
                }
            },
            AccessKind::Result => {
                if !(self.alloc.elems[t.index].state == AccessState::Idle) {
                    return None;
                }
                self.alloc.elems[t.index].state = AccessState::ExclusiveWrite;
                Some(Accessed::Result(ResultResValue { target: t }))
            },
        }
    }

    /// Acquires the access `a` asks for.
    ///
    /// The caller must know the acquisition cannot fail: the arena rejects,
    /// as a programming error rather than a run-time condition, any attempt
    /// to resolve a handle against a missing value or against an
    /// outstanding conflicting access. Inside a properly declared pass
    /// these rules are met by construction; use
    /// [`RenderResMap::try_access`] for an optional resource.
    pub fn access<A: ResAccessor>(&mut self, a: &A) -> (r: Accessed<V>)
        requires
            old(self).wf(),
            old(self).can_acquire(a.target_spec()),
        ensures
            final(self).slots() == old(self).acquired(a.target_spec()),
            match a.target_spec().kind {
                AccessKind::Read => r == Accessed::<V>::Read,
                AccessKind::Write => r == Accessed::<V>::Write,
                AccessKind::Move => r == Accessed::Moved(
                    old(self).value_at(a.target_spec().index as int).unwrap(),
                ),
                AccessKind::Result => r matches Accessed::Result(g) && g.target_spec()
                    == a.target_spec(),
            },
            final(self).wf(),
    {
        match self.try_access(a) {
            Some(got) => got,
            None => vstd::pervasive::unreached(),
        }
    }

    /// The value under an outstanding shared read.
    pub fn read_ref(&self, r: &ReadRes) -> (v: &V)
        requires
            self.wf(),
            self.admits(r.target_spec()),
            self.state_at(r.target_spec().index as int) is SharedRead,
        ensures
            Some(*v) == self.value_at(r.target_spec().index as int),
    {
        let t = r.target();
        self.alloc.elems[t.index].value.as_ref().unwrap()
    }

    /// The value under an outstanding exclusive write.
    pub fn write_ref(&self, w: &WriteRes) -> (v: &V)
        requires
            self.wf(),
            self.admits(w.target_spec()),
            self.state_at(w.target_spec().index as int) is ExclusiveWrite,
            self.value_at(w.target_spec().index as int) is Some,
        ensures
            Some(*v) == self.value_at(w.target_spec().index as int),
    {
        let t = w.target();
        self.alloc.elems[t.index].value.as_ref().unwrap()
    }

    /// Replaces the value under an outstanding exclusive write, returning
    /// the previous one: in-place mutation as read-modify-write.
    pub fn write_swap(&mut self, w: &WriteRes, value: V) -> (prev: V)
        requires
            old(self).wf(),
            old(self).admits(w.target_spec()),
            old(self).state_at(w.target_spec().index as int) is ExclusiveWrite,
            old(self).value_at(w.target_spec().index as int) is Some,
        ensures
            Some(prev) == old(self).value_at(w.target_spec().index as int),
            final(self).slots() == value_updated(
                old(self).slots(),
                w.target_spec().index as int,
                Some(value),
            ),
            final(self).wf(),
    {
        let t = w.target();
        let mut swapped: Option<V> = Some(value);
        core::mem::swap(&mut swapped, &mut self.alloc.elems[t.index].value);
        swapped.unwrap()
    }

    /// Gives back an outstanding shared read: the last one returns the slot
    /// to idle.
    pub fn release_read(&mut self, r: &ReadRes)
        requires
            old(self).wf(),
            old(self).admits(r.target_spec()),
            old(self).state_at(r.target_spec().index as int) is SharedRead,
        ensures
            final(self).slots() == state_updated(
                old(self).slots(),
                r.target_spec().index as int,
                dec_read(old(self).state_at(r.target_spec().index as int)),
            ),
            final(self).wf(),
    {
        let t = r.target();
        match self.alloc.elems[t.index].state {
            AccessState::SharedRead(n) => {
                if n <= 1 {
                    self.alloc.elems[t.index].state = AccessState::Idle;
                } else {
                    self.alloc.elems[t.index].state = AccessState::SharedRead(n - 1);
                }
            },
            _ => (),
        }
    }

    /// Gives back an outstanding exclusive write, returning the slot to
    /// idle.
    pub fn release_write(&mut self, w: &WriteRes)
        requires
            old(self).wf(),
            old(self).admits(w.target_spec()),
            old(self).state_at(w.target_spec().index as int) is ExclusiveWrite,
        ensures
            final(self).slots() == state_updated(
                old(self).slots(),
                w.target_spec().index as int,
                AccessState::Idle,
            ),
            final(self).wf(),
    {
        let t = w.target();
        self.alloc.elems[t.index].state = AccessState::Idle;
    }
}

impl ResultResValue {
    /// Stores `value` into the produced slot, returning the previous value
    /// if any.
    pub fn replace<V>(&self, map: &mut RenderResMap<V>, value: V) -> (prev: Option<V>)
        requires
            old(map).wf(),
            old(map).admits(self.target_spec()),
            old(map).state_at(self.target_spec().index as int) is ExclusiveWrite,
        ensures
            prev == old(map).value_at(self.target_spec().index as int),
            final(map).slots() == value_updated(
                old(map).slots(),
                self.target_spec().index as int,
                Some(value),
            ),
            final(map).wf(),
    {
        self.set(map, Some(value))
    }

    /// Stores `value` - possibly nothing - into the produced slot,
    /// returning the previous value if any.
    pub fn set<V>(&self, map: &mut RenderResMap<V>, value: Option<V>) -> (prev: Option<V>)
        requires
            old(map).wf(),
            old(map).admits(self.target_spec()),
            old(map).state_at(self.target_spec().index as int) is ExclusiveWrite,
        ensures
            prev == old(map).value_at(self.target_spec().index as int),
            final(map).slots() == value_updated(
                old(map).slots(),
                self.target_spec().index as int,
                value,
            ),
            final(map).wf(),
    {
        let index = self.target.index;
        let mut swapped: Option<V> = value;
        core::mem::swap(&mut swapped, &mut map.alloc.elems[index].value);
        swapped
    }

    /// Gives the producer access back, returning the slot to idle.
    pub fn release<V>(self, map: &mut RenderResMap<V>)
        requires
            old(map).wf(),
            old(map).admits(self.target_spec()),
            old(map).state_at(self.target_spec().index as int) is ExclusiveWrite,
        ensures
            final(map).slots() == state_updated(
                old(map).slots(),
                self.target_spec().index as int,
                AccessState::Idle,
            ),
            final(map).wf(),
    {
        let index = self.target.index;
        map.alloc.elems[index].state = AccessState::Idle;
    }
}

} // verus!

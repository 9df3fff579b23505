//! The resource arena: handles, the access state machine, and the
//! frame-slot round trip.

use nuum::res::{Accessed, RenderGraphAlloc, RenderResMap};

#[test]
fn default_alloc_has_two_reserved_slots() {
    let mut alloc: RenderGraphAlloc<u64> = RenderGraphAlloc::default();
    assert_eq!(alloc.frame_view().id().index, 0);
    assert_eq!(alloc.frame_surface_texture().id().index, 1);
    let h = alloc.push(None, 7);
    assert_eq!(h.id().index, 2);
}

#[test]
fn push_assigns_dense_consecutive_ids() {
    let mut alloc: RenderGraphAlloc<u64> = RenderGraphAlloc::default();
    let a = alloc.push(Some(1), 10);
    let b = alloc.push(None, 11);
    let c = alloc.push(Some(3), 10);
    assert_eq!(a.id().index, 2);
    assert_eq!(b.id().index, 3);
    assert_eq!(c.id().index, 4);
}

#[test]
fn read_while_read_succeeds_write_and_move_fail() {
    let mut alloc: RenderGraphAlloc<u64> = RenderGraphAlloc::default();
    let h = alloc.push(Some(5), 1);
    let mut map = RenderResMap::not_ready(alloc);

    assert!(matches!(map.try_access(&h.read()), Some(Accessed::Read)));
    // a second shared read while one is outstanding succeeds
    assert!(matches!(map.try_access(&h.read()), Some(Accessed::Read)));
    assert_eq!(*map.read_ref(&h.read()), 5);
    // write and move conflict with the outstanding reads
    assert!(map.try_access(&h.write()).is_none());
    assert!(map.try_access(&h.move_()).is_none());
    assert!(map.try_access(&h.result()).is_none());
    // releasing all reads returns the slot to idle: a write is granted again
    map.release_read(&h.read());
    assert!(map.try_access(&h.write()).is_none());
    map.release_read(&h.read());
    assert!(matches!(map.try_access(&h.write()), Some(Accessed::Write)));
}

#[test]
fn write_is_exclusive_and_swaps_in_place() {
    let mut alloc: RenderGraphAlloc<String> = RenderGraphAlloc::default();
    let h = alloc.push(Some("before".to_string()), 1);
    let mut map = RenderResMap::not_ready(alloc);

    assert!(matches!(map.try_access(&h.write()), Some(Accessed::Write)));
    // no second access of any kind while the write is outstanding
    assert!(map.try_access(&h.read()).is_none());
    assert!(map.try_access(&h.write()).is_none());
    assert!(map.try_access(&h.move_()).is_none());
    // in-place mutation as read-modify-write
    assert_eq!(map.write_ref(&h.write()), "before");
    let prev = map.write_swap(&h.write(), "after".to_string());
    assert_eq!(prev, "before");
    assert_eq!(map.write_ref(&h.write()), "after");
    map.release_write(&h.write());
    assert!(matches!(map.try_access(&h.read()), Some(Accessed::Read)));
}

#[test]
fn move_empties_the_slot() {
    let mut alloc: RenderGraphAlloc<u64> = RenderGraphAlloc::default();
    let h = alloc.push(Some(9), 1);
    let mut map = RenderResMap::not_ready(alloc);

    match map.try_access(&h.move_()) {
        Some(Accessed::Moved(v)) => assert_eq!(v, 9),
        _ => panic!("move on a populated idle slot must be granted"),
    }
    // uninitialized now: read, write and move are all refused
    assert!(map.try_access(&h.read()).is_none());
    assert!(map.try_access(&h.write()).is_none());
    assert!(map.try_access(&h.move_()).is_none());
    // a producer access repopulates it
    match map.try_access(&h.result()) {
        Some(Accessed::Result(guard)) => {
            assert_eq!(guard.replace(&mut map, 11), None);
            guard.release(&mut map);
        }
        _ => panic!("producer access on an idle slot must be granted"),
    }
    match map.try_access(&h.move_()) {
        Some(Accessed::Moved(v)) => assert_eq!(v, 11),
        _ => panic!("move after a producer refill must be granted"),
    }
}

#[test]
fn producer_set_and_replace_return_previous_value() {
    let mut alloc: RenderGraphAlloc<u64> = RenderGraphAlloc::default();
    let h = alloc.push(Some(1), 1);
    let mut map = RenderResMap::not_ready(alloc);

    match map.try_access(&h.result()) {
        Some(Accessed::Result(guard)) => {
            assert_eq!(guard.replace(&mut map, 2), Some(1));
            assert_eq!(guard.set(&mut map, None), Some(2));
            assert_eq!(guard.set(&mut map, Some(3)), None);
            guard.release(&mut map);
        }
        _ => panic!("producer access on an idle slot must be granted"),
    }
    match map.try_access(&h.move_()) {
        Some(Accessed::Moved(v)) => assert_eq!(v, 3),
        _ => panic!("the produced value must be there"),
    }
}

#[test]
fn uninitialized_slot_rejects_read_write_move_but_not_result() {
    let mut alloc: RenderGraphAlloc<u64> = RenderGraphAlloc::default();
    let h = alloc.push(None, 1);
    let mut map = RenderResMap::not_ready(alloc);

    assert!(map.try_access(&h.read()).is_none());
    assert!(map.try_access(&h.write()).is_none());
    assert!(map.try_access(&h.move_()).is_none());
    assert!(matches!(map.try_access(&h.result()), Some(Accessed::Result(_))));
}

#[test]
fn handle_from_another_arena_does_not_resolve() {
    let mut alloc_a: RenderGraphAlloc<u64> = RenderGraphAlloc::default();
    let mut alloc_b: RenderGraphAlloc<u64> = RenderGraphAlloc::default();
    let _ = alloc_a.push(Some(1), 5);
    let foreign_same_index = alloc_b.push(Some(2), 6);
    let _ = alloc_b.push(Some(3), 6);
    let foreign_out_of_range = alloc_b.push(Some(4), 6);
    let mut map = RenderResMap::not_ready(alloc_a);

    // same slot index, different registered tag
    assert!(map.try_access(&foreign_same_index.read()).is_none());
    // index beyond this arena's slots
    assert!(map.try_access(&foreign_out_of_range.read()).is_none());
}

#[test]
fn frame_values_round_trip_through_prepare_and_finish() {
    let alloc: RenderGraphAlloc<String> = RenderGraphAlloc::default();
    let mut map = RenderResMap::not_ready(alloc);
    map.prepare("view".to_string(), "target".to_string());
    let (view, target) = map.finish();
    assert_eq!(view, "view");
    assert_eq!(target, "target");
}

#[test]
fn try_finish_reports_missing_reserved_values() {
    let alloc: RenderGraphAlloc<u64> = RenderGraphAlloc::default();
    let mut map = RenderResMap::not_ready(alloc);
    // nothing prepared: both reserved slots are empty
    assert!(map.try_finish().is_none());
    map.prepare(1, 2);
    assert_eq!(map.try_finish(), Some((1, 2)));
    // drained again
    assert!(map.try_finish().is_none());
}

//! End-to-end frames: building a graph from passes and walking it.

use nuum::graph::{FrameError, RenderGraph};
use nuum::pass::{PassEncoder, PassNode, PassScheduler, RunAfter, RunBefore};
use nuum::res::{Accessed, RenderGraphAlloc, RenderResMap, ResHandle};

enum TestPass {
    /// Produces a fixed value into its slot.
    Produce(ResHandle, u64),
    /// Reads its slot and checks the value; skips silently when absent.
    Consume(ResHandle, u64),
    /// Declares nothing.
    Noop,
    /// Consumes the frame view and keeps it: a frame-contract violation.
    TakeFrameView(ResHandle),
    /// Acquires a read on the frame view and never releases it: a
    /// frame-contract violation.
    HoldFrameRead(ResHandle),
}

impl PassEncoder for TestPass {
    type Value = u64;
    type Ctx = Vec<String>;

    fn encode(&mut self, res: &mut RenderResMap<u64>, ctx: &mut Vec<String>) {
        match self {
            TestPass::Produce(h, v) => match res.try_access(&h.result()) {
                Some(Accessed::Result(guard)) => {
                    guard.replace(res, *v);
                    guard.release(res);
                    ctx.push("producer".to_string());
                }
                _ => panic!("producer slot must be idle"),
            },
            TestPass::Consume(h, expect) => match res.try_access(&h.read()) {
                Some(Accessed::Read) => {
                    assert_eq!(*res.read_ref(&h.read()), *expect);
                    res.release_read(&h.read());
                    ctx.push("consumer".to_string());
                }
                None => ctx.push("consumer skipped".to_string()),
                _ => panic!("a granted read must be a read"),
            },
            TestPass::Noop => ctx.push("noop".to_string()),
            TestPass::TakeFrameView(h) => match res.try_access(&h.move_()) {
                Some(Accessed::Moved(_)) => ctx.push("took frame view".to_string()),
                _ => panic!("the frame view must be present during a frame"),
            },
            TestPass::HoldFrameRead(h) => match res.try_access(&h.read()) {
                Some(Accessed::Read) => ctx.push("holding frame view".to_string()),
                _ => panic!("the frame view must be readable during a frame"),
            },
        }
    }

    fn node_builder(&self, node: PassNode) -> PassNode {
        match self {
            TestPass::Produce(h, _) => node.with_result(h.id()),
            TestPass::Consume(h, _) => node.with_read(h.id()),
            TestPass::Noop => node,
            TestPass::TakeFrameView(h) => node.with_move(h.id()),
            TestPass::HoldFrameRead(h) => node.with_read(h.id()),
        }
    }
}

#[test]
fn producer_feeds_consumer_across_two_batches() {
    let mut alloc: RenderGraphAlloc<u64> = RenderGraphAlloc::default();
    let r = alloc.push(None, 3);
    let built = RenderGraph::<TestPass>::builder()
        .with_pass("consumer".to_string(), TestPass::Consume(r, 42))
        .with_pass("producer".to_string(), TestPass::Produce(r, 42))
        .build(alloc);
    let mut graph = match built {
        Ok(g) => g,
        Err(_) => panic!("a producer/consumer pair is acyclic"),
    };
    // the resource edge alone puts the producer (registered second) into
    // the strictly earlier batch
    assert_eq!(graph.schedule().batch_count(), 2);
    assert_eq!(*graph.schedule().batch(0), vec![1]);
    assert_eq!(*graph.schedule().batch(1), vec![0]);
    let mut log: Vec<String> = Vec::new();
    let out = graph.run(&mut log, 7, 8);
    assert_eq!(out, Ok((7, 8)));
    assert_eq!(log, vec!["producer".to_string(), "consumer".to_string()]);
    // the compiled schedule is reusable: a second frame behaves the same
    let out2 = graph.run(&mut log, 9, 10);
    assert_eq!(out2, Ok((9, 10)));
}

#[test]
fn explicit_run_before_places_a_pass_at_or_before_its_target() {
    let alloc: RenderGraphAlloc<u64> = RenderGraphAlloc::default();
    let built = RenderGraph::<RunBefore<TestPass>>::builder()
        .with_pass("A".to_string(), TestPass::Noop.run_before("unrelated".to_string()))
        .with_pass("B".to_string(), TestPass::Noop.run_before("unrelated".to_string()))
        .with_pass("C".to_string(), TestPass::Noop.run_before("A".to_string()))
        .build(alloc);
    let graph = match built {
        Ok(g) => g,
        Err(_) => panic!("one ordering edge is acyclic"),
    };
    // C shares no resource with A, yet lands strictly before it
    assert_eq!(*graph.schedule().batch(0), vec![1, 2]);
    assert_eq!(*graph.schedule().batch(1), vec![0]);
}

#[test]
fn explicit_run_after_places_a_pass_behind_its_target() {
    let alloc: RenderGraphAlloc<u64> = RenderGraphAlloc::default();
    let built = RenderGraph::<RunAfter<TestPass>>::builder()
        .with_pass("A".to_string(), TestPass::Noop.run_after("C".to_string()))
        .with_pass("B".to_string(), TestPass::Noop.run_after("unrelated".to_string()))
        .with_pass("C".to_string(), TestPass::Noop.run_after("unrelated".to_string()))
        .build(alloc);
    let graph = match built {
        Ok(g) => g,
        Err(_) => panic!("one ordering edge is acyclic"),
    };
    assert_eq!(*graph.schedule().batch(0), vec![1, 2]);
    assert_eq!(*graph.schedule().batch(1), vec![0]);
}

#[test]
fn cyclic_pass_declarations_fail_to_build() {
    let mut alloc: RenderGraphAlloc<u64> = RenderGraphAlloc::default();
    let r = alloc.push(None, 3);
    // the producer runs after the consumer by name, but the consumer needs
    // its output: a cycle
    let built = RenderGraph::<RunAfter<TestPass>>::builder()
        .with_pass("producer".to_string(), TestPass::Produce(r, 1).run_after("consumer".to_string()))
        .with_pass("consumer".to_string(), TestPass::Consume(r, 1).run_after("nosuch".to_string()))
        .build(alloc);
    assert!(built.is_err());
}

#[test]
fn consumer_skips_silently_when_optional_input_is_absent() {
    let mut alloc: RenderGraphAlloc<u64> = RenderGraphAlloc::default();
    let r = alloc.push(None, 3);
    let built = RenderGraph::<TestPass>::builder()
        .with_pass("consumer".to_string(), TestPass::Consume(r, 0))
        .build(alloc);
    let mut graph = match built {
        Ok(g) => g,
        Err(_) => panic!("a single pass is acyclic"),
    };
    let mut log: Vec<String> = Vec::new();
    let out = graph.run(&mut log, 1, 2);
    assert_eq!(out, Ok((1, 2)));
    assert_eq!(log, vec!["consumer skipped".to_string()]);
}

#[test]
fn empty_graph_hands_the_frame_values_straight_back() {
    let alloc: RenderGraphAlloc<u64> = RenderGraphAlloc::default();
    let built = RenderGraph::<TestPass>::builder().build(alloc);
    let mut graph = match built {
        Ok(g) => g,
        Err(_) => panic!("an empty graph is acyclic"),
    };
    let mut log: Vec<String> = Vec::new();
    assert_eq!(graph.run(&mut log, 33, 44), Ok((33, 44)));
    assert!(log.is_empty());
}

#[test]
fn consuming_a_reserved_slot_fails_the_frame() {
    let alloc: RenderGraphAlloc<u64> = RenderGraphAlloc::default();
    let fv = alloc.frame_view();
    let built = RenderGraph::<TestPass>::builder()
        .with_pass("thief".to_string(), TestPass::TakeFrameView(fv))
        .build(alloc);
    let mut graph = match built {
        Ok(g) => g,
        Err(_) => panic!("a single pass is acyclic"),
    };
    let mut log: Vec<String> = Vec::new();
    assert_eq!(graph.run(&mut log, 1, 2), Err(FrameError::ReservedMissing));
}

#[test]
fn retaining_a_guard_fails_this_frame_and_blocks_the_next() {
    let alloc: RenderGraphAlloc<u64> = RenderGraphAlloc::default();
    let fv = alloc.frame_view();
    let built = RenderGraph::<TestPass>::builder()
        .with_pass("hoarder".to_string(), TestPass::HoldFrameRead(fv))
        .build(alloc);
    let mut graph = match built {
        Ok(g) => g,
        Err(_) => panic!("a single pass is acyclic"),
    };
    let mut log: Vec<String> = Vec::new();
    // the reserved slot still has a read outstanding at frame end
    assert_eq!(graph.run(&mut log, 1, 2), Err(FrameError::ReservedMissing));
    // and the next frame refuses to start over it
    assert_eq!(graph.run(&mut log, 3, 4), Err(FrameError::ReservedBusy));
}

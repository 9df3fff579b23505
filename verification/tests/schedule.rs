//! The scheduler: batching, cycle detection, determinism, explicit
//! ordering constraints.

use nuum::pass::PassNode;
use nuum::res::ResId;
use nuum::sched::{build_schedule, GraphError, Schedule};

fn rid(index: usize) -> ResId {
    ResId { index }
}

fn batches_of(s: &Schedule) -> Vec<Vec<usize>> {
    let mut out: Vec<Vec<usize>> = Vec::new();
    let mut k = 0;
    while k < s.batch_count() {
        out.push(s.batch(k).clone());
        k += 1;
    }
    out
}

fn diamond() -> Vec<PassNode> {
    // 0 produces a; 1 and 2 each read a and produce one of b, c; 3 reads both
    vec![
        PassNode::new("source".to_string()).with_result(rid(2)),
        PassNode::new("left".to_string()).with_read(rid(2)).with_result(rid(3)),
        PassNode::new("right".to_string()).with_read(rid(2)).with_result(rid(4)),
        PassNode::new("sink".to_string()).with_read(rid(3)).with_read(rid(4)),
    ]
}

#[test]
fn acyclic_graph_builds_with_every_edge_forward() {
    let schedule = build_schedule(&diamond()).unwrap_or_else(|_| panic!("diamond is acyclic"));
    assert_eq!(batches_of(&schedule), vec![vec![0], vec![1, 2], vec![3]]);
}

#[test]
fn cyclic_graph_fails_to_build() {
    // one pass runs after "sink" but produces what "sink" reads
    let nodes = vec![
        PassNode::new("loop".to_string()).with_result(rid(2)).run_after("sink".to_string()),
        PassNode::new("sink".to_string()).with_read(rid(2)),
    ];
    match build_schedule(&nodes) {
        Err(e) => assert_eq!(e, GraphError::Cycle),
        Ok(_) => panic!("a cyclic graph must not build"),
    }
}

#[test]
fn two_pass_mutual_dependency_fails_to_build() {
    let nodes = vec![
        PassNode::new("ping".to_string()).with_result(rid(2)).with_read(rid(3)),
        PassNode::new("pong".to_string()).with_result(rid(3)).with_read(rid(2)),
    ];
    assert!(build_schedule(&nodes).is_err());
}

#[test]
fn rebuilding_the_same_graph_gives_identical_batches() {
    let first = build_schedule(&diamond()).unwrap_or_else(|_| panic!("diamond is acyclic"));
    let second = build_schedule(&diamond()).unwrap_or_else(|_| panic!("diamond is acyclic"));
    assert_eq!(batches_of(&first), batches_of(&second));
}

#[test]
fn independent_passes_share_one_batch_in_registration_order() {
    let nodes = vec![
        PassNode::new("a".to_string()),
        PassNode::new("b".to_string()),
        PassNode::new("c".to_string()),
    ];
    let schedule = build_schedule(&nodes).unwrap_or_else(|_| panic!("no edges, no cycle"));
    assert_eq!(batches_of(&schedule), vec![vec![0, 1, 2]]);
}

#[test]
fn run_before_constrains_without_any_resource_edge() {
    let nodes = vec![
        PassNode::new("a".to_string()),
        PassNode::new("b".to_string()),
        PassNode::new("c".to_string()).run_before("a".to_string()),
    ];
    let schedule = build_schedule(&nodes).unwrap_or_else(|_| panic!("one edge, no cycle"));
    assert_eq!(batches_of(&schedule), vec![vec![1, 2], vec![0]]);
}

#[test]
fn run_after_constrains_without_any_resource_edge() {
    let nodes = vec![
        PassNode::new("a".to_string()).run_after("c".to_string()),
        PassNode::new("b".to_string()),
        PassNode::new("c".to_string()),
    ];
    let schedule = build_schedule(&nodes).unwrap_or_else(|_| panic!("one edge, no cycle"));
    assert_eq!(batches_of(&schedule), vec![vec![1, 2], vec![0]]);
}

#[test]
fn constraint_against_unknown_name_is_inert() {
    let nodes = vec![
        PassNode::new("a".to_string()).run_before("nosuch".to_string()),
        PassNode::new("b".to_string()).run_after("nosuch".to_string()),
    ];
    let schedule = build_schedule(&nodes).unwrap_or_else(|_| panic!("no matching names"));
    assert_eq!(batches_of(&schedule), vec![vec![0, 1]]);
}

#[test]
fn name_constraint_reaches_every_pass_of_that_name() {
    let nodes = vec![
        PassNode::new("x".to_string()),
        PassNode::new("x".to_string()),
        PassNode::new("early".to_string()).run_before("x".to_string()),
    ];
    let schedule = build_schedule(&nodes).unwrap_or_else(|_| panic!("acyclic"));
    assert_eq!(batches_of(&schedule), vec![vec![2], vec![0, 1]]);
}

#[test]
fn empty_graph_builds_into_no_batches() {
    let nodes: Vec<PassNode> = Vec::new();
    let schedule = build_schedule(&nodes).unwrap_or_else(|_| panic!("empty graph is acyclic"));
    assert_eq!(schedule.batch_count(), 0);
}

#[test]
fn cycle_error_describes_itself() {
    assert_eq!(
        GraphError::Cycle.message(),
        "the declared pass dependencies form a cycle".to_string()
    );
}

//! The event plumbing: adapters route events through port stages.

use nuum::control::{Adapter, Controller, Platform, PlatformHandle, Port};
use std::cell::Cell;

struct Counter {
    total: u64,
}

struct AddPort;

impl Port<u64, Counter> for AddPort {
    fn port(&mut self, event: &mut u64, inner: &mut Counter) {
        inner.total += *event;
    }
}

#[test]
fn adapter_routes_events_through_its_port() {
    let mut adapter = Adapter { ports: AddPort, inner: Counter { total: 0 } };
    adapter.run(5u64);
    adapter.run(7u64);
    assert_eq!(adapter.inner.total, 12);
}

#[test]
fn unit_controller_swallows_any_event() {
    let mut sink = ();
    Controller::<u64>::run(&mut sink, 3);
    Controller::<&str>::run(&mut sink, "ignored");
}

struct StopFlag {
    stopped: Cell<bool>,
}

impl PlatformHandle for StopFlag {
    fn exit(&self) {
        self.stopped.set(true);
    }
}

struct ScriptPlatform {
    script: Vec<u64>,
}

impl Platform for ScriptPlatform {
    type PlatformHandle<'a> = StopFlag;
    type Output<'a> = (u64, &'a StopFlag);

    fn run<T: for<'a> Controller<Self::Output<'a>>>(&mut self, controller: &mut T) {
        let flag = StopFlag { stopped: Cell::new(false) };
        for event in &self.script {
            if flag.stopped.get() {
                break;
            }
            controller.run((*event, &flag));
        }
    }
}

struct Collect {
    seen: Vec<u64>,
    stop_at: u64,
}

impl<'a> Controller<(u64, &'a StopFlag)> for Collect {
    fn run(&mut self, input: (u64, &'a StopFlag)) {
        self.seen.push(input.0);
        if input.0 == self.stop_at {
            input.1.exit();
        }
    }
}

#[test]
fn platform_feeds_events_until_the_controller_exits() {
    let mut platform = ScriptPlatform { script: vec![1, 2, 3, 4] };
    let mut controller = Collect { seen: Vec::new(), stop_at: 2 };
    platform.run(&mut controller);
    assert_eq!(controller.seen, vec![1, 2]);
}

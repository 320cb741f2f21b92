//! Instances and their slots.

use llm_orch::instance::{Instance, InstanceState, NANOS_PER_SEC};

#[test]
fn instance_id_format() {
    let inst = Instance::new("qwen3-32b", vec![0, 1], 9001, 0);
    assert_eq!(inst.id, "qwen3-32b@0,1");
}

#[test]
fn instance_id_cpu() {
    let inst = Instance::new("tiny-model", vec![], 9002, 0);
    assert_eq!(inst.id, "tiny-model@cpu");
}

#[test]
fn handle_acquire_release() {
    let mut inst = Instance::new("test", vec![0], 9003, 0);
    inst.mark_ready();
    assert!(inst.try_acquire(4, 1), "slot available");
    assert_eq!(inst.in_flight, 1);
    assert!(inst.release_slot(2));
    assert_eq!(inst.in_flight, 0);
}

#[test]
fn handle_no_capacity() {
    let mut inst = Instance::new("test", vec![0], 9004, 0);
    inst.mark_ready();
    assert!(inst.try_acquire(1, 1), "first slot available");
    // A second request finds no slot.
    assert!(!inst.try_acquire(1, 2));
}

#[test]
fn handle_clone_drop_does_not_release_slot() {
    // Only giving the slot back releases it: looking at the instance, by
    // whatever route, leaves the count alone.
    let mut inst = Instance::new("test", vec![0], 9005, 0);
    inst.mark_ready();
    assert!(inst.try_acquire(4, 1), "slot available");
    for _ in 0..10 {
        let looked_at = &inst;
        assert!(looked_at.has_capacity(4));
    }
    assert_eq!(inst.in_flight, 1);
    assert!(inst.release_slot(2));
    assert_eq!(inst.in_flight, 0);
    // There is nothing more to give back.
    assert!(!inst.release_slot(3));
    assert_eq!(inst.in_flight, 0);
}

#[test]
fn a_new_instance_is_loading_and_takes_nothing() {
    let mut inst = Instance::new("m", vec![], 1, 5);
    assert_eq!(inst.state, InstanceState::Loading);
    assert!(!inst.has_capacity(4));
    inst.mark_ready();
    assert!(inst.has_capacity(4));
    inst.state = InstanceState::Failed;
    assert!(!inst.has_capacity(4));
}

#[test]
fn idle_time_counts_from_the_last_use() {
    let mut inst = Instance::new("m", vec![], 1, 0);
    inst.mark_ready();
    assert!(!inst.is_idle_expired(60, 59 * NANOS_PER_SEC));
    assert!(inst.is_idle_expired(60, 61 * NANOS_PER_SEC));
    inst.acquire_slot(61 * NANOS_PER_SEC);
    assert!(!inst.is_idle_expired(60, 500 * NANOS_PER_SEC));
    inst.release_slot(500 * NANOS_PER_SEC);
    assert!(!inst.is_idle_expired(60, 501 * NANOS_PER_SEC));
    assert!(inst.is_idle_expired(60, 561 * NANOS_PER_SEC));
}

#[test]
fn slots_in_flight_are_those_got_and_not_given_back() {
    let mut inst = Instance::new("m", vec![], 1, 0);
    assert!(!inst.try_acquire(2, 1), "not ready yet");
    inst.mark_ready();
    assert!(inst.try_acquire(2, 2));
    assert!(inst.try_acquire(2, 3));
    let before = inst.last_active;
    assert!(!inst.try_acquire(2, 4), "full");
    assert_eq!((inst.in_flight, inst.last_active), (2, before));
    assert!(inst.release_slot(5));
    assert_eq!(inst.in_flight, 1);
    inst.state = InstanceState::Failed;
    assert!(!inst.try_acquire(2, 6), "draining");
    assert!(inst.release_slot(7));
    assert_eq!(inst.in_flight, 0);
}

//! Scheduling: slots, queues, crashes, removal, scaling and reload.

use llm_orch::acquire::{AcquireStep, EnsureStep, WaitEnd};
use llm_orch::autoscale::ScaleStep;
use llm_orch::backend::ReadyOutcome;
use llm_orch::config::{
    AutoscaleConfig, Config, DevicesConfig, GpuKeepAlive, KeepAliveConfig, ModelConfig, PortRange,
    ServerConfig,
};
use llm_orch::fingerprint::{fingerprint_with_aliases, Fingerprint};
use llm_orch::gpu::{GpuMetrics, Reading};
use llm_orch::instance::{Instance, InstanceState, NANOS_PER_SEC};
use llm_orch::keepalive::{KeepAliveAction, KeepAliveManager};
use llm_orch::metrics::ModelMetrics;
use llm_orch::names::NameMap;
use llm_orch::reload::{keys_path_changed, listen_changed};
use llm_orch::scheduler::{
    find_key, AcquireError, EnqueueError, InstanceManager, Removal, RemovalMode, Wake,
    CRASH_LIMIT, RECENT_COMPLETIONS,
};
use llm_orch::spawning::{
    queue_wait_budget, resolve_cmd, spawn_wait_budget, ChildStatus, SpawnEnd, SpawnRefusal,
    WatchStep,
};
use llm_orch::types::CompletionRecord;

/// The moment at which the tests take place.
const NOW: u64 = 10_000 * NANOS_PER_SEC;

fn model(name: &str) -> ModelConfig {
    ModelConfig {
        name: name.to_owned(),
        context_length: 4096,
        max_instances: 1,
        max_concurrent: 4,
        priority: 0,
        vram: 0,
        ram: 0,
        idle_ttl: 60,
        queue_depth: 10,
        cmd: "sleep 3600".to_owned(),
        vulkan_devices: vec![],
        cuda_devices: vec![],
        gpus: 1,
        debug_log: None,
        autoscale: None,
        loading_dots: None,
    }
}

fn config(models: Vec<ModelConfig>) -> Config {
    Config {
        server: ServerConfig {
            listen: "127.0.0.1:8080".to_owned(),
            port_range: PortRange::Range {
                start: 9000,
                end: 9010,
            },
            backend_total_timeout_secs: 900,
            backend_idle_timeout_secs: 300,
            shutdown_drain_timeout_secs: 60,
            loading_dots: None,
        },
        apikeys_file: "apikeys.txt".to_owned(),
        cmd_aliases: vec![],
        models,
        aliases: vec![],
        devices: None,
        keep_alive: None,
    }
}

fn test_manager() -> InstanceManager {
    InstanceManager::new(config(vec![model("m")]), None)
}

/// Adds an instance of model "m" and gives its key.
fn add_on_gpus(
    mgr: &mut InstanceManager,
    gpus: Vec<usize>,
    state: InstanceState,
    in_flight: usize,
    idle_secs: u64,
) -> u64 {
    let mut inst = Instance::new("m", gpus, 54321, NOW - idle_secs * NANOS_PER_SEC);
    inst.key = mgr.next_key;
    inst.state = state;
    inst.in_flight = in_flight;
    mgr.next_key += 1;
    let key = inst.key;
    match mgr.instances.get_mut("m") {
        Some(list) => {
            list.push(inst);
        }
        None => {
            mgr.instances.insert("m", vec![inst]);
        }
    }
    key
}

fn add(mgr: &mut InstanceManager, state: InstanceState, in_flight: usize, idle_secs: u64) -> u64 {
    add_on_gpus(mgr, vec![0], state, in_flight, idle_secs)
}

fn instance(mgr: &InstanceManager, key: u64) -> &Instance {
    let list = mgr.instances.get("m").unwrap();
    &list[find_key(list, key).unwrap()]
}

fn instance_mut(mgr: &mut InstanceManager, key: u64) -> &mut Instance {
    let list = mgr.instances.get_mut("m").unwrap();
    let i = find_key(list, key).unwrap();
    &mut list[i]
}

fn set_current_fingerprint(mgr: &mut InstanceManager, key: u64) {
    let print = fingerprint_with_aliases(
        &mgr.settings.cmd_aliases,
        mgr.settings.models.get("m").unwrap(),
    );
    instance_mut(mgr, key).config_fingerprint = Some(print);
}

fn instance_count(mgr: &InstanceManager) -> usize {
    mgr.instances.get("m").map(|l| l.len()).unwrap_or(0)
}

fn stale_metrics(mgr: &mut InstanceManager) {
    let mut metrics = ModelMetrics::new(NOW);
    metrics.last_activity = NOW - 3600 * NANOS_PER_SEC;
    mgr.model_metrics.insert("m", metrics);
}

fn unload(mgr: &mut InstanceManager, keys: Vec<u64>) {
    for key in keys {
        mgr.unregister_instance("m", key);
    }
}

/// Removes an instance if it is idle.
fn remove_instance(mgr: &mut InstanceManager, key: u64) -> bool {
    match mgr.begin_removal("m", key, RemovalMode::IfIdle) {
        Removal::Remove => mgr.unregister_instance("m", key).removed,
        _ => false,
    }
}

/// One tick of the autoscaler, with no load above or below a threshold.
fn autoscale(mgr: &mut InstanceManager) -> ScaleStep {
    mgr.force_refresh(NOW);
    let plan = mgr.evaluate_autoscale("m", |_, _| false, |_, _| false, NOW);
    unload(mgr, plan.reap);
    match &plan.step {
        ScaleStep::Evict(keys) => unload(mgr, keys.clone()),
        ScaleStep::ScaleDown(key) => unload(mgr, vec![*key]),
        _ => {}
    }
    plan.step
}

fn reconcile(mgr: &mut InstanceManager, config: Config) {
    for (name, key) in mgr.unload_removed(&config) {
        mgr.unregister_instance(&name, key);
    }
    mgr.reconcile_config(config, NameMap::new());
}

#[test]
fn autoscale_does_not_despawn_loading_instance_with_stale_metrics() {
    let mut mgr = test_manager();
    let key = add(&mut mgr, InstanceState::Loading, 0, 0);
    stale_metrics(&mut mgr);

    autoscale(&mut mgr);

    assert_eq!(
        instance_count(&mgr),
        1,
        "Loading instance must survive the autoscaler tick"
    );
    assert_eq!(instance(&mgr, key).state, InstanceState::Loading);
}

#[test]
fn autoscale_keeps_instance_with_in_flight_request_alive() {
    let mut mgr = test_manager();
    add(&mut mgr, InstanceState::Ready, 1, 3600);
    stale_metrics(&mut mgr);

    autoscale(&mut mgr);

    assert_eq!(
        instance_count(&mgr),
        1,
        "instance with an in-flight request must not be despawned"
    );
    let last = mgr.model_metrics.get("m").unwrap().last_activity;
    assert!(
        NOW - last < 5 * NANOS_PER_SEC,
        "last_activity must have been refreshed by the in-flight request"
    );
}

#[test]
fn autoscale_still_despawns_genuinely_idle_instance() {
    let mut mgr = test_manager();
    add(&mut mgr, InstanceState::Ready, 0, 3600);
    stale_metrics(&mut mgr);

    autoscale(&mut mgr);

    assert_eq!(
        instance_count(&mgr),
        0,
        "genuinely idle instance past TTL must be despawned"
    );
}

#[test]
fn enqueue_refused_when_no_instances_exist() {
    let mut mgr = test_manager();
    let result = mgr.enqueue("m", 8, NOW);
    assert!(
        matches!(result, Err(EnqueueError::NoInstances)),
        "enqueue with no instances must fail fast"
    );
}

#[test]
fn parked_waiter_released_when_last_instance_removed() {
    let mut mgr = test_manager();
    let key = add(&mut mgr, InstanceState::Ready, 0, 0);
    mgr.queues.insert("m", vec![0]);
    mgr.next_queue_id = 1;

    assert_eq!(mgr.begin_removal("m", key, RemovalMode::IfIdle), Removal::Remove);
    let cleanup = mgr.unregister_instance("m", key);

    assert_eq!(
        cleanup.failed_waiters,
        vec![0],
        "waiter must be released when the last instance is removed"
    );
    assert_eq!(mgr.queue_depth("m"), 0);
}

#[test]
fn parked_waiter_kept_when_other_instances_remain() {
    let mut mgr = test_manager();
    let h1 = add_on_gpus(&mut mgr, vec![0], InstanceState::Ready, 0, 0);
    add_on_gpus(&mut mgr, vec![1], InstanceState::Ready, 0, 0);
    mgr.queues.insert("m", vec![0]);
    mgr.next_queue_id = 1;

    assert!(remove_instance(&mut mgr, h1));

    assert_eq!(instance_count(&mgr), 1);
    assert_eq!(
        mgr.queue_depth("m"),
        1,
        "waiter must stay parked while instances remain"
    );
}

#[test]
fn enqueue_self_wakes_when_capacity_already_free() {
    let mut mgr = test_manager();
    let key = add(&mut mgr, InstanceState::Ready, 0, 0);

    let (id, wake) = mgr.enqueue("m", 8, NOW).unwrap();
    assert_eq!(
        wake,
        Wake::Deliver { waiter: id, key },
        "waiter must be served by the wake after parking"
    );
    assert_eq!(instance(&mgr, key).in_flight, 1);
}

#[test]
fn wake_one_transfers_acquired_slot_to_waiter() {
    let mut mgr = test_manager();
    let key = add(&mut mgr, InstanceState::Ready, 1, 0);
    mgr.queues.insert("m", vec![0]);
    mgr.next_queue_id = 1;

    assert_eq!(mgr.wake_one("m", NOW), Wake::Deliver { waiter: 0, key });
    assert_eq!(
        instance(&mgr, key).in_flight,
        2,
        "the slot must be acquired atomically with the wake"
    );
    assert!(mgr.release_slot("m", key, NOW));
    assert_eq!(instance(&mgr, key).in_flight, 1);
}

#[test]
fn wake_one_reparks_waiter_at_head_when_capacity_vanishes() {
    let mut mgr = test_manager();
    add(&mut mgr, InstanceState::Ready, 4, 0);
    mgr.queues.insert("m", vec![7]);
    mgr.next_queue_id = 8;

    assert_eq!(mgr.wake_one("m", NOW), Wake::NoCapacity);

    assert_eq!(mgr.queue_depth("m"), 1, "waiter must be re-parked");
    assert_eq!(
        mgr.queues.get("m").unwrap()[0],
        7,
        "re-parked waiter must be back at the head"
    );
}

#[test]
fn remove_queued_drops_only_the_matching_entry() {
    let mut mgr = test_manager();
    mgr.queues.insert("m", vec![1, 2]);
    mgr.next_queue_id = 3;

    mgr.remove_queued("m", 1);

    assert_eq!(mgr.queues.get("m").unwrap(), &vec![2], "other waiter must stay parked");
    assert_eq!(mgr.queue_depth("m"), 1);
}

#[test]
fn pre_output_crashes_block_model_after_limit() {
    let mut mgr = test_manager();
    for _ in 0..3 {
        let key = add(&mut mgr, InstanceState::Loading, 0, 0);
        assert!(mgr.handle_crash("m", key).is_some());
    }
    assert!(mgr.is_blocked("m"), "model must be blocked after 3 pre-output crashes");
    assert_eq!(instance_count(&mgr), 0, "crashed instances must be unregistered");
    assert_eq!(CRASH_LIMIT, 3);
}

#[test]
fn post_output_crashes_do_not_block_model() {
    let mut mgr = test_manager();
    for _ in 0..5 {
        let key = add(&mut mgr, InstanceState::Ready, 0, 0);
        assert!(mgr.handle_crash("m", key).is_some());
    }
    assert!(!mgr.is_blocked("m"), "post-output crashes must not block the model");
    assert_eq!(instance_count(&mgr), 0, "crashed instances must be unregistered");
}

#[test]
fn crash_of_already_failed_instance_is_ignored() {
    let mut mgr = test_manager();
    let key = add(&mut mgr, InstanceState::Failed, 0, 0);
    assert!(mgr.handle_crash("m", key).is_none());
    assert!(!mgr.is_blocked("m"));
    assert_eq!(instance_count(&mgr), 1, "already-failed instance must be left alone");
}

#[test]
fn unblock_resets_crash_counter() {
    let mut mgr = test_manager();
    for _ in 0..2 {
        let key = add(&mut mgr, InstanceState::Loading, 0, 0);
        mgr.handle_crash("m", key);
    }
    mgr.unblock_model("m");
    for _ in 0..2 {
        let key = add(&mut mgr, InstanceState::Loading, 0, 0);
        mgr.handle_crash("m", key);
    }
    assert!(
        !mgr.is_blocked("m"),
        "counter reset on unblock: two fresh crashes must not reach the limit"
    );
}

#[test]
fn reconcile_unloads_removed_models_and_swaps_configs() {
    let mut mgr = test_manager();
    add(&mut mgr, InstanceState::Ready, 0, 0);
    mgr.block_model("m");

    reconcile(&mut mgr, config(vec![model("n")]));

    assert_eq!(instance_count(&mgr), 0, "removed model's instances must be unloaded");
    assert!(!mgr.settings.models.contains("m"));
    assert!(mgr.settings.models.contains("n"));
    assert!(!mgr.is_blocked("m"), "reload must clear blocked flags");
}

#[test]
fn reconcile_keeps_surviving_models_instances() {
    let mut mgr = test_manager();
    let key = add(&mut mgr, InstanceState::Ready, 0, 0);
    set_current_fingerprint(&mut mgr, key);

    reconcile(&mut mgr, config(vec![model("m")]));

    assert_eq!(instance_count(&mgr), 1, "surviving model's instance must be kept");
    assert_eq!(
        instance(&mgr, key).state,
        InstanceState::Ready,
        "unchanged spawn config must keep the instance routable"
    );
}

#[test]
fn reconcile_retires_stale_instances_and_reaps_after_drain() {
    let mut mgr = test_manager();
    let key = add(&mut mgr, InstanceState::Ready, 1, 0);
    set_current_fingerprint(&mut mgr, key);

    let mut changed = model("m");
    changed.cmd = "sleep 3601".to_owned();
    reconcile(&mut mgr, config(vec![changed]));

    assert_eq!(
        instance(&mgr, key).state,
        InstanceState::Failed,
        "stale instance must be marked unroutable"
    );
    assert_eq!(
        instance_count(&mgr),
        1,
        "stale instance with an in-flight request must keep serving"
    );
    assert!(
        mgr.acquire_ready_slot("m", 4, NOW).is_none(),
        "stale instance must not receive new requests"
    );
    assert!(!instance(&mgr, key).has_capacity(4));

    // The in-flight request completes, and the removal can finish.
    instance_mut(&mut mgr, key).in_flight = 0;
    let drained = mgr.reap_drained("m");
    unload(&mut mgr, drained);
    assert_eq!(instance_count(&mgr), 0, "retired instance must be reaped");
}

#[test]
fn reconcile_keeps_instances_when_only_routing_fields_change() {
    let mut mgr = test_manager();
    let key = add(&mut mgr, InstanceState::Ready, 0, 0);
    set_current_fingerprint(&mut mgr, key);

    let mut changed = model("m");
    changed.idle_ttl = 30;
    changed.max_concurrent = 8;
    changed.queue_depth = 3;
    reconcile(&mut mgr, config(vec![changed]));

    assert_eq!(
        instance(&mgr, key).state,
        InstanceState::Ready,
        "routing-only config changes must not retire instances"
    );
}

#[test]
fn spawn_cap_excludes_draining_instances() {
    let short_lived = || {
        let mut m = model("m");
        m.cmd = "true".to_owned();
        m
    };
    let mut mgr = InstanceManager::new(config(vec![short_lived()]), None);
    add(&mut mgr, InstanceState::Failed, 1, 0);

    let cfg = short_lived();
    let port = mgr
        .begin_spawn("m", &cfg, None, |_| true)
        .expect("spawn must be attempted despite the draining instance");
    let plan = mgr.plan_spawn(&cfg, &vec![], port).unwrap();
    assert_eq!(plan.program, "true");
    mgr.register_spawn("m", &cfg, &plan, NOW);
    assert_eq!(
        mgr.finish_spawn("m", plan.key, ReadyOutcome::ChildExited),
        SpawnEnd::Discard { crashed: true }
    );
    mgr.unregister_instance("m", plan.key);
    mgr.note_pre_output_crash("m");
    assert_eq!(
        mgr.crash_counts.get("m").copied(),
        Some(1),
        "spawn must have been attempted despite the draining instance"
    );
}

#[test]
fn enqueue_refused_when_only_draining_instances_exist() {
    let mut mgr = test_manager();
    add(&mut mgr, InstanceState::Failed, 0, 0);

    let result = mgr.enqueue("m", 8, NOW);
    assert!(
        matches!(result, Err(EnqueueError::NoInstances)),
        "enqueue with only retiring instances must fail fast"
    );
}

#[test]
fn enqueue_times_out_when_never_woken() {
    let mut mgr = test_manager();
    add(&mut mgr, InstanceState::Ready, 4, 0);

    let (id, wake) = mgr.enqueue("m", 8, NOW).unwrap();
    assert_eq!(wake, Wake::NoCapacity);
    assert_eq!(
        mgr.wait_over("m", id, WaitEnd::TimedOut, NOW),
        Err(AcquireError::NoCapacity)
    );
    assert_eq!(mgr.queue_depth("m"), 0, "timed-out waiter must self-remove");
}

#[test]
fn get_or_spawn_reports_blocked_and_unknown_models() {
    let mut mgr = test_manager();
    mgr.block_model("m");
    assert_eq!(
        mgr.get_or_spawn("m", |_, _| false, NOW),
        AcquireStep::Refused(AcquireError::Blocked)
    );
    assert_eq!(
        mgr.get_or_spawn("nonexistent", |_, _| false, NOW),
        AcquireStep::Refused(AcquireError::Unavailable)
    );
}

#[test]
fn ensure_instance_reports_spawn_failure_without_queueing() {
    let mut mgr = test_manager();
    assert_eq!(
        mgr.ensure_instance("m"),
        EnsureStep::AwaitSpawn {
            start: true,
            max_concurrent: 4
        }
    );
    // The spawn fails: no instance is there when it has ended.
    mgr.spawn_done("m");
    assert_eq!(mgr.ensured("m", 4), Err(AcquireError::Unavailable));
    assert_eq!(mgr.queue_depth("m"), 0);

    mgr.block_model("m");
    assert_eq!(
        mgr.ensure_instance("m"),
        EnsureStep::Refused(AcquireError::Blocked)
    );
}

fn same(a: &Fingerprint, b: &Fingerprint) -> bool {
    a.same(b)
}

#[test]
fn fingerprint_covers_cmd_aliases_devices_vram_context() {
    let base_model = model("m");
    let no_aliases: Vec<(String, String)> = vec![];
    let base = fingerprint_with_aliases(&no_aliases, &base_model);
    // Deterministic.
    assert!(same(&base, &fingerprint_with_aliases(&no_aliases, &base_model)));

    // cmd change: different fingerprint.
    let mut m2 = model("m");
    m2.cmd = "sleep 3601".into();
    assert!(!same(&base, &fingerprint_with_aliases(&no_aliases, &m2)));

    // vulkan_devices change: different fingerprint (order-insensitive).
    let mut m3 = model("m");
    m3.vulkan_devices = vec![1, 0];
    let mut m4 = model("m");
    m4.vulkan_devices = vec![0, 1];
    assert!(same(
        &fingerprint_with_aliases(&no_aliases, &m3),
        &fingerprint_with_aliases(&no_aliases, &m4)
    ));
    assert!(!same(&base, &fingerprint_with_aliases(&no_aliases, &m3)));

    // vram / context_length / gpus changes: different fingerprint.
    let mut m5 = model("m");
    m5.vram = 1024;
    assert!(!same(&base, &fingerprint_with_aliases(&no_aliases, &m5)));
    let mut m6 = model("m");
    m6.context_length = 8192;
    assert!(!same(&base, &fingerprint_with_aliases(&no_aliases, &m6)));
    let mut m6b = model("m");
    m6b.gpus = 2;
    assert!(!same(&base, &fingerprint_with_aliases(&no_aliases, &m6b)));

    // cmd_aliases resolving into the cmd: different fingerprint; unused
    // aliases: same fingerprint.
    let mut m7 = model("m");
    m7.cmd = "sleep {duration}".into();
    let mut aliases = vec![("duration".to_owned(), "3600".to_owned())];
    assert!(!same(
        &fingerprint_with_aliases(&no_aliases, &m7),
        &fingerprint_with_aliases(&aliases, &m7)
    ));
    aliases.push(("unused".to_owned(), "x".to_owned()));
    let only_unused = vec![("unused".to_owned(), "x".to_owned())];
    assert!(same(
        &fingerprint_with_aliases(&only_unused, &base_model),
        &fingerprint_with_aliases(&aliases, &base_model)
    ));

    // Routing-only fields must not affect the fingerprint.
    let mut m8 = model("m");
    m8.max_concurrent = 99;
    m8.queue_depth = 99;
    m8.idle_ttl = 99;
    m8.max_instances = 99;
    assert!(same(&base, &fingerprint_with_aliases(&no_aliases, &m8)));
}

#[test]
fn fingerprint_distinguishes_device_namespaces() {
    let plain = || {
        let mut m = model("m");
        m.cmd = "sleep 1".to_owned();
        m.vram = 1000;
        m
    };
    let base = plain();
    let mut vk = plain();
    vk.vulkan_devices = vec![0];
    let mut cu = plain();
    cu.cuda_devices = vec![0];
    let aliases: Vec<(String, String)> = vec![];
    assert!(
        !same(
            &fingerprint_with_aliases(&aliases, &vk),
            &fingerprint_with_aliases(&aliases, &cu)
        ),
        "switching namespaces must retire running instances"
    );
    assert!(
        !same(
            &fingerprint_with_aliases(&aliases, &base),
            &fingerprint_with_aliases(&aliases, &cu)
        ),
        "adding a cuda pool must change the fingerprint"
    );
}

#[test]
fn resolve_cmd_substitutes_context_length_and_port() {
    let mgr = test_manager();
    let mut cfg = model("x");
    cfg.context_length = 8192;
    cfg.cmd = "run --ctx-size {context_length} --port {port}".to_owned();
    assert_eq!(
        resolve_cmd(&mgr.settings, &cfg, 9999),
        "run --ctx-size 8192 --port 9999"
    );
}

#[test]
fn removing_one_of_two_same_id_instances_keeps_the_other() {
    let mut mgr = test_manager();
    let h1 = add_on_gpus(&mut mgr, vec![], InstanceState::Ready, 0, 0);
    let h2 = add_on_gpus(&mut mgr, vec![], InstanceState::Ready, 0, 0);
    assert_eq!(
        instance(&mgr, h1).id,
        instance(&mgr, h2).id,
        "test setup requires colliding base ids"
    );

    assert!(remove_instance(&mut mgr, h1));

    let list = mgr.instances.get("m").unwrap();
    assert_eq!(list.len(), 1, "only the targeted instance may be removed");
    assert_eq!(list[0].key, h2);
}

#[test]
fn short_idle_ttl_is_honored_for_last_instance() {
    let mut mgr = test_manager();
    add(&mut mgr, InstanceState::Ready, 0, 120);
    mgr.touch_activity("m", NOW);

    // Load averages, however high, do not count here.
    mgr.force_refresh(NOW);
    let plan = mgr.evaluate_autoscale("m", |_, _| true, |_, _| false, NOW);
    match plan.step {
        ScaleStep::Evict(keys) => unload(&mut mgr, keys),
        _ => panic!("the idle instance must be evicted"),
    }

    assert_eq!(
        instance_count(&mgr),
        0,
        "instance idle past its TTL must be despawned regardless of load EMAs"
    );
}

#[test]
fn surplus_idle_instances_evicted_without_autoscale() {
    let mut mgr = test_manager();
    add_on_gpus(&mut mgr, vec![0], InstanceState::Ready, 0, 3600);
    let busy = add_on_gpus(&mut mgr, vec![1], InstanceState::Ready, 1, 0);

    autoscale(&mut mgr);

    assert_eq!(instance_count(&mgr), 1, "idle surplus instance must be evicted");
    assert_eq!(
        mgr.instances.get("m").unwrap()[0].key,
        busy,
        "the busy instance must be the survivor"
    );
}

#[test]
fn surplus_fresh_instances_kept_without_autoscale() {
    let mut mgr = test_manager();
    add_on_gpus(&mut mgr, vec![0], InstanceState::Ready, 0, 0);
    add_on_gpus(&mut mgr, vec![1], InstanceState::Ready, 0, 0);

    autoscale(&mut mgr);

    assert_eq!(instance_count(&mgr), 2, "fresh instances must be kept");
}

#[test]
fn busy_instance_is_drained_not_killed() {
    let mut mgr = test_manager();
    let key = add(&mut mgr, InstanceState::Ready, 1, 0);

    let (idle, draining) = mgr.unload_model("m");
    assert_eq!((idle.len(), draining), (0, 1));
    assert_eq!(instance_count(&mgr), 1, "busy instance must survive");
    assert_eq!(
        instance(&mgr, key).state,
        InstanceState::Failed,
        "busy instance must be marked unroutable"
    );
    // No new slots may be acquired on a draining instance.
    assert!(!instance(&mgr, key).has_capacity(4));

    // The in-flight request completes, and the removal can finish.
    instance_mut(&mut mgr, key).in_flight = 0;
    let drained = mgr.reap_drained("m");
    unload(&mut mgr, drained);
    assert_eq!(instance_count(&mgr), 0, "drained instance must be reaped");
}

#[test]
fn if_idle_removal_leaves_busy_instance_untouched() {
    let mut mgr = test_manager();
    let key = add(&mut mgr, InstanceState::Ready, 1, 0);

    assert!(!remove_instance(&mut mgr, key));
    assert_eq!(instance_count(&mgr), 1);
    assert_eq!(instance(&mgr, key).state, InstanceState::Ready);
}

#[test]
fn touch_activity_resets_idle_clock() {
    let mut mgr = test_manager();
    stale_metrics(&mut mgr);

    mgr.touch_activity("m", NOW);

    let last = mgr.model_metrics.get("m").unwrap().last_activity;
    assert!(
        NOW - last < 5 * NANOS_PER_SEC,
        "touch_activity must reset last_activity to now"
    );
}

#[test]
fn autoscale_reaps_instance_stranded_in_loading() {
    let mut mgr = test_manager();
    add(&mut mgr, InstanceState::Loading, 0, 3600);

    autoscale(&mut mgr);

    assert_eq!(
        instance_count(&mgr),
        0,
        "instance stranded in Loading must be reaped"
    );
}

#[test]
fn ensure_spawn_runs_detached_and_clears_entry() {
    let mut mgr = test_manager();
    assert!(mgr.ensure_spawn("m"));
    assert!(
        mgr.spawns_in_flight.contains("m"),
        "spawn entry must be registered while the spawn runs"
    );
    // Others only wait for the spawn under way.
    assert!(!mgr.ensure_spawn("m"));

    mgr.spawn_done("m");
    assert!(
        !mgr.spawns_in_flight.contains("m"),
        "spawn entry must be gone after completion"
    );
    assert_eq!(
        instance_count(&mgr),
        0,
        "the failed instance must be unregistered"
    );
}

#[test]
fn double_unregister_is_a_no_op() {
    let mut mgr = test_manager();
    let key = add(&mut mgr, InstanceState::Failed, 0, 0);

    assert!(mgr.unregister_instance("m", key).removed);
    assert_eq!(instance_count(&mgr), 0);
    // Second call: no state change.
    let again = mgr.unregister_instance("m", key);
    assert!(!again.removed && again.failed_waiters.is_empty() && again.keepalive.is_empty());
    assert_eq!(instance_count(&mgr), 0);
}

// ── More of the same ────────────────────────────────────────────────────────

#[test]
fn the_queue_is_first_in_first_out_and_bounded() {
    let mut mgr = test_manager();
    let key = add(&mut mgr, InstanceState::Ready, 4, 0);
    let (a, _) = mgr.enqueue("m", 2, NOW).unwrap();
    let (b, _) = mgr.enqueue("m", 2, NOW).unwrap();
    assert!(matches!(mgr.enqueue("m", 2, NOW), Err(EnqueueError::QueueFull)));
    mgr.release_slot("m", key, NOW);
    assert_eq!(mgr.wake_one("m", NOW), Wake::Deliver { waiter: a, key });
    assert_eq!(mgr.wake_one("m", NOW), Wake::NoCapacity);
    mgr.release_slot("m", key, NOW);
    assert_eq!(mgr.wake_one("m", NOW), Wake::Deliver { waiter: b, key });
    assert_eq!(mgr.wake_one("m", NOW), Wake::Nobody);
}

#[test]
fn the_least_busy_instance_is_picked() {
    let mut mgr = test_manager();
    add(&mut mgr, InstanceState::Ready, 2, 0);
    let idle = add(&mut mgr, InstanceState::Ready, 1, 0);
    add(&mut mgr, InstanceState::Loading, 0, 0);
    assert_eq!(mgr.acquire_ready_slot("m", 4, NOW), Some(idle));
    assert_eq!(instance(&mgr, idle).in_flight, 2);
}

#[test]
fn a_cold_start_spawns() {
    let mut mgr = test_manager();
    assert_eq!(
        mgr.get_or_spawn("m", |_, _| false, NOW),
        AcquireStep::AwaitSpawn {
            start: true,
            max_concurrent: 4,
            queue_depth: 10
        }
    );
    assert_eq!(
        mgr.get_or_spawn("m", |_, _| false, NOW),
        AcquireStep::AwaitSpawn {
            start: false,
            max_concurrent: 4,
            queue_depth: 10
        }
    );
    let key = add(&mut mgr, InstanceState::Ready, 0, 0);
    mgr.spawn_done("m");
    assert_eq!(mgr.after_spawn("m", 4, 10, NOW), AcquireStep::Slot(key));
}

#[test]
fn a_full_model_parks_the_request() {
    let mut scaled = model("m");
    scaled.autoscale = Some(AutoscaleConfig {
        enabled: true,
        scale_up_at: 0.7f64.to_bits(),
        scale_down_at: 0.4f64.to_bits(),
        cooldown_secs: 120,
    });
    let mut mgr = InstanceManager::new(config(vec![scaled]), None);
    add(&mut mgr, InstanceState::Ready, 4, 0);
    let step = mgr.get_or_spawn("m", |_, _| false, NOW);
    match step {
        AcquireStep::Parked { id, wake } => {
            assert_eq!(wake, Wake::NoCapacity);
            assert_eq!(mgr.queues.get("m").unwrap(), &vec![id]);
        }
        other => panic!("expected a parked request, got {other:?}"),
    }
}

#[test]
fn waits_end_in_a_slot_or_an_error() {
    let mut mgr = test_manager();
    assert_eq!(mgr.wait_over("m", 1, WaitEnd::Delivered, NOW), Ok(()));
    assert_eq!(
        mgr.wait_over("m", 1, WaitEnd::QueueGone, NOW),
        Err(AcquireError::Unavailable)
    );
    assert_eq!(spawn_wait_budget(), 165);
    assert_eq!(queue_wait_budget(), 195);
}

#[test]
fn scaling_up_and_down_follows_the_load() {
    let scaled = || {
        let mut m = model("m");
        m.max_instances = 3;
        m.autoscale = Some(AutoscaleConfig {
            enabled: true,
            scale_up_at: 0.7f64.to_bits(),
            scale_down_at: 0.4f64.to_bits(),
            cooldown_secs: 120,
        });
        m
    };
    let mut mgr = InstanceManager::new(config(vec![scaled()]), None);
    add(&mut mgr, InstanceState::Ready, 1, 0);
    mgr.force_refresh(NOW);
    let load_above = |load: f64| move |bits: u64, cap: u128| load > f64::from_bits(bits) * cap as f64;
    let load_below = |load: f64| move |bits: u64, cap: u128| load < f64::from_bits(bits) * cap as f64;
    let plan = mgr.evaluate_autoscale("m", load_above(3.0), load_below(3.0), NOW);
    assert!(matches!(plan.step, ScaleStep::ScaleUp));
    // Within the cooldown nothing more happens.
    let plan = mgr.evaluate_autoscale("m", load_above(3.0), load_below(3.0), NOW);
    assert!(matches!(plan.step, ScaleStep::Nothing));
    let later = NOW + 121 * NANOS_PER_SEC;
    let idle = add(&mut mgr, InstanceState::Ready, 0, 0);
    let plan = mgr.evaluate_autoscale("m", load_above(0.5), load_below(0.5), NOW + 10);
    assert!(matches!(plan.step, ScaleStep::Nothing));
    mgr.instances.get_mut("m").unwrap()[1].last_active = later;
    let plan = mgr.evaluate_autoscale("m", load_above(0.5), load_below(0.5), later);
    match plan.step {
        ScaleStep::ScaleDown(key) => assert_eq!(key, idle),
        _ => panic!("the idle instance must go"),
    }
}

#[test]
fn a_plan_holds_the_words_of_the_command() {
    let quoted = || {
        let mut m = model("m");
        m.cmd = "run --name '{name} one' --port {port}".to_owned();
        m
    };
    let mut mgr = InstanceManager::new(config(vec![quoted()]), None);
    let cfg = quoted();
    let port = mgr.begin_spawn("m", &cfg, None, |_| true).unwrap();
    assert_eq!(port, 9000);
    let plan = mgr.plan_spawn(&cfg, &vec![], port).unwrap();
    assert_eq!(plan.program, "run");
    assert_eq!(plan.args, vec!["--name", "m one", "--port", "9000"]);
    assert!(plan.envs.is_empty() && plan.gpu_indices.is_empty());
    // The cap is reached once the instance is registered.
    mgr.register_spawn("m", &cfg, &plan, NOW);
    assert!(mgr.begin_spawn("m", &cfg, None, |_| true).is_none());
    mgr.mark_ready("m", plan.key);
    assert_eq!(
        mgr.finish_spawn("m", plan.key, ReadyOutcome::Ready),
        SpawnEnd::Serving
    );
    assert_eq!(mgr.instances.get("m").unwrap()[0].id, "m@cpu#0");
}

#[test]
fn a_command_that_cannot_be_read_is_refused() {
    let broken = || {
        let mut m = model("m");
        m.cmd = "run 'unclosed".to_owned();
        m
    };
    let mut mgr = InstanceManager::new(config(vec![broken()]), None);
    let cfg = broken();
    let port = mgr.begin_spawn("m", &cfg, None, |_| true).unwrap();
    assert!(matches!(
        mgr.plan_spawn(&cfg, &vec![], port),
        Err(SpawnRefusal::BadCommand)
    ));
    mgr.abandon_spawn(port);
    assert_eq!(mgr.ports.used_count(), 0);
}

#[test]
fn watching_reports_unexpected_exits_only() {
    let mut mgr = test_manager();
    let key = add(&mut mgr, InstanceState::Ready, 0, 0);
    assert_eq!(mgr.watch_step("m", key, ChildStatus::Running), WatchStep::Continue);
    assert_eq!(mgr.watch_step("m", key, ChildStatus::Exited), WatchStep::Report);
    assert_eq!(mgr.watch_step("m", key, ChildStatus::Unknown), WatchStep::Report);
    assert_eq!(mgr.watch_step("m", key, ChildStatus::Taken), WatchStep::Quit);
    instance_mut(&mut mgr, key).state = InstanceState::Failed;
    assert_eq!(mgr.watch_step("m", key, ChildStatus::Exited), WatchStep::Quit);
}

#[test]
fn recent_completions_are_bounded() {
    let mut mgr = test_manager();
    for i in 0..8 {
        mgr.record_completion(
            "m",
            CompletionRecord {
                ts: format!("{i}"),
                request_id: "r".to_owned(),
                instance_id: "m@cpu#0".to_owned(),
                api_user: "u".to_owned(),
                prompt_tokens: 1,
                generated_tokens: 2,
                cached_tokens: 0,
                duration_ms: 3,
            },
        );
    }
    let kept = mgr.recent_completions.get("m").unwrap();
    assert_eq!(kept.len(), RECENT_COMPLETIONS);
    assert!(kept.iter().any(|r| r.ts == "7"));
    assert!(!kept.iter().any(|r| r.ts == "2"));
}

#[test]
fn loading_dots_follow_the_model_and_the_server() {
    let mut cfg = config(vec![model("m")]);
    cfg.server.loading_dots = Some(5);
    cfg.models[0].loading_dots = Some(7);
    let mgr = InstanceManager::new(cfg, None);
    assert_eq!(mgr.loading_dots_interval("m"), Some(7));
    assert_eq!(test_manager().loading_dots_interval("m"), None);
}

#[test]
fn shutting_down_lists_every_instance() {
    let mut mgr = test_manager();
    let a = add(&mut mgr, InstanceState::Ready, 1, 0);
    let b = add(&mut mgr, InstanceState::Loading, 0, 0);
    assert_eq!(mgr.instance_counts(), vec![("m".to_owned(), 2)]);
    let all = mgr.shutdown_all();
    assert_eq!(all, vec![("m".to_owned(), a), ("m".to_owned(), b)]);
    assert!(mgr.acquire_ready_slot("m", 4, NOW).is_none());
}

#[test]
fn metrics_events_queue_a_tick() {
    let mut mgr = test_manager();
    mgr.record_metrics_event("m", 1, NOW);
    mgr.record_metrics_event("m", 1, NOW + NANOS_PER_SEC);
    let ticks = mgr.take_ticks();
    assert!(ticks.iter().all(|(name, _)| name == "m"));
    assert_eq!(mgr.model_metrics.get("m").unwrap().completions_total, 2);
    assert!(mgr.take_ticks().is_empty());
}

#[test]
fn a_removal_undoes_a_spawn() {
    let mut mgr = test_manager();
    let cfg = model("m");
    let mut ids = Vec::new();
    for _ in 0..2 {
        let port = mgr.begin_spawn("m", &cfg, None, |_| true).unwrap();
        let plan = mgr.plan_spawn(&cfg, &vec![], port).unwrap();
        mgr.register_spawn("m", &cfg, &plan, NOW);
        assert_eq!(instance_count(&mgr), 1);
        assert_eq!(mgr.ports.used_count(), 1);
        ids.push(mgr.instances.get("m").unwrap()[0].id.clone());
        assert!(mgr.unregister_instance("m", plan.key).removed);
        assert_eq!(instance_count(&mgr), 0);
        assert_eq!(mgr.ports.used_count(), 0);
    }
    assert_ne!(ids[0], ids[1], "ids must not be used twice");
}

#[test]
fn unused_fragments_do_not_change_the_fingerprint() {
    let m = model("m");
    let none = vec![];
    let unused = vec![("flags".to_owned(), "--verbose".to_owned())];
    assert!(same(
        &fingerprint_with_aliases(&none, &m),
        &fingerprint_with_aliases(&unused, &m)
    ));
}

#[test]
fn settings_that_take_more_than_a_swap_are_noticed() {
    let before = config(vec![model("m")]);
    let mut after = config(vec![model("m")]);
    assert!(!listen_changed(&before, &after) && !keys_path_changed(&before, &after));
    after.server.listen = "0.0.0.0:8080".to_owned();
    assert!(listen_changed(&before, &after) && !keys_path_changed(&before, &after));
    after.apikeys_file = "/etc/llm/apikeys.txt".to_owned();
    assert!(keys_path_changed(&before, &after));
}

#[test]
fn a_spawn_and_its_removal_balance_the_keep_alive() {
    let slot = "0000:01:00.0";
    let on_gpu = || {
        let mut m = model("m");
        m.vulkan_devices = vec![0];
        m
    };
    let mut cfg = config(vec![on_gpu()]);
    cfg.devices = Some(DevicesConfig {
        vulkan: vec![(0, slot.to_owned())],
        cuda: vec![],
        vram_limit_mb: vec![],
    });
    let mut cards = NameMap::new();
    cards.insert(slot, 3);
    let keep_alive = KeepAliveManager::new(
        Some(KeepAliveConfig {
            amd: Some(GpuKeepAlive {
                cmd: "touch {index}".to_owned(),
                sleep: 5,
            }),
        }),
        cards,
    );
    let mut mgr = InstanceManager::new(cfg, keep_alive);
    let gpus = vec![GpuMetrics {
        index: 3,
        pci_slot: slot.to_owned(),
        vram_vendor: None,
        vram_total_bytes: 1 << 30,
        vram_used_bytes: 0,
        temperature: Reading::Missing,
        power: Reading::Missing,
        gpu_busy_pct: None,
        sclk_mhz: None,
        mclk_mhz: None,
    }];

    let port = mgr.begin_spawn("m", &on_gpu(), None, |_| true).unwrap();
    let plan = mgr.plan_spawn(&on_gpu(), &gpus, port).unwrap();
    assert_eq!(plan.gpu_indices, vec![0]);
    let started = mgr.register_spawn("m", &on_gpu(), &plan, NOW);
    assert!(matches!(
        started.as_slice(),
        [KeepAliveAction::Start { card: 3, .. }]
    ));
    let cleanup = mgr.unregister_instance("m", plan.key);
    assert!(matches!(
        cleanup.keepalive.as_slice(),
        [KeepAliveAction::Stop { .. }]
    ));
    assert!(mgr.stop_keepalive().is_empty(), "nothing is left to stop");

    let port = mgr.begin_spawn("m", &on_gpu(), None, |_| true).unwrap();
    let plan = mgr.plan_spawn(&on_gpu(), &gpus, port).unwrap();
    mgr.register_spawn("m", &on_gpu(), &plan, NOW);
    assert_eq!(mgr.stop_keepalive().len(), 1);
}

#[test]
fn a_cpu_only_launch_of_llama_is_kept_off_the_gpu() {
    let args_of = |cmd: &str| {
        let on_cpu = || {
            let mut m = model("m");
            m.cmd = cmd.to_owned();
            m
        };
        let mut mgr = InstanceManager::new(config(vec![on_cpu()]), None);
        let cfg = on_cpu();
        let port = mgr.begin_spawn("m", &cfg, None, |_| true).unwrap();
        mgr.plan_spawn(&cfg, &vec![], port).unwrap().args
    };
    assert_eq!(
        args_of("llama-server --port {port}"),
        vec!["--port", "9000", "--n-gpu-layers", "0"]
    );
    assert_eq!(
        args_of("llama-server --n-gpu-layers 0"),
        vec!["--n-gpu-layers", "0"]
    );
    assert_eq!(args_of("vllm --port {port}"), vec!["--port", "9000"]);
}

//! Placement of instances on devices.

use llm_orch::config::{
    Config, CudaDeviceConfig, DevicesConfig, ModelConfig, PortRange, ServerConfig,
};
use llm_orch::gpu::{GpuMetrics, Reading};
use llm_orch::instance::{Instance, InstanceState};
use llm_orch::placement::select_gpus_for_model;
use llm_orch::scheduler::InstanceManager;

fn model(name: &str) -> ModelConfig {
    ModelConfig {
        name: name.to_owned(),
        context_length: 4096,
        max_instances: 1,
        max_concurrent: 4,
        priority: 0,
        vram: 0,
        ram: 0,
        idle_ttl: 60,
        queue_depth: 10,
        cmd: "sleep 3600".to_owned(),
        vulkan_devices: vec![],
        cuda_devices: vec![],
        gpus: 1,
        debug_log: None,
        autoscale: None,
        loading_dots: None,
    }
}

fn config(models: Vec<ModelConfig>) -> Config {
    Config {
        server: ServerConfig {
            listen: "127.0.0.1:8080".to_owned(),
            port_range: PortRange::Range {
                start: 9000,
                end: 9010,
            },
            backend_total_timeout_secs: 900,
            backend_idle_timeout_secs: 300,
            shutdown_drain_timeout_secs: 60,
            loading_dots: None,
        },
        apikeys_file: "apikeys.txt".to_owned(),
        cmd_aliases: vec![],
        models,
        aliases: vec![],
        devices: None,
        keep_alive: None,
    }
}

fn gpu_metrics(index: usize, slot: &str, total_mb: u64) -> GpuMetrics {
    GpuMetrics {
        index,
        pci_slot: slot.to_owned(),
        vram_vendor: None,
        vram_total_bytes: total_mb * 1024 * 1024,
        vram_used_bytes: 0,
        temperature: Reading::Missing,
        power: Reading::Missing,
        gpu_busy_pct: None,
        sclk_mhz: None,
        mclk_mhz: None,
    }
}

fn big() -> ModelConfig {
    let mut m = model("big");
    m.vram = 20000;
    m.gpus = 2;
    m.vulkan_devices = vec![0, 1, 2, 3];
    m
}

fn multi_gpu_manager() -> (InstanceManager, Vec<GpuMetrics>) {
    let mut cfg = config(vec![big()]);
    cfg.devices = Some(DevicesConfig {
        vulkan: vec![
            (0, "0000:01:00.0".to_owned()),
            (1, "0000:02:00.0".to_owned()),
            (2, "0000:03:00.0".to_owned()),
            (3, "0000:04:00.0".to_owned()),
        ],
        cuda: vec![],
        vram_limit_mb: vec![],
    });
    let snapshot = vec![
        gpu_metrics(0, "0000:01:00.0", 48000),
        gpu_metrics(1, "0000:02:00.0", 48000),
        gpu_metrics(2, "0000:03:00.0", 48000),
        gpu_metrics(3, "0000:04:00.0", 48000),
    ];
    (InstanceManager::new(cfg, None), snapshot)
}

fn register_ready(mgr: &mut InstanceManager, name: &str, gpus: Vec<usize>, port: u16) {
    let mut inst = Instance::new(name, gpus, port, 0);
    inst.key = mgr.next_key;
    mgr.next_key += 1;
    inst.state = InstanceState::Ready;
    match mgr.instances.get_mut(name) {
        Some(list) => {
            list.push(inst);
        }
        None => {
            mgr.instances.insert(name, vec![inst]);
        }
    }
}

fn select(mgr: &InstanceManager, gpus: &Vec<GpuMetrics>, cfg: &ModelConfig) -> Vec<usize> {
    select_gpus_for_model(&mgr.settings, &mgr.instances, gpus, cfg)
}

#[test]
fn select_picks_two_distinct_gpus_and_complement_for_second_instance() {
    let (mut mgr, gpus) = multi_gpu_manager();
    let cfg = big();

    let first = select(&mgr, &gpus, &cfg);
    assert_eq!(first.len(), 2);
    assert_ne!(first[0], first[1], "devices must be distinct");

    // The second instance must get the complement (same-model exclusion).
    register_ready(&mut mgr, "big", first.clone(), 54321);
    let second = select(&mgr, &gpus, &cfg);
    assert_eq!(second.len(), 2);
    assert!(
        second.iter().all(|d| !first.contains(d)),
        "second instance must avoid devices of the first: {first:?} vs {second:?}"
    );
    let mut all: Vec<usize> = first.iter().chain(second.iter()).copied().collect();
    all.sort_unstable();
    assert_eq!(all, vec![0, 1, 2, 3], "both instances tile the whole pool");

    // Pool exhausted: a third instance finds no placement.
    register_ready(&mut mgr, "big", second.clone(), 54322);
    assert!(select(&mgr, &gpus, &cfg).is_empty());
}

fn small(vulkan: Vec<usize>, cuda: Vec<usize>) -> ModelConfig {
    let mut m = model("small");
    m.cmd = "sleep 1".to_owned();
    m.vram = 30000;
    m.vulkan_devices = vulkan;
    m.cuda_devices = cuda;
    m
}

#[test]
fn select_respects_per_gpu_vram_shares() {
    // An instance occupying 2 x 20000 leaves 28000 free on each of its
    // GPUs; a 30000 single-GPU model must avoid those two.
    let (mut mgr, gpus) = multi_gpu_manager();
    register_ready(&mut mgr, "big", vec![0, 1], 54321);

    let placement = select(&mgr, &gpus, &small(vec![0, 1, 2, 3], vec![]));
    assert_eq!(placement.len(), 1);
    assert!(
        placement[0] == 2 || placement[0] == 3,
        "must avoid GPUs with only 28000 MB free, got {placement:?}"
    );
}

#[test]
fn select_refuses_when_pool_cannot_satisfy_gpus() {
    let (mut mgr, gpus) = multi_gpu_manager();
    register_ready(&mut mgr, "big", vec![0, 1], 54321);
    register_ready(&mut mgr, "big", vec![2], 54322);

    let placement = select(&mgr, &gpus, &big());
    assert!(
        placement.is_empty(),
        "fewer candidates than gpus must yield no placement, got {placement:?}"
    );
}

fn cuda_big() -> ModelConfig {
    let mut m = model("big");
    m.vram = 20000;
    m.gpus = 2;
    m.cuda_devices = vec![0, 1, 2, 3];
    m
}

fn cuda_device(pci: &str, vram_mb: Option<u64>) -> CudaDeviceConfig {
    CudaDeviceConfig {
        pci: pci.to_owned(),
        vram_mb,
    }
}

fn cuda_config(models: Vec<ModelConfig>, cuda: Vec<(usize, CudaDeviceConfig)>) -> Config {
    let mut cfg = config(models);
    cfg.devices = Some(DevicesConfig {
        vulkan: vec![],
        cuda,
        vram_limit_mb: vec![],
    });
    cfg
}

fn cuda_gpu_manager(more: Vec<ModelConfig>) -> (InstanceManager, Vec<GpuMetrics>) {
    let mut models = vec![cuda_big()];
    models.extend(more);
    let cfg = cuda_config(
        models,
        vec![
            (0, cuda_device("0000:0a:00.0", None)),
            (1, cuda_device("0000:0b:00.0", None)),
            (2, cuda_device("0000:0c:00.0", None)),
            (3, cuda_device("0000:0d:00.0", None)),
        ],
    );
    let snapshot = vec![
        gpu_metrics(0, "0000:0a:00.0", 48000),
        gpu_metrics(1, "0000:0b:00.0", 48000),
        gpu_metrics(2, "0000:0c:00.0", 48000),
        gpu_metrics(3, "0000:0d:00.0", 48000),
    ];
    (InstanceManager::new(cfg, None), snapshot)
}

#[test]
fn cuda_select_tiles_pool_across_instances() {
    let (mut mgr, gpus) = cuda_gpu_manager(vec![]);
    let cfg = cuda_big();

    let first = select(&mgr, &gpus, &cfg);
    assert_eq!(first.len(), 2);
    assert_ne!(first[0], first[1], "devices must be distinct");

    register_ready(&mut mgr, "big", first.clone(), 54321);
    let second = select(&mgr, &gpus, &cfg);
    assert_eq!(second.len(), 2);
    assert!(
        second.iter().all(|d| !first.contains(d)),
        "second instance must avoid devices of the first: {first:?} vs {second:?}"
    );

    register_ready(&mut mgr, "big", second.clone(), 54322);
    assert!(select(&mgr, &gpus, &cfg).is_empty());
}

#[test]
fn cuda_select_respects_per_gpu_vram_shares() {
    let (mut mgr, gpus) = cuda_gpu_manager(vec![small(vec![], vec![0, 1, 2, 3])]);
    register_ready(&mut mgr, "big", vec![0, 1], 54321);

    let placement = select(&mgr, &gpus, &small(vec![], vec![0, 1, 2, 3]));
    assert_eq!(placement.len(), 1);
    assert!(
        placement[0] == 2 || placement[0] == 3,
        "must avoid GPUs with only 28000 MB free, got {placement:?}"
    );
}

#[test]
fn cuda_select_refuses_when_pool_cannot_satisfy_gpus() {
    let (mut mgr, gpus) = cuda_gpu_manager(vec![]);
    register_ready(&mut mgr, "big", vec![0, 1], 54321);
    register_ready(&mut mgr, "big", vec![2], 54322);

    assert!(
        select(&mgr, &gpus, &cuda_big()).is_empty(),
        "fewer candidates than gpus must yield no placement"
    );
}

fn cuda_model(name: &str, vram: u64, pool: Vec<usize>) -> ModelConfig {
    let mut m = model(name);
    m.vram = vram;
    m.cuda_devices = pool;
    m
}

#[test]
fn cuda_static_vram_mb_is_fallback_without_metrics() {
    let fits = || cuda_model("fits", 20000, vec![0, 1]);
    let toobig = || cuda_model("toobig", 30000, vec![0, 1]);
    let mgr = InstanceManager::new(
        cuda_config(
            vec![fits(), toobig()],
            vec![
                (0, cuda_device("0000:0a:00.0", Some(24000))),
                (1, cuda_device("0000:0b:00.0", Some(24000))),
            ],
        ),
        None,
    );

    let placement = select(&mgr, &vec![], &fits());
    assert_eq!(placement.len(), 1, "static vram_mb must enable placement without metrics");
    assert!(
        select(&mgr, &vec![], &toobig()).is_empty(),
        "model exceeding the static total must find no placement"
    );
}

#[test]
fn cuda_static_vram_mb_caps_metrics_total() {
    let m = || cuda_model("m", 30000, vec![0]);
    let mgr = InstanceManager::new(
        cuda_config(vec![m()], vec![(0, cuda_device("0000:0a:00.0", Some(24000)))]),
        None,
    );
    assert!(
        select(&mgr, &vec![gpu_metrics(0, "0000:0a:00.0", 48000)], &m()).is_empty(),
        "vram_mb must cap capacity below the metrics-reported total"
    );
}

#[test]
fn cuda_device_without_metrics_or_static_vram_is_unusable() {
    let m = || cuda_model("m", 1000, vec![0]);
    let mgr = InstanceManager::new(
        cuda_config(vec![m()], vec![(0, cuda_device("0000:0a:00.0", None))]),
        None,
    );
    assert!(select(&mgr, &vec![], &m()).is_empty());
}

#[test]
fn a_limit_caps_a_vulkan_device() {
    let (mut mgr, gpus) = multi_gpu_manager();
    mgr.settings.vram_limits = vec![(0, 10_000 * 1_048_576), (1, 10_000 * 1_048_576)];
    let mut placement = select(&mgr, &gpus, &big());
    placement.sort_unstable();
    assert_eq!(placement, vec![2, 3]);
}

#[test]
fn devices_reach_the_plan() {
    let (mut mgr, gpus) = cuda_gpu_manager(vec![]);
    let cfg = cuda_big();
    let port = mgr.begin_spawn("big", &cfg, None, |_| true).unwrap();
    let plan = mgr.plan_spawn(&cfg, &gpus, port).unwrap();
    assert_eq!(plan.gpu_indices.len(), 2);
    assert_eq!(plan.envs.len(), 1);
    assert_eq!(plan.envs[0].0, "CUDA_VISIBLE_DEVICES");
}

#[test]
fn a_device_named_twice_is_one_device() {
    let mut m = big();
    m.vulkan_devices = vec![0, 0, 1];
    m.vram = 100;
    let mut cfg = config(vec![]);
    cfg.devices = Some(DevicesConfig {
        vulkan: vec![(0, "0000:01:00.0".to_owned()), (1, "0000:02:00.0".to_owned())],
        cuda: vec![],
        vram_limit_mb: vec![],
    });
    let mgr = InstanceManager::new(cfg, None);
    let gpus = vec![
        gpu_metrics(0, "0000:01:00.0", 1000),
        gpu_metrics(1, "0000:02:00.0", 1000),
    ];
    let chosen = select_gpus_for_model(&mgr.settings, &mgr.instances, &gpus, &m);
    assert_eq!(chosen, vec![0, 1]);
    m.vulkan_devices = vec![0, 0];
    let chosen = select_gpus_for_model(&mgr.settings, &mgr.instances, &gpus, &m);
    assert!(chosen.is_empty());
}

#[test]
fn a_full_device_takes_only_what_declares_no_vram() {
    let (mut mgr, gpus) = multi_gpu_manager();
    let placement = select(&mgr, &gpus, &small(vec![0], vec![]));
    assert_eq!(placement, vec![0], "the first instance of a model is placed");
    register_ready(&mut mgr, "big", vec![0, 1], 54321);
    register_ready(&mut mgr, "big", vec![0, 1], 54322);
    // Of 48000 MB, 40000 are reserved.
    assert!(select(&mgr, &gpus, &small(vec![0], vec![])).is_empty());
    let mut free = small(vec![0], vec![]);
    free.vram = 0;
    assert_eq!(select(&mgr, &gpus, &free), vec![0]);
}

//! Configuration rules.

use llm_orch::backend::OffloadDecl;
use llm_orch::config::{
    default_autoscale_cooldown, default_backend_idle_timeout, default_backend_total_timeout,
    default_context_length, default_drain_timeout, default_gpus, default_idle_ttl, default_keepalive_sleep,
    default_listen, default_max_concurrent, default_max_instances, default_queue_depth,
    default_shutdown_drain_timeout, requested_offload, resolve_apikeys_file, AliasConfig, AliasPolicy, AutoscaleConfig,
    Config, ConfigError, CudaDeviceConfig, DevicesConfig, GpuKeepAlive, KeepAliveConfig,
    MakeRoomMode, ModelConfig, PortRange, ServerConfig,
};

fn model(name: &str) -> ModelConfig {
    ModelConfig {
        name: name.to_owned(),
        context_length: default_context_length(),
        max_instances: 1,
        max_concurrent: 4,
        priority: 0,
        vram: 0,
        ram: 0,
        idle_ttl: 600,
        queue_depth: 16,
        cmd: "sleep 3600".to_owned(),
        vulkan_devices: vec![],
        cuda_devices: vec![],
        gpus: 1,
        debug_log: None,
        autoscale: None,
        loading_dots: None,
    }
}

fn base() -> Config {
    Config {
        server: ServerConfig {
            listen: "127.0.0.1:8080".to_owned(),
            port_range: PortRange::default(),
            backend_total_timeout_secs: 600,
            backend_idle_timeout_secs: 120,
            shutdown_drain_timeout_secs: 30,
            loading_dots: None,
        },
        apikeys_file: "apikeys.txt".to_owned(),
        cmd_aliases: vec![],
        models: vec![model("m")],
        aliases: vec![],
        devices: None,
        keep_alive: None,
    }
}

fn no_devices() -> DevicesConfig {
    DevicesConfig {
        vulkan: vec![],
        cuda: vec![],
        vram_limit_mb: vec![],
    }
}

fn cuda(pci: &str, vram_mb: Option<u64>) -> CudaDeviceConfig {
    CudaDeviceConfig {
        pci: pci.to_owned(),
        vram_mb,
    }
}

fn slots() -> Vec<String> {
    vec!["0000:00:00.0".to_owned(), "0000:01:00.0".to_owned()]
}

fn check(cfg: &Config) -> Result<(), ConfigError> {
    cfg.validate(&slots(), &slots())
}

fn expect_validation_error(cfg: &Config, needle: &str) {
    match check(cfg) {
        Err(ConfigError::Validation(msg)) => assert!(
            msg.contains(needle),
            "error '{msg}' must contain '{needle}'"
        ),
        other => panic!("expected validation error containing '{needle}', got {other:?}"),
    }
}

#[test]
fn base_config_is_valid() {
    check(&base()).unwrap();
}

#[test]
fn context_length_defaults_when_omitted() {
    let cfg = base();
    check(&cfg).unwrap();
    assert_eq!(cfg.models[0].context_length, 4096);
}

#[test]
fn rejects_zero_max_instances() {
    let mut cfg = base();
    cfg.models[0].max_instances = 0;
    expect_validation_error(&cfg, "max_instances must be > 0");
}

#[test]
fn rejects_zero_max_concurrent() {
    let mut cfg = base();
    cfg.models[0].max_concurrent = 0;
    expect_validation_error(&cfg, "max_concurrent must be > 0");
}

#[test]
fn rejects_unknown_port_range_word() {
    let mut cfg = base();
    cfg.server.port_range = PortRange::EphemeralWord("ephemral".to_owned());
    expect_validation_error(&cfg, "unknown value 'ephemral'");
}

#[test]
fn accepts_ephemeral_port_range() {
    let mut cfg = base();
    cfg.server.port_range = PortRange::EphemeralWord("ephemeral".to_owned());
    check(&cfg).unwrap();
}

fn keep_alive(cmd: &str, sleep: u64) -> Option<KeepAliveConfig> {
    Some(KeepAliveConfig {
        amd: Some(GpuKeepAlive {
            cmd: cmd.to_owned(),
            sleep,
        }),
    })
}

#[test]
fn rejects_zero_keepalive_sleep() {
    let mut cfg = base();
    cfg.keep_alive = keep_alive("true", 0);
    expect_validation_error(&cfg, "keep_alive.amd.sleep must be > 0");
}

#[test]
fn rejects_zero_gpus() {
    let mut cfg = base();
    cfg.models[0].gpus = 0;
    expect_validation_error(&cfg, "gpus must be >= 1");
}

#[test]
fn rejects_gpus_exceeding_device_pool() {
    let mut cfg = base();
    cfg.models[0].gpus = 3;
    cfg.models[0].vulkan_devices = vec![0, 1];
    expect_validation_error(&cfg, "gpus (3) exceeds vulkan_devices count (2)");
}

#[test]
fn rejects_multi_gpu_for_cpu_model() {
    let mut cfg = base();
    cfg.models[0].gpus = 2;
    expect_validation_error(&cfg, "CPU-only models must use gpus: 1");
}

#[test]
fn accepts_multi_gpu_model() {
    let mut cfg = base();
    cfg.models[0].gpus = 2;
    cfg.models[0].vulkan_devices = vec![0, 1];
    check(&cfg).unwrap();
}

#[test]
fn rejects_reserved_cmd_alias_names() {
    for reserved in ["port", "context_length", "name"] {
        let mut cfg = base();
        cfg.cmd_aliases = vec![(reserved.to_owned(), "x".to_owned())];
        expect_validation_error(&cfg, &format!("'{reserved}' is a reserved name"));
    }
}

#[test]
fn rejects_model_with_both_device_namespaces() {
    let mut cfg = base();
    cfg.models[0].vulkan_devices = vec![0];
    cfg.models[0].cuda_devices = vec![0];
    expect_validation_error(&cfg, "mutually exclusive");
}

#[test]
fn rejects_gpus_exceeding_cuda_pool() {
    let mut cfg = base();
    cfg.models[0].gpus = 3;
    cfg.models[0].cuda_devices = vec![0, 1];
    expect_validation_error(&cfg, "gpus (3) exceeds cuda_devices count (2)");
}

#[test]
fn rejects_cuda_device_without_devices_section() {
    let mut cfg = base();
    cfg.models[0].cuda_devices = vec![0];
    expect_validation_error(&cfg, "cuda_device 0 not defined in devices.cuda");
}

#[test]
fn rejects_undefined_cuda_device_index() {
    let mut cfg = base();
    cfg.devices = Some(DevicesConfig {
        cuda: vec![(0, cuda(&slots()[0], None))],
        ..no_devices()
    });
    cfg.models[0].cuda_devices = vec![1];
    expect_validation_error(&cfg, "cuda_device 1 not defined in devices.cuda");
}

#[test]
fn accepts_multi_gpu_cuda_model() {
    let mut cfg = base();
    cfg.devices = Some(DevicesConfig {
        cuda: vec![
            (0, cuda(&slots()[0], Some(24576))),
            (1, cuda(&slots()[1], None)),
        ],
        ..no_devices()
    });
    cfg.models[0].gpus = 2;
    cfg.models[0].cuda_devices = vec![0, 1];
    check(&cfg).unwrap();
    let devs = cfg.devices.unwrap();
    assert_eq!(devs.cuda[0].1.vram_mb, Some(24576));
    assert_eq!(devs.cuda[1].1.vram_mb, None);
}

#[test]
fn rejects_duplicate_cuda_slots() {
    let mut cfg = base();
    cfg.devices = Some(DevicesConfig {
        cuda: vec![(0, cuda(&slots()[0], None)), (1, cuda(&slots()[0], None))],
        ..no_devices()
    });
    expect_validation_error(&cfg, "assigned to multiple indices");
}

#[test]
fn rejects_cuda_slot_also_assigned_in_vulkan() {
    let mut cfg = base();
    cfg.devices = Some(DevicesConfig {
        vulkan: vec![(0, slots()[0].clone())],
        cuda: vec![(0, cuda(&slots()[0], None))],
        vram_limit_mb: vec![],
    });
    expect_validation_error(&cfg, "also assigned in devices.vulkan");
}

#[test]
fn rejects_cuda_slot_not_on_pci_bus() {
    let mut cfg = base();
    cfg.devices = Some(DevicesConfig {
        cuda: vec![(0, cuda("0000:ff:ff.f", None))],
        ..no_devices()
    });
    expect_validation_error(&cfg, "not found in /sys/bus/pci/devices/");
}

#[test]
fn rejects_empty_keepalive_cmd() {
    let mut cfg = base();
    cfg.keep_alive = keep_alive("  ", 5);
    expect_validation_error(&cfg, "keep_alive.amd.cmd must not be empty");
}

#[test]
fn accepts_keepalive() {
    let mut cfg = base();
    cfg.keep_alive = keep_alive("true", 5);
    check(&cfg).unwrap();
}

fn alias(name: &str, targets: &[&str]) -> AliasConfig {
    AliasConfig {
        name: name.to_owned(),
        targets: targets.iter().map(|t| t.to_string()).collect(),
        policy: AliasPolicy::PreferLoaded,
        make_room: MakeRoomMode::EvictIdle,
        drain_timeout: 30,
    }
}

#[test]
fn alias_targets_must_be_models() {
    let mut cfg = base();
    cfg.aliases = vec![alias("fast", &["m"])];
    check(&cfg).unwrap();
    cfg.aliases = vec![alias("fast", &["m", "gone"])];
    assert!(check(&cfg).is_err());
    cfg.aliases = vec![alias("fast", &[])];
    assert!(check(&cfg).is_err());
    cfg.aliases = vec![alias("", &["m"])];
    assert!(check(&cfg).is_err());
}

#[test]
fn names_are_unique() {
    let mut cfg = base();
    cfg.models.push(model("m"));
    assert!(check(&cfg).is_err());
    let mut cfg = base();
    cfg.aliases = vec![alias("a", &["m"]), alias("a", &["m"])];
    assert!(check(&cfg).is_err());
}

#[test]
fn a_port_range_is_not_reversed() {
    let mut cfg = base();
    cfg.server.port_range = PortRange::Range {
        start: 9001,
        end: 9000,
    };
    assert!(check(&cfg).is_err());
    cfg.server.port_range = PortRange::Range {
        start: 9000,
        end: 9000,
    };
    check(&cfg).unwrap();
}

#[test]
fn vulkan_slots_are_known_and_distinct() {
    let mut cfg = base();
    cfg.devices = Some(DevicesConfig {
        vulkan: vec![(0, "0000:77:00.0".to_owned())],
        ..no_devices()
    });
    assert!(check(&cfg).is_err());
    cfg.devices = Some(DevicesConfig {
        vulkan: vec![(0, slots()[0].clone()), (1, slots()[0].clone())],
        ..no_devices()
    });
    assert!(check(&cfg).is_err());
    cfg.devices = Some(DevicesConfig {
        vulkan: vec![(0, slots()[0].clone()), (1, slots()[1].clone())],
        ..no_devices()
    });
    cfg.models[0].vulkan_devices = vec![1];
    check(&cfg).unwrap();
    cfg.models[0].vulkan_devices = vec![2];
    expect_validation_error(&cfg, "vulkan_device 2 not defined in devices.vulkan");
}

#[test]
fn autoscaling_needs_no_particular_thresholds_to_be_off() {
    let mut cfg = base();
    cfg.models[0].autoscale = Some(AutoscaleConfig {
        enabled: false,
        scale_up_at: 0.8f64.to_bits(),
        scale_down_at: 0.2f64.to_bits(),
        cooldown_secs: 60,
    });
    check(&cfg).unwrap();
}

#[test]
fn the_keys_file_is_found_beside_the_configuration() {
    assert_eq!(resolve_apikeys_file(Some("/etc/llm"), "apikeys.txt"), "/etc/llm/apikeys.txt");
    assert_eq!(resolve_apikeys_file(Some("/etc/llm"), "/keys.txt"), "/keys.txt");
    assert_eq!(resolve_apikeys_file(Some("/"), "k"), "/k");
    assert_eq!(resolve_apikeys_file(None, "k"), "k");
}

#[test]
fn config_errors_say_what_is_wrong() {
    assert_eq!(ConfigError::Io("x".to_owned()).message(), "failed to read config file: x");
    assert_eq!(ConfigError::Yaml("x".to_owned()).message(), "invalid YAML: x");
    assert_eq!(ConfigError::Validation("x".to_owned()).message(), "config validation failed: x");
}

#[test]
fn defaults_are_those_of_the_documentation() {
    assert_eq!(default_listen(), "127.0.0.1:8080");
    assert_eq!(default_backend_total_timeout(), 900);
    assert_eq!(default_backend_idle_timeout(), 300);
    assert_eq!(default_shutdown_drain_timeout(), 60);
    assert_eq!(default_context_length(), 4096);
    assert_eq!(default_max_instances(), 1);
    assert_eq!(default_gpus(), 1);
    assert_eq!(default_max_concurrent(), 4);
    assert_eq!(default_idle_ttl(), 300);
    assert_eq!(default_queue_depth(), 10);
    assert_eq!(default_autoscale_cooldown(), 120);
    assert_eq!(default_keepalive_sleep(), 5);
    assert_eq!(default_drain_timeout(), 300);
}

#[test]
fn cpu_only_models_ask_for_no_offload() {
    let with_cmd = |cmd: &str| {
        let mut cfg = base();
        cfg.models[0].cmd = cmd.to_owned();
        cfg
    };
    for cmd in [
        "llama-server --n-gpu-layers 99 --port {port}",
        "llama-server -ngl -1",
        "llama-server --n-gpu-layers=auto",
        "/opt/llama/llama-server -m '{name}.gguf' --n-gpu-layers 99",
    ] {
        expect_validation_error(&with_cmd(cmd), "is CPU-only (no device pool)");
    }
    expect_validation_error(
        &with_cmd("llama-server --n-gpu-layers 99"),
        "(--n-gpu-layers 99)",
    );
    expect_validation_error(&with_cmd("llama-server -ngl -1"), "(--n-gpu-layers -1)");
    expect_validation_error(
        &with_cmd("llama-server -ngl auto"),
        "(--n-gpu-layers, unreadable)",
    );
    for cmd in [
        "llama-server --port {port}",
        "llama-server --n-gpu-layers 0",
        "vllm --n-gpu-layers 99",
        "llama-server --n-gpu-layers '99",
    ] {
        check(&with_cmd(cmd)).unwrap();
    }
}

#[test]
fn offload_is_read_from_the_filled_in_command() {
    let mut cfg = base();
    cfg.cmd_aliases = vec![(
        "gpu_server".to_owned(),
        "llama-server --n-gpu-layers 99".to_owned(),
    )];
    cfg.models[0].cmd = "{gpu_server} --port {port}".to_owned();
    expect_validation_error(&cfg, "requests GPU offload (--n-gpu-layers 99)");
    // With a device pool the same command is sound.
    cfg.models[0].vulkan_devices = vec![0];
    check(&cfg).unwrap();
}

#[test]
fn requested_offload_is_that_of_llama_programs() {
    let words = |w: &[&str]| Some(w.iter().map(|s| s.to_string()).collect());
    assert_eq!(
        requested_offload(words(&["llama-server", "-ngl", "7"])),
        Some(OffloadDecl::Layers(7))
    );
    assert_eq!(
        requested_offload(words(&["llama-server", "-ngl", "all"])),
        Some(OffloadDecl::Invalid)
    );
    assert_eq!(requested_offload(words(&["llama-server", "-ngl", "0"])), None);
    assert_eq!(requested_offload(words(&["llama-server"])), None);
    assert_eq!(requested_offload(words(&["sleep", "-ngl", "7"])), None);
    assert_eq!(requested_offload(words(&[])), None);
    assert_eq!(requested_offload(None), None);
}

#[test]
fn loading_resolves_the_keys_path_and_checks_the_rules() {
    let none: Vec<String> = vec![];
    let loaded = Config::load(base(), Some("/etc/llm"), &slots(), &slots()).unwrap();
    assert_eq!(loaded.apikeys_file, "/etc/llm/apikeys.txt");
    // Nothing else changes.
    let mut expected = base();
    expected.apikeys_file = "/etc/llm/apikeys.txt".to_owned();
    assert_eq!(format!("{loaded:?}"), format!("{expected:?}"));

    let mut absolute = base();
    absolute.apikeys_file = "/keys.txt".to_owned();
    let loaded = Config::load(absolute, Some("/etc/llm"), &none, &none).unwrap();
    assert_eq!(loaded.apikeys_file, "/keys.txt");
    let loaded = Config::load(base(), None, &none, &none).unwrap();
    assert_eq!(loaded.apikeys_file, "apikeys.txt");

    let mut broken = base();
    broken.models[0].max_instances = 0;
    assert!(matches!(
        Config::load(broken, Some("/etc/llm"), &none, &none),
        Err(ConfigError::Validation(words)) if words.contains("max_instances must be > 0")
    ));
}

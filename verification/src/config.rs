//! Configuration: the settings the orchestrator runs with, and the rules that
//! a set of settings must meet before it is used.

use vstd::prelude::*;
use crate::backend::{
    basename, is_llama_program, llama_offload_decl, names_llama, offload_decl, DeviceKind,
    OffloadDecl,
};
use crate::numbers::{decimal, signed_decimal, to_decimal, to_signed_decimal};
use crate::spawning::{command_line, fill_command, shell_words, split_words, words_view};
use crate::text::{cat, cat3, same_text, starts_with, texts, trim, trim_str};

verus! {

/// Errors that can occur when loading or validating the configuration.
#[derive(Debug)]
pub enum ConfigError {
    /// The file could not be read; holds the operating system's words.
    Io(String),
    /// The file is not a YAML document of the expected shape.
    Yaml(String),
    /// The settings break a rule.
    Validation(String),
}

/// Top-level configuration.
#[derive(Debug)]
pub struct Config {
    pub server: ServerConfig,
    pub apikeys_file: String,
    /// Named `{key}` → value fragments substituted into model `cmd` fields,
    /// in the order in which they are applied.
    pub cmd_aliases: Vec<(String, String)>,
    pub models: Vec<ModelConfig>,
    pub aliases: Vec<AliasConfig>,
    /// Device mapping: logical backend indices → PCI slots.
    pub devices: Option<DevicesConfig>,
    /// GPU keep-alive configuration to prevent driver autosuspend.
    pub keep_alive: Option<KeepAliveConfig>,
}

/// Settings of the HTTP server and of request forwarding.
#[derive(Debug)]
pub struct ServerConfig {
    /// Address and port the HTTP server listens on, e.g. `"127.0.0.1:8080"`.
    pub listen: String,
    /// Port range for backend instance allocation.
    pub port_range: PortRange,
    /// Total timeout (seconds) for non-streaming backend requests; 0 disables it.
    pub backend_total_timeout_secs: u64,
    /// Longest gap (seconds) between chunks of a backend stream; 0 disables it.
    pub backend_idle_timeout_secs: u64,
    /// Seconds to wait for in-flight HTTP requests to drain on shutdown.
    pub shutdown_drain_timeout_secs: u64,
    /// Seconds between loading-indicator dots; none or 0 disables them.
    pub loading_dots: Option<u64>,
}

/// Port allocation strategy for backend instances.
#[derive(Debug)]
pub enum PortRange {
    /// Explicit start-end range.
    Range { start: u16, end: u16 },
    /// Let the OS choose a free port for each instance.
    EphemeralWord(String),
}

impl Default for PortRange {
    fn default() -> (r: PortRange)
        ensures
            r == (PortRange::Range { start: 9000, end: 9100 }),
    {
        PortRange::Range { start: 9000, end: 9100 }
    }
}

/// One model definition.
#[derive(Debug)]
pub struct ModelConfig {
    /// Unique model name, used as the identifier in `/v1/models` and alias targets.
    pub name: String,
    /// Maximum context length (tokens).
    pub context_length: usize,
    /// Maximum number of backend instances of this model across all GPUs.
    pub max_instances: usize,
    /// Maximum concurrent requests a single instance can handle.
    pub max_concurrent: usize,
    /// Eviction priority, reserved.
    pub priority: i32,
    /// Declared VRAM usage in MB.
    pub vram: u64,
    /// Declared system RAM usage in MB, reserved.
    pub ram: u64,
    /// Seconds of inactivity before the instance is unloaded.
    pub idle_ttl: u64,
    /// Maximum number of queued requests before a request is refused.
    pub queue_depth: usize,
    /// Subprocess command line with `{alias}`, `{port}`, `{context_length}`
    /// and `{name}` placeholders.
    pub cmd: String,
    /// Vulkan device indices this model can be placed on.
    pub vulkan_devices: Vec<usize>,
    /// CUDA device indices this model can be placed on.
    pub cuda_devices: Vec<usize>,
    /// Number of devices each instance of this model spans.
    pub gpus: usize,
    /// Optional path for per-request debug I/O logging.
    pub debug_log: Option<String>,
    /// Optional load-based autoscaling configuration.
    pub autoscale: Option<AutoscaleConfig>,
    /// Seconds between loading-indicator dots for this model; 0 silences them.
    pub loading_dots: Option<u64>,
}

impl ModelConfig {
    /// The device namespace of the model's pool.
    pub open spec fn kind(&self) -> DeviceKind {
        if self.cuda_devices@.len() > 0 {
            DeviceKind::Cuda
        } else {
            DeviceKind::Vulkan
        }
    }

    /// Device namespace this model is placed on: CUDA exactly when
    /// `cuda_devices` is not empty, otherwise Vulkan.
    pub fn device_kind(&self) -> (r: DeviceKind)
        ensures
            r == self.kind(),
    {
        if self.cuda_devices.len() > 0 {
            DeviceKind::Cuda
        } else {
            DeviceKind::Vulkan
        }
    }

    /// The pool that the model's namespace refers to.
    pub open spec fn pool(&self) -> Seq<usize> {
        if self.kind() == DeviceKind::Cuda {
            self.cuda_devices@
        } else {
            self.vulkan_devices@
        }
    }
}

/// Load-based autoscaling for a model. The two thresholds are fractions; they
/// are held as the bits of a 64-bit floating-point number.
#[derive(Debug, Clone, Copy)]
pub struct AutoscaleConfig {
    /// Enable load-based autoscaling for this model.
    pub enabled: bool,
    /// Fraction of capacity above which a new instance is spawned (bits).
    pub scale_up_at: u64,
    /// Fraction of reduced capacity below which an instance is despawned (bits).
    pub scale_down_at: u64,
    /// Minimum seconds between any scale action.
    pub cooldown_secs: u64,
}

/// Global device index → PCI slot mapping, one namespace per backend.
#[derive(Debug)]
pub struct DevicesConfig {
    /// Vulkan device index → PCI slot name.
    pub vulkan: Vec<(usize, String)>,
    /// CUDA device index → device definition.
    pub cuda: Vec<(usize, CudaDeviceConfig)>,
    /// Optional per-GPU VRAM limit in MB, by Vulkan device index.
    pub vram_limit_mb: Vec<(usize, u64)>,
}

/// A single CUDA device definition.
#[derive(Debug)]
pub struct CudaDeviceConfig {
    /// PCI slot name (e.g. `"0000:65:00.0"`).
    pub pci: String,
    /// Static VRAM total in MB.
    pub vram_mb: Option<u64>,
}

/// Per-GPU-type keep-alive configuration.
#[derive(Debug)]
pub struct KeepAliveConfig {
    /// AMD (amdgpu) keep-alive.
    pub amd: Option<GpuKeepAlive>,
}

/// Keep-alive command of one GPU type.
#[derive(Debug)]
pub struct GpuKeepAlive {
    /// Command to run; `{index}` is substituted with the GPU index.
    pub cmd: String,
    /// Seconds between invocations.
    pub sleep: u64,
}

/// How an alias chooses among its targets.
#[derive(Debug, Clone, Copy, PartialEq, Eq, Structural)]
pub enum AliasPolicy {
    /// Serve from a loaded target before loading a preferred one.
    PreferLoaded,
    /// Try the targets strictly in order.
    PreferOrder,
}

/// What an alias may evict to make room for a target.
#[derive(Debug, Clone, Copy, PartialEq, Eq, Structural)]
pub enum MakeRoomMode {
    /// Never evict.
    Never,
    /// Evict idle instances.
    EvictIdle,
    /// Also drain busy surplus duplicates.
    DrainSurplus,
}

/// An alias: one more name for an ordered list of models.
#[derive(Debug)]
pub struct AliasConfig {
    /// The alias name, as it appears in `/v1/models` and in API requests.
    pub name: String,
    /// Target model names in order of preference.
    pub targets: Vec<String>,
    pub policy: AliasPolicy,
    pub make_room: MakeRoomMode,
    /// Bound in seconds on waiting for a busy duplicate to drain.
    pub drain_timeout: u64,
}

// ── Defaults ────────────────────────────────────────────────────────────────

/// Default listen address.
pub fn default_listen() -> (r: String)
    ensures
        r@ == "127.0.0.1:8080"@,
{
    "127.0.0.1:8080".to_owned()
}

/// Default total timeout for aggregated backend requests.
pub fn default_backend_total_timeout() -> (r: u64)
    ensures
        r == 900,
{
    900
}

/// Default idle timeout for streamed backend requests.
pub fn default_backend_idle_timeout() -> (r: u64)
    ensures
        r == 300,
{
    300
}

/// Default drain timeout on shutdown.
pub fn default_shutdown_drain_timeout() -> (r: u64)
    ensures
        r == 60,
{
    60
}

/// Default context length.
pub fn default_context_length() -> (r: usize)
    ensures
        r == 4096,
{
    4096
}

/// Default instance cap.
pub fn default_max_instances() -> (r: usize)
    ensures
        r == 1,
{
    1
}

/// Default number of devices per instance.
pub fn default_gpus() -> (r: usize)
    ensures
        r == 1,
{
    1
}

/// Default slots per instance.
pub fn default_max_concurrent() -> (r: usize)
    ensures
        r == 4,
{
    4
}

/// Default idle time to live.
pub fn default_idle_ttl() -> (r: u64)
    ensures
        r == 300,
{
    300
}

/// Default queue depth.
pub fn default_queue_depth() -> (r: usize)
    ensures
        r == 10,
{
    10
}

/// Default autoscale cooldown.
pub fn default_autoscale_cooldown() -> (r: u64)
    ensures
        r == 120,
{
    120
}

/// Default keep-alive interval.
pub fn default_keepalive_sleep() -> (r: u64)
    ensures
        r == 5,
{
    5
}

/// Default bound on a drain wait.
pub fn default_drain_timeout() -> (r: u64)
    ensures
        r == 300,
{
    300
}

// ── Validation: what a sound configuration is ───────────────────────────────

/// `name` is the name of one of the models.
pub open spec fn names_model(models: Seq<ModelConfig>, name: Seq<char>) -> bool {
    exists|i: int| 0 <= i < models.len() && #[trigger] models[i].name@ == name
}

/// `slot` is among `slots`.
pub open spec fn lists_slot(slots: Seq<String>, slot: Seq<char>) -> bool {
    exists|i: int| 0 <= i < slots.len() && #[trigger] slots[i]@ == slot
}

/// `idx` is a key of the table.
pub open spec fn has_index<V>(table: Seq<(usize, V)>, idx: usize) -> bool {
    exists|i: int| 0 <= i < table.len() && (#[trigger] table[i]).0 == idx
}

/// The rules for one model on its own.
pub open spec fn model_sound(m: ModelConfig) -> bool {
    &&& m.name@.len() > 0
    &&& m.context_length > 0
    &&& trim(m.cmd@).len() > 0
    &&& m.max_instances > 0
    &&& m.max_concurrent > 0
    &&& m.gpus > 0
    &&& m.vulkan_devices@.len() == 0 || m.cuda_devices@.len() == 0
    &&& if m.pool().len() == 0 {
        m.gpus == 1
    } else {
        m.gpus <= m.pool().len()
    }
}

/// Models are sound and their names are distinct.
pub open spec fn models_sound(models: Seq<ModelConfig>) -> bool {
    &&& forall|i: int| 0 <= i < models.len() ==> model_sound(#[trigger] models[i])
    &&& forall|i: int, j: int|
        0 <= i < j < models.len() ==> #[trigger] models[i].name@ != #[trigger] models[j].name@
}

/// The rules for one alias on its own: a name, and targets that are models.
pub open spec fn alias_sound(a: AliasConfig, models: Seq<ModelConfig>) -> bool {
    &&& a.name@.len() > 0
    &&& a.targets@.len() > 0
    &&& forall|k: int|
        0 <= k < a.targets@.len() ==> (#[trigger] a.targets@[k])@.len() > 0 && names_model(
            models,
            a.targets@[k]@,
        )
}

/// Aliases are sound and their names are distinct.
pub open spec fn aliases_sound(aliases: Seq<AliasConfig>, models: Seq<ModelConfig>) -> bool {
    &&& forall|i: int| 0 <= i < aliases.len() ==> alias_sound(#[trigger] aliases[i], models)
    &&& forall|i: int, j: int|
        0 <= i < j < aliases.len() ==> #[trigger] aliases[i].name@ != #[trigger] aliases[j].name@
}

/// The names that command fragments must not take.
pub open spec fn reserved_name(name: Seq<char>) -> bool {
    name == "port"@ || name == "context_length"@ || name == "name"@
}

/// No command fragment has a reserved name.
pub open spec fn cmd_aliases_sound(fragments: Seq<(String, String)>) -> bool {
    forall|i: int| 0 <= i < fragments.len() ==> !reserved_name((#[trigger] fragments[i]).0@)
}

/// A range runs upwards, and the word form is exactly `ephemeral`.
pub open spec fn port_range_sound(range: PortRange) -> bool {
    match range {
        PortRange::Range { start, end } => start <= end,
        PortRange::EphemeralWord(word) => word@ == "ephemeral"@,
    }
}

/// A keep-alive command is there and does not run without pause.
pub open spec fn keep_alive_sound(ka: Option<KeepAliveConfig>) -> bool {
    ka matches Some(k) ==> (k.amd matches Some(amd) ==> amd.sleep > 0 && trim(amd.cmd@).len() > 0)
}

/// Every device names a slot that is there, and no slot is named twice.
pub open spec fn devices_sound(
    devs: DevicesConfig,
    drm_slots: Seq<String>,
    pci_slots: Seq<String>,
) -> bool {
    &&& forall|i: int|
        0 <= i < devs.vulkan@.len() ==> lists_slot(drm_slots, (#[trigger] devs.vulkan@[i]).1@)
    &&& forall|i: int, j: int|
        0 <= i < j < devs.vulkan@.len() ==> (#[trigger] devs.vulkan@[i]).1@ != (
        #[trigger] devs.vulkan@[j]).1@
    &&& forall|i: int|
        0 <= i < devs.cuda@.len() ==> lists_slot(pci_slots, (#[trigger] devs.cuda@[i]).1.pci@)
    &&& forall|i: int, j: int|
        0 <= i < j < devs.cuda@.len() ==> (#[trigger] devs.cuda@[i]).1.pci@ != (
        #[trigger] devs.cuda@[j]).1.pci@
    &&& forall|i: int, j: int|
        0 <= i < devs.cuda@.len() && 0 <= j < devs.vulkan@.len() ==> (
        #[trigger] devs.cuda@[i]).1.pci@ != (#[trigger] devs.vulkan@[j]).1@
}

/// Every Vulkan index that a model names is defined, where devices are.
pub open spec fn vulkan_indices_sound(cfg: Config) -> bool {
    cfg.devices matches Some(devs) ==> forall|i: int, k: int|
        0 <= i < cfg.models@.len() && 0 <= k < cfg.models@[i].vulkan_devices@.len() ==> has_index(
            devs.vulkan@,
            #[trigger] cfg.models@[i].vulkan_devices@[k],
        )
}

/// The CUDA devices that are defined.
pub open spec fn cuda_table(devices: Option<DevicesConfig>) -> Seq<(usize, CudaDeviceConfig)> {
    match devices {
        Some(devs) => devs.cuda@,
        None => Seq::empty(),
    }
}

/// Every CUDA index that a model names is defined.
pub open spec fn cuda_indices_sound(cfg: Config) -> bool {
    forall|i: int, k: int|
        0 <= i < cfg.models@.len() && 0 <= k < cfg.models@[i].cuda_devices@.len() ==> has_index(
            cuda_table(cfg.devices),
            #[trigger] cfg.models@[i].cuda_devices@[k],
        )
}

/// A model runs on the CPU alone: it has no device pool.
pub open spec fn cpu_only(m: ModelConfig) -> bool {
    m.vulkan_devices@.len() == 0 && m.cuda_devices@.len() == 0
}

/// The GPU offload that the words of a command ask a llama.cpp program for, if
/// they ask for any; a value that cannot be read counts as one.
pub open spec fn offload_request(words: Option<Seq<Seq<char>>>) -> Option<OffloadDecl> {
    match words {
        Some(w) => if w.len() > 0 && is_llama_program(w[0]) && offload_decl(w.skip(1))
            != OffloadDecl::Absent && offload_decl(w.skip(1)) != OffloadDecl::Layers(0) {
            Some(offload_decl(w.skip(1)))
        } else {
            None
        },
        None => None,
    }
}

/// The words of a model's command; which port it will get is not known yet.
pub open spec fn command_words(m: ModelConfig, fragments: Seq<(String, String)>) -> Option<
    Seq<Seq<char>>,
> {
    shell_words(command_line(fragments, m, 0))
}

/// No model without a device pool asks for GPU offload.
pub open spec fn offload_sound(models: Seq<ModelConfig>, fragments: Seq<(String, String)>) -> bool {
    forall|i: int|
        0 <= i < models.len() && cpu_only(#[trigger] models[i]) ==> offload_request(
            command_words(models[i], fragments),
        ) is None
}

/// All the rules together. `drm_slots` are the slots of the DRM cards that
/// are there; `pci_slots` those on the PCI bus.
pub open spec fn config_sound(cfg: Config, drm_slots: Seq<String>, pci_slots: Seq<String>) -> bool {
    &&& models_sound(cfg.models@)
    &&& aliases_sound(cfg.aliases@, cfg.models@)
    &&& cmd_aliases_sound(cfg.cmd_aliases@)
    &&& port_range_sound(cfg.server.port_range)
    &&& keep_alive_sound(cfg.keep_alive)
    &&& (cfg.devices matches Some(devs) ==> devices_sound(devs, drm_slots, pci_slots))
    &&& vulkan_indices_sound(cfg)
    &&& cuda_indices_sound(cfg)
    &&& offload_sound(cfg.models@, cfg.cmd_aliases@)
}

// ── Validation: which problem is reported ───────────────────────────────────

/// The first rule that a model breaks, in words.
pub open spec fn model_problem(models: Seq<ModelConfig>, i: int) -> Option<Seq<char>> {
    let m = models[i];
    let head = "model '"@ + m.name@;
    if m.name@.len() == 0 {
        Some("model name must not be empty"@)
    } else if names_model(models.take(i), m.name@) {
        Some("duplicate model name: "@ + m.name@)
    } else if m.context_length == 0 {
        Some(head + "': context_length must be > 0"@)
    } else if trim(m.cmd@).len() == 0 {
        Some(head + "': cmd must not be empty"@)
    } else if m.max_instances == 0 {
        Some(head + "': max_instances must be > 0 (0 would make the model unspawnable)"@)
    } else if m.max_concurrent == 0 {
        Some(head + "': max_concurrent must be > 0 (0 would reject every request)"@)
    } else if m.gpus == 0 {
        Some(head + "': gpus must be >= 1"@)
    } else if m.vulkan_devices@.len() > 0 && m.cuda_devices@.len() > 0 {
        Some(
            head
                + "': vulkan_devices and cuda_devices are mutually exclusive (a model uses exactly one device namespace)"@,
        )
    } else if m.pool().len() == 0 && m.gpus != 1 {
        Some(
            head + "': gpus ("@ + decimal(m.gpus as nat)
                + ") exceeds device count (0) (CPU-only models must use gpus: 1)"@,
        )
    } else if m.pool().len() > 0 && m.gpus > m.pool().len() {
        Some(
            head + "': gpus ("@ + decimal(m.gpus as nat) + ") exceeds "@ + (if m.kind()
                == DeviceKind::Cuda {
                "cuda_devices"@
            } else {
                "vulkan_devices"@
            }) + " count ("@ + decimal(m.pool().len()) + ")"@,
        )
    } else {
        None
    }
}

/// The first problem among the first `n` models.
pub open spec fn models_problem(models: Seq<ModelConfig>, n: int) -> Option<Seq<char>>
    decreases n,
{
    if n <= 0 {
        None
    } else {
        match models_problem(models, n - 1) {
            Some(e) => Some(e),
            None => model_problem(models, n - 1),
        }
    }
}

/// The first problem among the first `n` targets of an alias.
pub open spec fn targets_problem(a: AliasConfig, models: Seq<ModelConfig>, n: int) -> Option<
    Seq<char>,
>
    decreases n,
{
    if n <= 0 {
        None
    } else {
        match targets_problem(a, models, n - 1) {
            Some(e) => Some(e),
            None => if a.targets@[n - 1]@.len() == 0 {
                Some("alias '"@ + a.name@ + "': target must not be empty"@)
            } else if !names_model(models, a.targets@[n - 1]@) {
                Some(
                    "alias '"@ + a.name@ + "' targets unknown model '"@ + a.targets@[n - 1]@ + "'"@,
                )
            } else {
                None
            },
        }
    }
}

/// `name` is the name of one of the aliases.
pub open spec fn names_alias(aliases: Seq<AliasConfig>, name: Seq<char>) -> bool {
    exists|i: int| 0 <= i < aliases.len() && #[trigger] aliases[i].name@ == name
}

/// The first rule that an alias breaks, in words.
pub open spec fn alias_problem(
    aliases: Seq<AliasConfig>,
    models: Seq<ModelConfig>,
    i: int,
) -> Option<Seq<char>> {
    let a = aliases[i];
    if a.name@.len() == 0 {
        Some("alias name must not be empty"@)
    } else if names_alias(aliases.take(i), a.name@) {
        Some("duplicate alias name: "@ + a.name@)
    } else if a.targets@.len() == 0 {
        Some("alias '"@ + a.name@ + "': target must not be empty"@)
    } else {
        targets_problem(a, models, a.targets@.len() as int)
    }
}

/// The first problem among the first `n` aliases.
pub open spec fn aliases_problem(
    aliases: Seq<AliasConfig>,
    models: Seq<ModelConfig>,
    n: int,
) -> Option<Seq<char>>
    decreases n,
{
    if n <= 0 {
        None
    } else {
        match aliases_problem(aliases, models, n - 1) {
            Some(e) => Some(e),
            None => alias_problem(aliases, models, n - 1),
        }
    }
}

/// `key` is the name of one of the fragments.
pub open spec fn names_fragment(fragments: Seq<(String, String)>, key: Seq<char>) -> bool {
    exists|i: int| 0 <= i < fragments.len() && (#[trigger] fragments[i]).0@ == key
}

/// The first reserved name that a fragment takes.
pub open spec fn fragments_problem(fragments: Seq<(String, String)>) -> Option<Seq<char>> {
    if names_fragment(fragments, "port"@) {
        Some("cmd_aliases: '"@ + "port"@ + "' is a reserved name"@)
    } else if names_fragment(fragments, "context_length"@) {
        Some("cmd_aliases: '"@ + "context_length"@ + "' is a reserved name"@)
    } else if names_fragment(fragments, "name"@) {
        Some("cmd_aliases: '"@ + "name"@ + "' is a reserved name"@)
    } else {
        None
    }
}

/// What is wrong with a port range.
pub open spec fn port_range_problem(range: PortRange) -> Option<Seq<char>> {
    match range {
        PortRange::Range { start, end } => if start > end {
            Some(
                "server.port_range: start ("@ + decimal(start as nat) + ") must be <= end ("@
                    + decimal(end as nat) + ")"@,
            )
        } else {
            None
        },
        PortRange::EphemeralWord(word) => if word@ != "ephemeral"@ {
            Some(
                "server.port_range: unknown value '"@ + word@
                    + "' (expected a start/end range or \"ephemeral\")"@,
            )
        } else {
            None
        },
    }
}

/// What is wrong with the keep-alive settings.
pub open spec fn keep_alive_problem(ka: Option<KeepAliveConfig>) -> Option<Seq<char>> {
    match ka {
        Some(k) => match k.amd {
            Some(amd) => if amd.sleep == 0 {
                Some("keep_alive.amd.sleep must be > 0 (0 would busy-loop the command)"@)
            } else if trim(amd.cmd@).len() == 0 {
                Some("keep_alive.amd.cmd must not be empty"@)
            } else {
                None
            },
            None => None,
        },
        None => None,
    }
}

/// The first Vulkan device among the first `n` whose slot is missing.
pub open spec fn vulkan_missing(devs: DevicesConfig, drm_slots: Seq<String>, n: int) -> Option<
    Seq<char>,
>
    decreases n,
{
    if n <= 0 {
        None
    } else {
        match vulkan_missing(devs, drm_slots, n - 1) {
            Some(e) => Some(e),
            None => if !lists_slot(drm_slots, devs.vulkan@[n - 1].1@) {
                Some(
                    "devices.vulkan."@ + decimal(devs.vulkan@[n - 1].0 as nat) + ": PCI slot '"@
                        + devs.vulkan@[n - 1].1@ + "' not found in /sys/class/drm/card*/device/"@,
                )
            } else {
                None
            },
        }
    }
}

/// `slot` is assigned to one of the Vulkan devices.
pub open spec fn vulkan_has_slot(vulkan: Seq<(usize, String)>, slot: Seq<char>) -> bool {
    exists|i: int| 0 <= i < vulkan.len() && (#[trigger] vulkan[i]).1@ == slot
}

/// The first slot among the first `n` Vulkan devices that an earlier one has.
pub open spec fn vulkan_repeated(devs: DevicesConfig, n: int) -> Option<Seq<char>>
    decreases n,
{
    if n <= 0 {
        None
    } else {
        match vulkan_repeated(devs, n - 1) {
            Some(e) => Some(e),
            None => if vulkan_has_slot(devs.vulkan@.take(n - 1), devs.vulkan@[n - 1].1@) {
                Some(
                    "devices.vulkan: PCI slot '"@ + devs.vulkan@[n - 1].1@
                        + "' assigned to multiple indices"@,
                )
            } else {
                None
            },
        }
    }
}

/// `slot` is assigned to one of the CUDA devices.
pub open spec fn cuda_has_slot(cuda: Seq<(usize, CudaDeviceConfig)>, slot: Seq<char>) -> bool {
    exists|i: int| 0 <= i < cuda.len() && (#[trigger] cuda[i]).1.pci@ == slot
}

/// The first problem among the first `n` CUDA devices.
pub open spec fn cuda_problem(devs: DevicesConfig, pci_slots: Seq<String>, n: int) -> Option<
    Seq<char>,
>
    decreases n,
{
    if n <= 0 {
        None
    } else {
        let slot = devs.cuda@[n - 1].1.pci@;
        let head = "devices.cuda."@ + decimal(devs.cuda@[n - 1].0 as nat) + ": PCI slot '"@ + slot;
        match cuda_problem(devs, pci_slots, n - 1) {
            Some(e) => Some(e),
            None => if !lists_slot(pci_slots, slot) {
                Some(head + "' not found in /sys/bus/pci/devices/"@)
            } else if cuda_has_slot(devs.cuda@.take(n - 1), slot) {
                Some("devices.cuda: PCI slot '"@ + slot + "' assigned to multiple indices"@)
            } else if vulkan_has_slot(devs.vulkan@, slot) {
                Some(head + "' is also assigned in devices.vulkan"@)
            } else {
                None
            },
        }
    }
}

/// The first problem of the device section.
pub open spec fn devices_problem(
    devs: DevicesConfig,
    drm_slots: Seq<String>,
    pci_slots: Seq<String>,
) -> Option<Seq<char>> {
    match vulkan_missing(devs, drm_slots, devs.vulkan@.len() as int) {
        Some(e) => Some(e),
        None => match vulkan_repeated(devs, devs.vulkan@.len() as int) {
            Some(e) => Some(e),
            None => cuda_problem(devs, pci_slots, devs.cuda@.len() as int),
        },
    }
}

/// The first index among the first `n` of a pool that the table lacks.
pub open spec fn pool_problem<V>(
    name: Seq<char>,
    what: Seq<char>,
    section: Seq<char>,
    pool: Seq<usize>,
    table: Seq<(usize, V)>,
    n: int,
) -> Option<Seq<char>>
    decreases n,
{
    if n <= 0 {
        None
    } else {
        match pool_problem(name, what, section, pool, table, n - 1) {
            Some(e) => Some(e),
            None => if !has_index(table, pool[n - 1]) {
                Some(
                    "model '"@ + name + what + decimal(pool[n - 1] as nat) + " not defined in "@
                        + section,
                )
            } else {
                None
            },
        }
    }
}

/// The first undefined Vulkan index that one of the first `n` models names.
pub open spec fn vulkan_index_problem(
    models: Seq<ModelConfig>,
    table: Seq<(usize, String)>,
    n: int,
) -> Option<Seq<char>>
    decreases n,
{
    if n <= 0 {
        None
    } else {
        match vulkan_index_problem(models, table, n - 1) {
            Some(e) => Some(e),
            None => pool_problem(
                models[n - 1].name@,
                "': vulkan_device "@,
                "devices.vulkan"@,
                models[n - 1].vulkan_devices@,
                table,
                models[n - 1].vulkan_devices@.len() as int,
            ),
        }
    }
}

/// The first undefined CUDA index that one of the first `n` models names.
pub open spec fn cuda_index_problem(
    models: Seq<ModelConfig>,
    table: Seq<(usize, CudaDeviceConfig)>,
    n: int,
) -> Option<Seq<char>>
    decreases n,
{
    if n <= 0 {
        None
    } else {
        match cuda_index_problem(models, table, n - 1) {
            Some(e) => Some(e),
            None => pool_problem(
                models[n - 1].name@,
                "': cuda_device "@,
                "devices.cuda"@,
                models[n - 1].cuda_devices@,
                table,
                models[n - 1].cuda_devices@.len() as int,
            ),
        }
    }
}

/// An offload declaration in words.
pub open spec fn offload_words(d: OffloadDecl) -> Seq<char> {
    match d {
        OffloadDecl::Layers(n) => "--n-gpu-layers "@ + signed_decimal(n as int),
        _ => "--n-gpu-layers, unreadable"@,
    }
}

/// The first model without a device pool among the first `n` that asks for
/// GPU offload.
pub open spec fn offload_problem(
    models: Seq<ModelConfig>,
    fragments: Seq<(String, String)>,
    n: int,
) -> Option<Seq<char>>
    decreases n,
{
    if n <= 0 {
        None
    } else {
        match offload_problem(models, fragments, n - 1) {
            Some(e) => Some(e),
            None => {
                let m = models[n - 1];
                match offload_request(command_words(m, fragments)) {
                    Some(d) => if cpu_only(m) {
                        Some(
                            "model '"@ + m.name@
                                + "' is CPU-only (no device pool) but its command requests GPU offload ("@
                                + offload_words(d)
                                + ") — add vulkan_devices/cuda_devices or drop the flag (use a CPU alias)"@,
                        )
                    } else {
                        None
                    },
                    None => None,
                }
            },
        }
    }
}

/// The first problem of one of two stages.
pub open spec fn first_of(a: Option<Seq<char>>, b: Option<Seq<char>>) -> Option<Seq<char>> {
    match a {
        Some(e) => Some(e),
        None => b,
    }
}

/// The problem that is reported: models come first, then aliases, command
/// fragments, the port range, keep-alive, devices, the indices of models and
/// the offload that they ask for.
pub open spec fn config_problem(
    cfg: Config,
    drm_slots: Seq<String>,
    pci_slots: Seq<String>,
) -> Option<Seq<char>> {
    let n = cfg.models@.len() as int;
    let devices = match cfg.devices {
        Some(devs) => first_of(
            devices_problem(devs, drm_slots, pci_slots),
            vulkan_index_problem(cfg.models@, devs.vulkan@, n),
        ),
        None => None,
    };
    first_of(
        models_problem(cfg.models@, n),
        first_of(
            aliases_problem(cfg.aliases@, cfg.models@, cfg.aliases@.len() as int),
            first_of(
                fragments_problem(cfg.cmd_aliases@),
                first_of(
                    port_range_problem(cfg.server.port_range),
                    first_of(
                        keep_alive_problem(cfg.keep_alive),
                        first_of(
                            devices,
                            first_of(
                                cuda_index_problem(cfg.models@, cuda_table(cfg.devices), n),
                                offload_problem(cfg.models@, cfg.cmd_aliases@, n),
                            ),
                        ),
                    ),
                ),
            ),
        ),
    )
}

// ── Validation: the checks ──────────────────────────────────────────────────

/// A reported problem is the given one, and none is reported where there is none.
pub open spec fn says(r: Option<String>, p: Option<Seq<char>>) -> bool {
    match (r, p) {
        (Some(s), Some(t)) => s@ == t,
        (None, None) => true,
        _ => false,
    }
}

/// Tells whether one of the first `n` models has the name.
pub fn has_model(models: &Vec<ModelConfig>, n: usize, name: &str) -> (r: bool)
    requires
        n <= models@.len(),
    ensures
        r == names_model(models@.take(n as int), name@),
{
    for i in 0..n
        invariant
            n <= models@.len(),
            forall|j: int| 0 <= j < i ==> #[trigger] models@[j].name@ != name@,
    {
        if same_text(models[i].name.as_str(), name) {
            assert(models@.take(n as int)[i as int].name@ == name@);
            return true;
        }
    }
    assert forall|j: int| 0 <= j < n implies #[trigger] models@.take(n as int)[j].name@
        != name@ by {
        assert(models@[j].name@ != name@);
    }
    false
}

fn has_alias(aliases: &Vec<AliasConfig>, n: usize, name: &str) -> (r: bool)
    requires
        n <= aliases@.len(),
    ensures
        r == names_alias(aliases@.take(n as int), name@),
{
    for i in 0..n
        invariant
            n <= aliases@.len(),
            forall|j: int| 0 <= j < i ==> #[trigger] aliases@[j].name@ != name@,
    {
        if same_text(aliases[i].name.as_str(), name) {
            assert(aliases@.take(n as int)[i as int].name@ == name@);
            return true;
        }
    }
    assert forall|j: int| 0 <= j < n implies #[trigger] aliases@.take(n as int)[j].name@
        != name@ by {
        assert(aliases@[j].name@ != name@);
    }
    false
}

fn has_fragment(fragments: &Vec<(String, String)>, key: &str) -> (r: bool)
    ensures
        r == names_fragment(fragments@, key@),
{
    for i in 0..fragments.len()
        invariant
            forall|j: int| 0 <= j < i ==> (#[trigger] fragments@[j]).0@ != key@,
    {
        if same_text(fragments[i].0.as_str(), key) {
            assert(fragments@[i as int].0@ == key@);
            return true;
        }
    }
    false
}

/// Tells whether `slot` is among `slots`.
pub fn has_slot(slots: &Vec<String>, slot: &str) -> (r: bool)
    ensures
        r == lists_slot(slots@, slot@),
{
    for i in 0..slots.len()
        invariant
            forall|j: int| 0 <= j < i ==> (#[trigger] slots@[j])@ != slot@,
    {
        if same_text(slots[i].as_str(), slot) {
            assert(slots@[i as int]@ == slot@);
            return true;
        }
    }
    false
}

fn has_vulkan_slot(vulkan: &Vec<(usize, String)>, n: usize, slot: &str) -> (r: bool)
    requires
        n <= vulkan@.len(),
    ensures
        r == vulkan_has_slot(vulkan@.take(n as int), slot@),
{
    for i in 0..n
        invariant
            n <= vulkan@.len(),
            forall|j: int| 0 <= j < i ==> (#[trigger] vulkan@[j]).1@ != slot@,
    {
        if same_text(vulkan[i].1.as_str(), slot) {
            assert(vulkan@.take(n as int)[i as int].1@ == slot@);
            return true;
        }
    }
    assert forall|j: int| 0 <= j < n implies (#[trigger] vulkan@.take(n as int)[j]).1@ != slot@ by {
        assert(vulkan@[j].1@ != slot@);
    }
    false
}

fn has_cuda_slot(cuda: &Vec<(usize, CudaDeviceConfig)>, n: usize, slot: &str) -> (r: bool)
    requires
        n <= cuda@.len(),
    ensures
        r == cuda_has_slot(cuda@.take(n as int), slot@),
{
    for i in 0..n
        invariant
            n <= cuda@.len(),
            forall|j: int| 0 <= j < i ==> (#[trigger] cuda@[j]).1.pci@ != slot@,
    {
        if same_text(cuda[i].1.pci.as_str(), slot) {
            assert(cuda@.take(n as int)[i as int].1.pci@ == slot@);
            return true;
        }
    }
    assert forall|j: int| 0 <= j < n implies (#[trigger] cuda@.take(n as int)[j]).1.pci@
        != slot@ by {
        assert(cuda@[j].1.pci@ != slot@);
    }
    false
}

fn check_model(models: &Vec<ModelConfig>, i: usize) -> (r: Option<String>)
    requires
        i < models@.len(),
    ensures
        says(r, model_problem(models@, i as int)),
{
    let m = &models[i];
    if m.name.as_str().is_empty() {
        return Some("model name must not be empty".to_owned());
    }
    if has_model(models, i, m.name.as_str()) {
        return Some(cat("duplicate model name: ", m.name.as_str()));
    }
    let head = cat("model '", m.name.as_str());
    if m.context_length == 0 {
        return Some(head.concat("': context_length must be > 0"));
    }
    if trim_str(m.cmd.as_str()).as_str().is_empty() {
        return Some(head.concat("': cmd must not be empty"));
    }
    if m.max_instances == 0 {
        return Some(
            head.concat("': max_instances must be > 0 (0 would make the model unspawnable)"),
        );
    }
    if m.max_concurrent == 0 {
        return Some(
            head.concat("': max_concurrent must be > 0 (0 would reject every request)"),
        );
    }
    if m.gpus == 0 {
        return Some(head.concat("': gpus must be >= 1"));
    }
    if m.vulkan_devices.len() > 0 && m.cuda_devices.len() > 0 {
        return Some(
            head.concat(
                "': vulkan_devices and cuda_devices are mutually exclusive (a model uses exactly one device namespace)",
            ),
        );
    }
    let is_cuda = m.cuda_devices.len() > 0;
    let pool_len: usize = if is_cuda {
        m.cuda_devices.len()
    } else {
        m.vulkan_devices.len()
    };
    if pool_len == 0 {
        if m.gpus != 1 {
            let s = head.concat("': gpus (").concat(to_decimal(m.gpus as u64).as_str());
            return Some(
                s.concat(") exceeds device count (0) (CPU-only models must use gpus: 1)"),
            );
        }
    } else if m.gpus > pool_len {
        let s = head.concat("': gpus (").concat(to_decimal(m.gpus as u64).as_str()).concat(
            ") exceeds ",
        );
        let t = if is_cuda {
            s.concat("cuda_devices")
        } else {
            s.concat("vulkan_devices")
        };
        return Some(
            t.concat(" count (").concat(to_decimal(pool_len as u64).as_str()).concat(")"),
        );
    }
    None
}

fn check_models(models: &Vec<ModelConfig>) -> (r: Option<String>)
    ensures
        says(r, models_problem(models@, models@.len() as int)),
{
    for i in 0..models.len()
        invariant
            models_problem(models@, i as int) is None,
    {
        let e = check_model(models, i);
        if e.is_some() {
            proof {
                lemma_models_problem_sticks(models@, i + 1, models@.len() as int);
            }
            return e;
        }
    }
    None
}

proof fn lemma_models_problem_sticks(models: Seq<ModelConfig>, k: int, n: int)
    requires
        k <= n,
        models_problem(models, k) is Some,
    ensures
        models_problem(models, n) == models_problem(models, k),
    decreases n,
{
    if k < n {
        lemma_models_problem_sticks(models, k, n - 1);
    }
}

fn check_targets(a: &AliasConfig, models: &Vec<ModelConfig>) -> (r: Option<String>)
    ensures
        says(r, targets_problem(*a, models@, a.targets@.len() as int)),
{
    for i in 0..a.targets.len()
        invariant
            targets_problem(*a, models@, i as int) is None,
    {
        let t = &a.targets[i];
        assert(models@.take(models@.len() as int) =~= models@);
        if t.as_str().is_empty() {
            proof {
                lemma_targets_problem_sticks(*a, models@, i + 1, a.targets@.len() as int);
            }
            return Some(cat3("alias '", a.name.as_str(), "': target must not be empty"));
        }
        if !has_model(models, models.len(), t.as_str()) {
            proof {
                lemma_targets_problem_sticks(*a, models@, i + 1, a.targets@.len() as int);
            }
            return Some(
                cat3("alias '", a.name.as_str(), "' targets unknown model '").concat(
                    t.as_str(),
                ).concat("'"),
            );
        }
    }
    None
}

proof fn lemma_targets_problem_sticks(a: AliasConfig, models: Seq<ModelConfig>, k: int, n: int)
    requires
        k <= n,
        targets_problem(a, models, k) is Some,
    ensures
        targets_problem(a, models, n) == targets_problem(a, models, k),
    decreases n,
{
    if k < n {
        lemma_targets_problem_sticks(a, models, k, n - 1);
    }
}

fn check_alias(aliases: &Vec<AliasConfig>, models: &Vec<ModelConfig>, i: usize) -> (r: Option<
    String,
>)
    requires
        i < aliases@.len(),
    ensures
        says(r, alias_problem(aliases@, models@, i as int)),
{
    let a = &aliases[i];
    if a.name.as_str().is_empty() {
        return Some("alias name must not be empty".to_owned());
    }
    if has_alias(aliases, i, a.name.as_str()) {
        return Some(cat("duplicate alias name: ", a.name.as_str()));
    }
    if a.targets.len() == 0 {
        return Some(cat3("alias '", a.name.as_str(), "': target must not be empty"));
    }
    check_targets(a, models)
}

fn check_aliases(aliases: &Vec<AliasConfig>, models: &Vec<ModelConfig>) -> (r: Option<String>)
    ensures
        says(r, aliases_problem(aliases@, models@, aliases@.len() as int)),
{
    for i in 0..aliases.len()
        invariant
            aliases_problem(aliases@, models@, i as int) is None,
    {
        let e = check_alias(aliases, models, i);
        if e.is_some() {
            proof {
                lemma_aliases_problem_sticks(aliases@, models@, i + 1, aliases@.len() as int);
            }
            return e;
        }
    }
    None
}

proof fn lemma_aliases_problem_sticks(
    aliases: Seq<AliasConfig>,
    models: Seq<ModelConfig>,
    k: int,
    n: int,
)
    requires
        k <= n,
        aliases_problem(aliases, models, k) is Some,
    ensures
        aliases_problem(aliases, models, n) == aliases_problem(aliases, models, k),
    decreases n,
{
    if k < n {
        lemma_aliases_problem_sticks(aliases, models, k, n - 1);
    }
}

fn check_fragments(fragments: &Vec<(String, String)>) -> (r: Option<String>)
    ensures
        says(r, fragments_problem(fragments@)),
{
    if has_fragment(fragments, "port") {
        Some(cat3("cmd_aliases: '", "port", "' is a reserved name"))
    } else if has_fragment(fragments, "context_length") {
        Some(cat3("cmd_aliases: '", "context_length", "' is a reserved name"))
    } else if has_fragment(fragments, "name") {
        Some(cat3("cmd_aliases: '", "name", "' is a reserved name"))
    } else {
        None
    }
}

fn check_port_range(range: &PortRange) -> (r: Option<String>)
    ensures
        says(r, port_range_problem(*range)),
{
    match range {
        PortRange::Range { start, end } => {
            if *start > *end {
                let s = cat3(
                    "server.port_range: start (",
                    to_decimal(*start as u64).as_str(),
                    ") must be <= end (",
                );
                Some(s.concat(to_decimal(*end as u64).as_str()).concat(")"))
            } else {
                None
            }
        },
        PortRange::EphemeralWord(word) => {
            if !same_text(word.as_str(), "ephemeral") {
                Some(
                    cat3(
                        "server.port_range: unknown value '",
                        word.as_str(),
                        "' (expected a start/end range or \"ephemeral\")",
                    ),
                )
            } else {
                None
            }
        },
    }
}

fn check_keep_alive(ka: &Option<KeepAliveConfig>) -> (r: Option<String>)
    ensures
        says(r, keep_alive_problem(*ka)),
{
    if let Some(k) = ka {
        if let Some(amd) = &k.amd {
            if amd.sleep == 0 {
                return Some(
                    "keep_alive.amd.sleep must be > 0 (0 would busy-loop the command)".to_owned(),
                );
            }
            if trim_str(amd.cmd.as_str()).as_str().is_empty() {
                return Some("keep_alive.amd.cmd must not be empty".to_owned());
            }
        }
    }
    None
}

proof fn lemma_vulkan_missing_sticks(devs: DevicesConfig, drm: Seq<String>, k: int, n: int)
    requires
        k <= n,
        vulkan_missing(devs, drm, k) is Some,
    ensures
        vulkan_missing(devs, drm, n) == vulkan_missing(devs, drm, k),
    decreases n,
{
    if k < n {
        lemma_vulkan_missing_sticks(devs, drm, k, n - 1);
    }
}

proof fn lemma_vulkan_repeated_sticks(devs: DevicesConfig, k: int, n: int)
    requires
        k <= n,
        vulkan_repeated(devs, k) is Some,
    ensures
        vulkan_repeated(devs, n) == vulkan_repeated(devs, k),
    decreases n,
{
    if k < n {
        lemma_vulkan_repeated_sticks(devs, k, n - 1);
    }
}

proof fn lemma_cuda_problem_sticks(devs: DevicesConfig, pci: Seq<String>, k: int, n: int)
    requires
        k <= n,
        cuda_problem(devs, pci, k) is Some,
    ensures
        cuda_problem(devs, pci, n) == cuda_problem(devs, pci, k),
    decreases n,
{
    if k < n {
        lemma_cuda_problem_sticks(devs, pci, k, n - 1);
    }
}

fn check_devices(devs: &DevicesConfig, drm_slots: &Vec<String>, pci_slots: &Vec<String>) -> (r:
    Option<String>)
    ensures
        says(r, devices_problem(*devs, drm_slots@, pci_slots@)),
{
    let n: usize = devs.vulkan.len();
    for i in 0..n
        invariant
            n == devs.vulkan@.len(),
            vulkan_missing(*devs, drm_slots@, i as int) is None,
    {
        let d = &devs.vulkan[i];
        if !has_slot(drm_slots, d.1.as_str()) {
            proof {
                lemma_vulkan_missing_sticks(*devs, drm_slots@, i + 1, n as int);
            }
            let s = cat3("devices.vulkan.", to_decimal(d.0 as u64).as_str(), ": PCI slot '");
            return Some(
                s.concat(d.1.as_str()).concat("' not found in /sys/class/drm/card*/device/"),
            );
        }
    }
    for i in 0..n
        invariant
            n == devs.vulkan@.len(),
            vulkan_missing(*devs, drm_slots@, n as int) is None,
            vulkan_repeated(*devs, i as int) is None,
    {
        let d = &devs.vulkan[i];
        if has_vulkan_slot(&devs.vulkan, i, d.1.as_str()) {
            proof {
                lemma_vulkan_repeated_sticks(*devs, i + 1, n as int);
            }
            return Some(
                cat3(
                    "devices.vulkan: PCI slot '",
                    d.1.as_str(),
                    "' assigned to multiple indices",
                ),
            );
        }
    }
    let m: usize = devs.cuda.len();
    for i in 0..m
        invariant
            n == devs.vulkan@.len(),
            m == devs.cuda@.len(),
            vulkan_missing(*devs, drm_slots@, n as int) is None,
            vulkan_repeated(*devs, n as int) is None,
            cuda_problem(*devs, pci_slots@, i as int) is None,
    {
        let d = &devs.cuda[i];
        let slot = d.1.pci.as_str();
        assert(devs.vulkan@.take(n as int) =~= devs.vulkan@);
        if !has_slot(pci_slots, slot) {
            proof {
                lemma_cuda_problem_sticks(*devs, pci_slots@, i + 1, m as int);
            }
            let s = cat3("devices.cuda.", to_decimal(d.0 as u64).as_str(), ": PCI slot '");
            return Some(s.concat(slot).concat("' not found in /sys/bus/pci/devices/"));
        }
        if has_cuda_slot(&devs.cuda, i, slot) {
            proof {
                lemma_cuda_problem_sticks(*devs, pci_slots@, i + 1, m as int);
            }
            return Some(
                cat3("devices.cuda: PCI slot '", slot, "' assigned to multiple indices"),
            );
        }
        if has_vulkan_slot(&devs.vulkan, n, slot) {
            proof {
                lemma_cuda_problem_sticks(*devs, pci_slots@, i + 1, m as int);
            }
            let s = cat3("devices.cuda.", to_decimal(d.0 as u64).as_str(), ": PCI slot '");
            return Some(s.concat(slot).concat("' is also assigned in devices.vulkan"));
        }
    }
    None
}

/// The position of an index in a table.
pub fn index_in<V>(table: &Vec<(usize, V)>, idx: usize) -> (r: Option<usize>)
    ensures
        r is Some <==> has_index(table@, idx),
        r matches Some(p) ==> p < table@.len() && table@[p as int].0 == idx && (forall|j: int|
            0 <= j < p ==> (#[trigger] table@[j]).0 != idx),
{
    for i in 0..table.len()
        invariant
            forall|j: int| 0 <= j < i ==> (#[trigger] table@[j]).0 != idx,
    {
        if table[i].0 == idx {
            assert(has_index(table@, idx));
            return Some(i);
        }
    }
    None
}

proof fn lemma_pool_problem_sticks<V>(
    name: Seq<char>,
    what: Seq<char>,
    section: Seq<char>,
    pool: Seq<usize>,
    table: Seq<(usize, V)>,
    k: int,
    n: int,
)
    requires
        k <= n,
        pool_problem(name, what, section, pool, table, k) is Some,
    ensures
        pool_problem(name, what, section, pool, table, n) == pool_problem(
            name,
            what,
            section,
            pool,
            table,
            k,
        ),
    decreases n,
{
    if k < n {
        lemma_pool_problem_sticks(name, what, section, pool, table, k, n - 1);
    }
}

fn check_pool<V>(
    name: &str,
    what: &str,
    section: &str,
    pool: &Vec<usize>,
    table: &Vec<(usize, V)>,
) -> (r: Option<String>)
    ensures
        says(r, pool_problem(name@, what@, section@, pool@, table@, pool@.len() as int)),
{
    for i in 0..pool.len()
        invariant
            pool_problem(name@, what@, section@, pool@, table@, i as int) is None,
    {
        if index_in(table, pool[i]).is_none() {
            proof {
                lemma_pool_problem_sticks(
                    name@,
                    what@,
                    section@,
                    pool@,
                    table@,
                    i + 1,
                    pool@.len() as int,
                );
            }
            let s = cat3("model '", name, what);
            return Some(
                s.concat(to_decimal(pool[i] as u64).as_str()).concat(" not defined in ").concat(
                    section,
                ),
            );
        }
    }
    None
}

proof fn lemma_vulkan_index_sticks(
    models: Seq<ModelConfig>,
    table: Seq<(usize, String)>,
    k: int,
    n: int,
)
    requires
        k <= n,
        vulkan_index_problem(models, table, k) is Some,
    ensures
        vulkan_index_problem(models, table, n) == vulkan_index_problem(models, table, k),
    decreases n,
{
    if k < n {
        lemma_vulkan_index_sticks(models, table, k, n - 1);
    }
}

fn check_vulkan_indices(models: &Vec<ModelConfig>, table: &Vec<(usize, String)>) -> (r: Option<
    String,
>)
    ensures
        says(r, vulkan_index_problem(models@, table@, models@.len() as int)),
{
    for i in 0..models.len()
        invariant
            vulkan_index_problem(models@, table@, i as int) is None,
    {
        let m = &models[i];
        let e = check_pool(
            m.name.as_str(),
            "': vulkan_device ",
            "devices.vulkan",
            &m.vulkan_devices,
            table,
        );
        if e.is_some() {
            proof {
                lemma_vulkan_index_sticks(models@, table@, i + 1, models@.len() as int);
            }
            return e;
        }
    }
    None
}

proof fn lemma_cuda_index_sticks(
    models: Seq<ModelConfig>,
    table: Seq<(usize, CudaDeviceConfig)>,
    k: int,
    n: int,
)
    requires
        k <= n,
        cuda_index_problem(models, table, k) is Some,
    ensures
        cuda_index_problem(models, table, n) == cuda_index_problem(models, table, k),
    decreases n,
{
    if k < n {
        lemma_cuda_index_sticks(models, table, k, n - 1);
    }
}

fn check_cuda_indices(
    models: &Vec<ModelConfig>,
    table: &Vec<(usize, CudaDeviceConfig)>,
) -> (r: Option<String>)
    ensures
        says(r, cuda_index_problem(models@, table@, models@.len() as int)),
{
    for i in 0..models.len()
        invariant
            cuda_index_problem(models@, table@, i as int) is None,
    {
        let m = &models[i];
        let e = check_pool(
            m.name.as_str(),
            "': cuda_device ",
            "devices.cuda",
            &m.cuda_devices,
            table,
        );
        if e.is_some() {
            proof {
                lemma_cuda_index_sticks(models@, table@, i + 1, models@.len() as int);
            }
            return e;
        }
    }
    None
}

/// Tells which GPU offload the words of a command ask a llama.cpp program for.
pub fn requested_offload(words: Option<Vec<String>>) -> (r: Option<OffloadDecl>)
    ensures
        r == offload_request(words_view(words)),
{
    let w = match words {
        Some(w) => w,
        None => {
            return None;
        },
    };
    if w.len() == 0 {
        return None;
    }
    assert(texts(w@)[0] == w@[0]@);
    if !names_llama(w[0].as_str()) {
        return None;
    }
    let args = vstd::slice::slice_subrange(w.as_slice(), 1, w.len());
    assert(texts(args@) =~= texts(w@).skip(1));
    let d = llama_offload_decl(args);
    if d == OffloadDecl::Absent || d == OffloadDecl::Layers(0) {
        None
    } else {
        Some(d)
    }
}

proof fn lemma_offload_sticks(
    models: Seq<ModelConfig>,
    fragments: Seq<(String, String)>,
    k: int,
    n: int,
)
    requires
        k <= n,
        offload_problem(models, fragments, k) is Some,
    ensures
        offload_problem(models, fragments, n) == offload_problem(models, fragments, k),
    decreases n,
{
    if k < n {
        lemma_offload_sticks(models, fragments, k, n - 1);
    }
}

fn check_offload(models: &Vec<ModelConfig>, fragments: &Vec<(String, String)>) -> (r: Option<
    String,
>)
    ensures
        says(r, offload_problem(models@, fragments@, models@.len() as int)),
{
    for i in 0..models.len()
        invariant
            offload_problem(models@, fragments@, i as int) is None,
    {
        let m = &models[i];
        if m.vulkan_devices.len() == 0 && m.cuda_devices.len() == 0 {
            let line = fill_command(fragments, m, 0);
            if let Some(d) = requested_offload(split_words(line.as_str())) {
                proof {
                    lemma_offload_sticks(models@, fragments@, i + 1, models@.len() as int);
                }
                let words = match d {
                    OffloadDecl::Layers(n) => {
                        let number = to_signed_decimal(n);
                        cat("--n-gpu-layers ", number.as_str())
                    },
                    _ => "--n-gpu-layers, unreadable".to_owned(),
                };
                let head = cat3(
                    "model '",
                    m.name.as_str(),
                    "' is CPU-only (no device pool) but its command requests GPU offload (",
                );
                return Some(
                    cat3(
                        head.as_str(),
                        words.as_str(),
                        ") — add vulkan_devices/cuda_devices or drop the flag (use a CPU alias)",
                    ),
                );
            }
        }
    }
    None
}

impl Config {
    fn find_problem(&self, drm_slots: &Vec<String>, pci_slots: &Vec<String>) -> (r: Option<String>)
        ensures
            says(r, config_problem(*self, drm_slots@, pci_slots@)),
    {
        let e = check_models(&self.models);
        if e.is_some() {
            return e;
        }
        let e = check_aliases(&self.aliases, &self.models);
        if e.is_some() {
            return e;
        }
        let e = check_fragments(&self.cmd_aliases);
        if e.is_some() {
            return e;
        }
        let e = check_port_range(&self.server.port_range);
        if e.is_some() {
            return e;
        }
        let e = check_keep_alive(&self.keep_alive);
        if e.is_some() {
            return e;
        }
        match &self.devices {
            Some(devs) => {
                let e = check_devices(devs, drm_slots, pci_slots);
                if e.is_some() {
                    return e;
                }
                let e = check_vulkan_indices(&self.models, &devs.vulkan);
                if e.is_some() {
                    return e;
                }
                let e = check_cuda_indices(&self.models, &devs.cuda);
                if e.is_some() {
                    return e;
                }
            },
            None => {
                let none: Vec<(usize, CudaDeviceConfig)> = Vec::new();
                assert(none@ =~= cuda_table(self.devices));
                let e = check_cuda_indices(&self.models, &none);
                if e.is_some() {
                    return e;
                }
            },
        }
        check_offload(&self.models, &self.cmd_aliases)
    }
}

// ── Validation: a problem is reported exactly when a rule is broken ─────────

proof fn lemma_models(models: Seq<ModelConfig>, n: int)
    requires
        0 <= n <= models.len(),
    ensures
        models_problem(models, n) is None <==> models_sound(models.take(n)),
    decreases n,
{
    if n > 0 {
        lemma_models(models, n - 1);
        let all = models.take(n);
        let front = models.take(n - 1);
        assert forall|i: int| 0 <= i < n - 1 implies #[trigger] all[i] == front[i] by {}
        assert(all[n - 1] == models[n - 1]);
        let name = models[n - 1].name@;
        if models_sound(all) {
            assert forall|i: int| 0 <= i < front.len() implies model_sound(#[trigger] front[i]) by {
                assert(all[i] == front[i]);
            }
            assert forall|i: int, j: int| 0 <= i < j < front.len() implies #[trigger] front[i].name@
                != #[trigger] front[j].name@ by {
                assert(all[i].name@ != all[j].name@);
            }
            assert(model_sound(all[n - 1]));
            if names_model(front, name) {
                let i = choose|i: int| 0 <= i < front.len() && #[trigger] front[i].name@ == name;
                assert(all[i].name@ != all[n - 1].name@);
            }
        }
        if models_problem(models, n) is None {
            assert forall|i: int| 0 <= i < all.len() implies model_sound(#[trigger] all[i]) by {
                if i < n - 1 {
                    assert(model_sound(front[i]));
                }
            }
            assert forall|i: int, j: int| 0 <= i < j < all.len() implies #[trigger] all[i].name@
                != #[trigger] all[j].name@ by {
                assert(all[i] == front[i]);
                if j < n - 1 {
                    assert(front[i].name@ != front[j].name@);
                } else {
                    assert(front[i].name@ != name);
                }
            }
        }
    }
}

proof fn lemma_targets(a: AliasConfig, models: Seq<ModelConfig>, n: int)
    requires
        0 <= n <= a.targets@.len(),
    ensures
        targets_problem(a, models, n) is None <==> (forall|k: int|
            0 <= k < n ==> (#[trigger] a.targets@[k])@.len() > 0 && names_model(
                models,
                a.targets@[k]@,
            )),
    decreases n,
{
    if n > 0 {
        lemma_targets(a, models, n - 1);
    }
}

proof fn lemma_aliases(aliases: Seq<AliasConfig>, models: Seq<ModelConfig>, n: int)
    requires
        0 <= n <= aliases.len(),
    ensures
        aliases_problem(aliases, models, n) is None <==> aliases_sound(aliases.take(n), models),
    decreases n,
{
    if n > 0 {
        lemma_aliases(aliases, models, n - 1);
        let all = aliases.take(n);
        let front = aliases.take(n - 1);
        let a = aliases[n - 1];
        lemma_targets(a, models, a.targets@.len() as int);
        assert forall|i: int| 0 <= i < n - 1 implies #[trigger] all[i] == front[i] by {}
        assert(all[n - 1] == a);
        if aliases_sound(all, models) {
            assert forall|i: int| 0 <= i < front.len() implies alias_sound(
                #[trigger] front[i],
                models,
            ) by {
                assert(all[i] == front[i]);
            }
            assert forall|i: int, j: int| 0 <= i < j < front.len() implies #[trigger] front[i].name@
                != #[trigger] front[j].name@ by {
                assert(all[i].name@ != all[j].name@);
            }
            assert(alias_sound(all[n - 1], models));
            if names_alias(front, a.name@) {
                let i = choose|i: int| 0 <= i < front.len() && #[trigger] front[i].name@ == a.name@;
                assert(all[i].name@ != all[n - 1].name@);
            }
        }
        if aliases_problem(aliases, models, n) is None {
            assert forall|i: int| 0 <= i < all.len() implies alias_sound(
                #[trigger] all[i],
                models,
            ) by {
                if i < n - 1 {
                    assert(alias_sound(front[i], models));
                }
            }
            assert forall|i: int, j: int| 0 <= i < j < all.len() implies #[trigger] all[i].name@
                != #[trigger] all[j].name@ by {
                assert(all[i] == front[i]);
                if j < n - 1 {
                    assert(front[i].name@ != front[j].name@);
                } else {
                    assert(front[i].name@ != a.name@);
                }
            }
        }
    }
}

proof fn lemma_fragments(fragments: Seq<(String, String)>)
    ensures
        fragments_problem(fragments) is None <==> cmd_aliases_sound(fragments),
{
    if fragments_problem(fragments) is None {
        assert forall|i: int| 0 <= i < fragments.len() implies !reserved_name(
            (#[trigger] fragments[i]).0@,
        ) by {}
    }
    if cmd_aliases_sound(fragments) {
        assert(!names_fragment(fragments, "port"@));
        assert(!names_fragment(fragments, "context_length"@));
        assert(!names_fragment(fragments, "name"@));
    }
}

proof fn lemma_vulkan_missing(devs: DevicesConfig, drm: Seq<String>, n: int)
    requires
        0 <= n <= devs.vulkan@.len(),
    ensures
        vulkan_missing(devs, drm, n) is None <==> (forall|i: int|
            0 <= i < n ==> lists_slot(drm, (#[trigger] devs.vulkan@[i]).1@)),
    decreases n,
{
    if n > 0 {
        lemma_vulkan_missing(devs, drm, n - 1);
    }
}

proof fn lemma_vulkan_repeated(devs: DevicesConfig, n: int)
    requires
        0 <= n <= devs.vulkan@.len(),
    ensures
        vulkan_repeated(devs, n) is None <==> (forall|i: int, j: int|
            0 <= i < j < n ==> (#[trigger] devs.vulkan@[i]).1@ != (#[trigger] devs.vulkan@[j]).1@),
    decreases n,
{
    if n > 0 {
        lemma_vulkan_repeated(devs, n - 1);
        let front = devs.vulkan@.take(n - 1);
        let slot = devs.vulkan@[n - 1].1@;
        if vulkan_has_slot(front, slot) {
            let i = choose|i: int| 0 <= i < front.len() && (#[trigger] front[i]).1@ == slot;
            assert(devs.vulkan@[i].1@ == slot);
        } else {
            assert forall|i: int| 0 <= i < n - 1 implies (#[trigger] devs.vulkan@[i]).1@ != slot by {
                assert(front[i].1@ != slot);
            }
        }
    }
}

proof fn lemma_cuda(devs: DevicesConfig, pci: Seq<String>, n: int)
    requires
        0 <= n <= devs.cuda@.len(),
    ensures
        cuda_problem(devs, pci, n) is None <==> {
            &&& forall|i: int|
                0 <= i < n ==> lists_slot(pci, (#[trigger] devs.cuda@[i]).1.pci@)
            &&& forall|i: int, j: int|
                0 <= i < j < n ==> (#[trigger] devs.cuda@[i]).1.pci@ != (
                #[trigger] devs.cuda@[j]).1.pci@
            &&& forall|i: int, j: int|
                0 <= i < n && 0 <= j < devs.vulkan@.len() ==> (#[trigger] devs.cuda@[i]).1.pci@
                    != (#[trigger] devs.vulkan@[j]).1@
        },
    decreases n,
{
    if n > 0 {
        lemma_cuda(devs, pci, n - 1);
        let front = devs.cuda@.take(n - 1);
        let slot = devs.cuda@[n - 1].1.pci@;
        if cuda_has_slot(front, slot) {
            let i = choose|i: int| 0 <= i < front.len() && (#[trigger] front[i]).1.pci@ == slot;
            assert(devs.cuda@[i].1.pci@ == slot);
        } else {
            assert forall|i: int| 0 <= i < n - 1 implies (#[trigger] devs.cuda@[i]).1.pci@
                != slot by {
                assert(front[i].1.pci@ != slot);
            }
        }
    }
}

proof fn lemma_pool<V>(
    name: Seq<char>,
    what: Seq<char>,
    section: Seq<char>,
    pool: Seq<usize>,
    table: Seq<(usize, V)>,
    n: int,
)
    requires
        0 <= n <= pool.len(),
    ensures
        pool_problem(name, what, section, pool, table, n) is None <==> (forall|k: int|
            0 <= k < n ==> has_index(table, #[trigger] pool[k])),
    decreases n,
{
    if n > 0 {
        lemma_pool(name, what, section, pool, table, n - 1);
    }
}

proof fn lemma_vulkan_indices(models: Seq<ModelConfig>, table: Seq<(usize, String)>, n: int)
    requires
        0 <= n <= models.len(),
    ensures
        vulkan_index_problem(models, table, n) is None <==> (forall|i: int, k: int|
            0 <= i < n && 0 <= k < models[i].vulkan_devices@.len() ==> has_index(
                table,
                #[trigger] models[i].vulkan_devices@[k],
            )),
    decreases n,
{
    if n > 0 {
        lemma_vulkan_indices(models, table, n - 1);
        let m = models[n - 1];
        lemma_pool(
            m.name@,
            "': vulkan_device "@,
            "devices.vulkan"@,
            m.vulkan_devices@,
            table,
            m.vulkan_devices@.len() as int,
        );
    }
}

proof fn lemma_cuda_indices(
    models: Seq<ModelConfig>,
    table: Seq<(usize, CudaDeviceConfig)>,
    n: int,
)
    requires
        0 <= n <= models.len(),
    ensures
        cuda_index_problem(models, table, n) is None <==> (forall|i: int, k: int|
            0 <= i < n && 0 <= k < models[i].cuda_devices@.len() ==> has_index(
                table,
                #[trigger] models[i].cuda_devices@[k],
            )),
    decreases n,
{
    if n > 0 {
        lemma_cuda_indices(models, table, n - 1);
        let m = models[n - 1];
        lemma_pool(
            m.name@,
            "': cuda_device "@,
            "devices.cuda"@,
            m.cuda_devices@,
            table,
            m.cuda_devices@.len() as int,
        );
    }
}

proof fn lemma_offload(models: Seq<ModelConfig>, fragments: Seq<(String, String)>, n: int)
    requires
        0 <= n <= models.len(),
    ensures
        offload_problem(models, fragments, n) is None <==> (forall|i: int|
            0 <= i < n && cpu_only(#[trigger] models[i]) ==> offload_request(
                command_words(models[i], fragments),
            ) is None),
    decreases n,
{
    if n > 0 {
        lemma_offload(models, fragments, n - 1);
    }
}

/// A configuration has no problem exactly when it meets all the rules.
pub proof fn lemma_problem_iff_unsound(
    cfg: Config,
    drm_slots: Seq<String>,
    pci_slots: Seq<String>,
)
    ensures
        config_problem(cfg, drm_slots, pci_slots) is None <==> config_sound(
            cfg,
            drm_slots,
            pci_slots,
        ),
{
    let n = cfg.models@.len() as int;
    lemma_models(cfg.models@, n);
    assert(cfg.models@.take(n) =~= cfg.models@);
    let k = cfg.aliases@.len() as int;
    lemma_aliases(cfg.aliases@, cfg.models@, k);
    assert(cfg.aliases@.take(k) =~= cfg.aliases@);
    lemma_fragments(cfg.cmd_aliases@);
    lemma_cuda_indices(cfg.models@, cuda_table(cfg.devices), n);
    lemma_offload(cfg.models@, cfg.cmd_aliases@, n);
    if let Some(devs) = cfg.devices {
        lemma_vulkan_missing(devs, drm_slots, devs.vulkan@.len() as int);
        lemma_vulkan_repeated(devs, devs.vulkan@.len() as int);
        lemma_cuda(devs, pci_slots, devs.cuda@.len() as int);
        lemma_vulkan_indices(cfg.models@, devs.vulkan@, n);
        assert(devices_problem(devs, drm_slots, pci_slots) is None <==> devices_sound(
            devs,
            drm_slots,
            pci_slots,
        ));
        assert(vulkan_index_problem(cfg.models@, devs.vulkan@, n) is None <==> vulkan_indices_sound(
            cfg,
        ));
    }
}

impl Config {
    /// Checks the configuration for semantic errors. `drm_slots` are the PCI
    /// slots of the DRM cards that are there, `pci_slots` the slots among
    /// those of the CUDA devices that are on the PCI bus.
    pub fn validate(&self, drm_slots: &Vec<String>, pci_slots: &Vec<String>) -> (r: Result<
        (),
        ConfigError,
    >)
        ensures
            r is Ok <==> config_sound(*self, drm_slots@, pci_slots@),
            r is Err ==> r->Err_0 is Validation,
            r matches Err(ConfigError::Validation(msg)) ==> config_problem(
                *self,
                drm_slots@,
                pci_slots@,
            ) == Some(msg@),
    {
        proof {
            lemma_problem_iff_unsound(*self, drm_slots@, pci_slots@);
        }
        match self.find_problem(drm_slots, pci_slots) {
            Some(msg) => Err(ConfigError::Validation(msg)),
            None => Ok(()),
        }
    }
}

/// Where the API keys file is: an absolute path stays as it is; a relative
/// one starts at the directory of the configuration file.
pub open spec fn apikeys_path(parent: Option<Seq<char>>, file: Seq<char>) -> Seq<char> {
    if file.len() > 0 && file[0] == '/' {
        file
    } else {
        match parent {
            Some(dir) => if dir.len() == 0 {
                file
            } else if dir.last() == '/' {
                dir + file
            } else {
                dir + "/"@ + file
            },
            None => file,
        }
    }
}

/// Resolves the API keys file against the directory of the configuration file.
pub fn resolve_apikeys_file(parent: Option<&str>, file: &str) -> (r: String)
    ensures
        r@ == apikeys_path(
            match parent {
                Some(dir) => Some(dir@),
                None => None,
            },
            file@,
        ),
{
    if file.unicode_len() > 0 && file.get_char(0) == '/' {
        return file.to_owned();
    }
    match parent {
        Some(dir) => {
            let n: usize = dir.unicode_len();
            if n == 0 {
                file.to_owned()
            } else if dir.get_char(n - 1) == '/' {
                cat(dir, file)
            } else {
                cat3(dir, "/", file)
            }
        },
        None => file.to_owned(),
    }
}

/// A parsed configuration with the path of its API keys file resolved against
/// the directory of the configuration file; nothing else changes.
pub open spec fn is_resolved(r: Config, parsed: Config, parent: Option<Seq<char>>) -> bool {
    &&& r == (Config { apikeys_file: r.apikeys_file, ..parsed })
    &&& r.apikeys_file@ == apikeys_path(parent, parsed.apikeys_file@)
}

/// No rule looks at the path of the API keys file: a configuration with the
/// resolved path is sound exactly when the parsed one is, and has the same
/// problem.
pub proof fn law_rules_ignore_the_keys_path(
    c: Config,
    parsed: Config,
    parent: Option<Seq<char>>,
    drm_slots: Seq<String>,
    pci_slots: Seq<String>,
)
    requires
        is_resolved(c, parsed, parent),
    ensures
        config_sound(c, drm_slots, pci_slots) <==> config_sound(parsed, drm_slots, pci_slots),
        config_problem(c, drm_slots, pci_slots) == config_problem(parsed, drm_slots, pci_slots),
{
}

impl Config {
    /// Goes on with a configuration file that has been read and parsed:
    /// resolves the path of the API keys file against the directory of the
    /// configuration file, not against the working directory, and checks the
    /// rules. Nothing else changes.
    pub fn load(
        parsed: Config,
        parent: Option<&str>,
        drm_slots: &Vec<String>,
        pci_slots: &Vec<String>,
    ) -> (r: Result<Config, ConfigError>)
        ensures
            r is Ok <==> config_sound(parsed, drm_slots@, pci_slots@),
            r matches Ok(c) ==> is_resolved(
                c,
                parsed,
                match parent {
                    Some(dir) => Some(dir@),
                    None => None,
                },
            ) && config_sound(c, drm_slots@, pci_slots@),
            r is Err ==> r->Err_0 is Validation,
            r matches Err(ConfigError::Validation(msg)) ==> config_problem(
                parsed,
                drm_slots@,
                pci_slots@,
            ) == Some(msg@),
    {
        let apikeys_file = resolve_apikeys_file(parent, parsed.apikeys_file.as_str());
        let config = Config { apikeys_file, ..parsed };
        proof {
            law_rules_ignore_the_keys_path(
                config,
                parsed,
                match parent {
                    Some(dir) => Some(dir@),
                    None => None,
                },
                drm_slots@,
                pci_slots@,
            );
        }
        match config.validate(drm_slots, pci_slots) {
            Ok(()) => Ok(config),
            Err(e) => Err(e),
        }
    }
}

impl ConfigError {
    /// The error in words.
    pub open spec fn words(&self) -> Seq<char> {
        match self {
            ConfigError::Io(e) => "failed to read config file: "@ + e@,
            ConfigError::Yaml(e) => "invalid YAML: "@ + e@,
            ConfigError::Validation(e) => "config validation failed: "@ + e@,
        }
    }

    /// Puts the error into words.
    pub fn message(&self) -> (r: String)
        ensures
            r@ == self.words(),
    {
        match self {
            ConfigError::Io(e) => cat("failed to read config file: ", e.as_str()),
            ConfigError::Yaml(e) => cat("invalid YAML: ", e.as_str()),
            ConfigError::Validation(e) => cat("config validation failed: ", e.as_str()),
        }
    }
}

// ── Laws ────────────────────────────────────────────────────────────────────

/// What is asked of each model: a name of its own, a context length, a command,
/// instances and slots; devices of one namespace only, and at least as many as
/// an instance spans. Without devices an instance spans one, the CPU.
pub proof fn law_rules_for_models(models: Seq<ModelConfig>)
    ensures
        models_sound(models) <==> {
            &&& forall|i: int|
                0 <= i < models.len() ==> (#[trigger] models[i]).name@.len() > 0
                    && models[i].context_length > 0 && trim(models[i].cmd@).len() > 0
                    && models[i].max_instances > 0 && models[i].max_concurrent > 0 && models[i].gpus
                    > 0 && (models[i].vulkan_devices@.len() == 0 || models[i].cuda_devices@.len()
                    == 0) && (models[i].cuda_devices@.len() > 0 ==> models[i].gpus
                    <= models[i].cuda_devices@.len()) && (models[i].vulkan_devices@.len() > 0
                    ==> models[i].gpus <= models[i].vulkan_devices@.len()) && (
                models[i].vulkan_devices@.len() == 0 && models[i].cuda_devices@.len() == 0
                    ==> models[i].gpus == 1)
            &&& forall|i: int, j: int|
                0 <= i < j < models.len() ==> #[trigger] models[i].name@
                    != #[trigger] models[j].name@
        },
{
    assert forall|i: int| 0 <= i < models.len() implies (model_sound(#[trigger] models[i]) <==> {
        let m = models[i];
        &&& m.name@.len() > 0
        &&& m.context_length > 0
        &&& trim(m.cmd@).len() > 0
        &&& m.max_instances > 0
        &&& m.max_concurrent > 0
        &&& m.gpus > 0
        &&& m.vulkan_devices@.len() == 0 || m.cuda_devices@.len() == 0
        &&& m.cuda_devices@.len() > 0 ==> m.gpus <= m.cuda_devices@.len()
        &&& m.vulkan_devices@.len() > 0 ==> m.gpus <= m.vulkan_devices@.len()
        &&& m.vulkan_devices@.len() == 0 && m.cuda_devices@.len() == 0 ==> m.gpus == 1
    }) by {}
}

/// What is asked of aliases: a name of their own, and targets that are all
/// configured models.
pub proof fn law_rules_for_aliases(
    aliases: Seq<AliasConfig>,
    models: Seq<ModelConfig>,
    i: int,
    j: int,
    k: int,
)
    requires
        aliases_sound(aliases, models),
        0 <= i < aliases.len(),
    ensures
        aliases[i].name@.len() > 0,
        aliases[i].targets@.len() > 0,
        0 <= j < aliases.len() && j != i ==> aliases[i].name@ != aliases[j].name@,
        0 <= k < aliases[i].targets@.len() ==> aliases[i].targets@[k]@.len() > 0 && exists|m: int|
            0 <= m < models.len() && (#[trigger] models[m]).name@ == aliases[i].targets@[k]@,
{
    assert(alias_sound(aliases[i], models));
    if 0 <= k < aliases[i].targets@.len() {
        assert(names_model(models, aliases[i].targets@[k]@));
    }
    if 0 <= j < i {
        assert(aliases[j].name@ != aliases[i].name@);
    }
}

/// Aliases whose names differ and whose targets are configured are accepted.
pub proof fn law_sound_aliases_are_accepted(aliases: Seq<AliasConfig>, models: Seq<ModelConfig>)
    requires
        forall|i: int|
            0 <= i < aliases.len() ==> (#[trigger] aliases[i]).name@.len() > 0
                && aliases[i].targets@.len() > 0,
        forall|i: int, j: int|
            0 <= i < j < aliases.len() ==> #[trigger] aliases[i].name@ != #[trigger] aliases[j].name@,
        forall|i: int, k: int|
            0 <= i < aliases.len() && 0 <= k < aliases[i].targets@.len() ==> (
            #[trigger] aliases[i].targets@[k])@.len() > 0 && models.map_values(
                |m: ModelConfig| m.name@,
            ).contains(aliases[i].targets@[k]@),
    ensures
        aliases_sound(aliases, models),
{
    assert forall|i: int| 0 <= i < aliases.len() implies alias_sound(#[trigger] aliases[i], models) by {
        let a = aliases[i];
        assert forall|k: int| 0 <= k < a.targets@.len() implies (#[trigger] a.targets@[k])@.len() > 0
            && names_model(models, a.targets@[k]@) by {
            let t = aliases[i].targets@[k]@;
            let names = models.map_values(|m: ModelConfig| m.name@);
            assert(names.contains(t));
            let m = choose|m: int| 0 <= m < names.len() && names[m] == t;
            assert(models[m].name@ == t);
        }
    }
}

/// What is asked of devices: every slot that is named is there, and no slot
/// stands for two devices, in whichever namespace.
pub proof fn law_rules_for_devices(
    devs: DevicesConfig,
    drm_slots: Seq<String>,
    pci_slots: Seq<String>,
    i: int,
    j: int,
)
    requires
        devices_sound(devs, drm_slots, pci_slots),
    ensures
        0 <= i < devs.vulkan@.len() ==> texts(drm_slots).contains(devs.vulkan@[i].1@),
        0 <= i < devs.cuda@.len() ==> texts(pci_slots).contains(devs.cuda@[i].1.pci@),
        0 <= i < devs.vulkan@.len() && 0 <= j < devs.vulkan@.len() && i != j
            ==> devs.vulkan@[i].1@ != devs.vulkan@[j].1@,
        0 <= i < devs.cuda@.len() && 0 <= j < devs.cuda@.len() && i != j ==> devs.cuda@[i].1.pci@
            != devs.cuda@[j].1.pci@,
        0 <= i < devs.cuda@.len() && 0 <= j < devs.vulkan@.len() ==> devs.cuda@[i].1.pci@
            != devs.vulkan@[j].1@,
{
    if 0 <= i < devs.vulkan@.len() {
        assert(lists_slot(drm_slots, devs.vulkan@[i].1@));
        let k = choose|k: int|
            0 <= k < drm_slots.len() && #[trigger] drm_slots[k]@ == devs.vulkan@[i].1@;
        assert(texts(drm_slots)[k] == devs.vulkan@[i].1@);
    }
    if 0 <= i < devs.cuda@.len() {
        assert(lists_slot(pci_slots, devs.cuda@[i].1.pci@));
        let k = choose|k: int|
            0 <= k < pci_slots.len() && #[trigger] pci_slots[k]@ == devs.cuda@[i].1.pci@;
        assert(texts(pci_slots)[k] == devs.cuda@[i].1.pci@);
    }
    if 0 <= j < i < devs.vulkan@.len() {
        assert(devs.vulkan@[j].1@ != devs.vulkan@[i].1@);
    }
    if 0 <= j < i < devs.cuda@.len() {
        assert(devs.cuda@[j].1.pci@ != devs.cuda@[i].1.pci@);
    }
}

/// What is asked of all the rest: fragments do not take the names of the other
/// placeholders, a port range does not run backwards, its word is `ephemeral`, a
/// keep-alive command is there and pauses, the devices that models name are
/// defined, and models without devices do not ask for GPU offload.
pub proof fn law_other_rules(
    cfg: Config,
    drm_slots: Seq<String>,
    pci_slots: Seq<String>,
    i: int,
    k: int,
)
    requires
        config_sound(cfg, drm_slots, pci_slots),
    ensures
        models_sound(cfg.models@),
        aliases_sound(cfg.aliases@, cfg.models@),
        cfg.devices matches Some(d) ==> devices_sound(d, drm_slots, pci_slots),
        0 <= i < cfg.cmd_aliases@.len() ==> cfg.cmd_aliases@[i].0@ != "port"@
            && cfg.cmd_aliases@[i].0@ != "context_length"@ && cfg.cmd_aliases@[i].0@ != "name"@,
        cfg.server.port_range matches PortRange::Range { start, end } ==> start <= end,
        cfg.server.port_range matches PortRange::EphemeralWord(w) ==> w@ == "ephemeral"@,
        cfg.keep_alive matches Some(a) ==> (a.amd matches Some(amd) ==> amd.sleep > 0 && trim(
            amd.cmd@,
        ).len() > 0),
        0 <= i < cfg.models@.len() && 0 <= k < cfg.models@[i].cuda_devices@.len()
            ==> cfg.devices is Some && cfg.devices->0.cuda@.map_values(
            |e: (usize, CudaDeviceConfig)| e.0,
        ).contains(cfg.models@[i].cuda_devices@[k]),
        0 <= i < cfg.models@.len() && 0 <= k < cfg.models@[i].vulkan_devices@.len()
            && cfg.devices is Some ==> cfg.devices->0.vulkan@.map_values(
            |e: (usize, String)| e.0,
        ).contains(cfg.models@[i].vulkan_devices@[k]),
        0 <= i < cfg.models@.len() && cfg.models@[i].vulkan_devices@.len() == 0
            && cfg.models@[i].cuda_devices@.len() == 0 ==> offload_request(
            command_words(cfg.models@[i], cfg.cmd_aliases@),
        ) is None,
{
    if 0 <= i < cfg.cmd_aliases@.len() {
        assert(!reserved_name(cfg.cmd_aliases@[i].0@));
    }
    if 0 <= i < cfg.models@.len() {
        if 0 <= k < cfg.models@[i].cuda_devices@.len() {
            let idx = cfg.models@[i].cuda_devices@[k];
            assert(has_index(cuda_table(cfg.devices), idx));
            let table = cuda_table(cfg.devices);
            let d = choose|d: int| 0 <= d < table.len() && (#[trigger] table[d]).0 == idx;
            assert(table.map_values(|e: (usize, CudaDeviceConfig)| e.0)[d] == idx);
        }
        if 0 <= k < cfg.models@[i].vulkan_devices@.len() && cfg.devices is Some {
            let idx = cfg.models@[i].vulkan_devices@[k];
            let table = cfg.devices->0.vulkan@;
            assert(has_index(table, idx));
            let d = choose|d: int| 0 <= d < table.len() && (#[trigger] table[d]).0 == idx;
            assert(table.map_values(|e: (usize, String)| e.0)[d] == idx);
        }
        if cfg.models@[i].vulkan_devices@.len() == 0 && cfg.models@[i].cuda_devices@.len() == 0 {
            assert(cpu_only(cfg.models@[i]));
        }
    }
}

/// A command asks for GPU offload where it runs a program of llama.cpp and
/// declares any number of layers but none, or something that cannot be read.
pub proof fn law_offload_requests(words: Seq<Seq<char>>)
    requires
        words.len() > 0,
    ensures
        offload_request(Some(words)) is Some <==> starts_with(basename(words[0]), "llama-"@)
            && offload_decl(words.skip(1)) != OffloadDecl::Absent && offload_decl(words.skip(1))
            != OffloadDecl::Layers(0),
        offload_request(None) is None,
{
}

/// The API keys file is looked for beside the configuration file, unless its
/// path is absolute.
pub proof fn law_keys_path(dir: Seq<char>, file: Seq<char>)
    ensures
        apikeys_path(Some(dir), "/"@ + file) == "/"@ + file,
        apikeys_path(None, file) == file,
        (file.len() == 0 || file[0] != '/') && dir.len() > 0 && dir.last() != '/' ==> apikeys_path(
            Some(dir),
            file,
        ) == dir + "/"@ + file,
        (file.len() == 0 || file[0] != '/') && dir.len() > 0 && dir.last() == '/' ==> apikeys_path(
            Some(dir),
            file,
        ) == dir + file,
        (file.len() == 0 || file[0] != '/') && dir.len() == 0 ==> apikeys_path(Some(dir), file)
            == file,
{
    reveal_strlit("/");
    assert(("/"@ + file)[0] == '/');
}

/// These are all the rules: what meets them is accepted.
pub proof fn law_no_other_rules(cfg: Config, drm_slots: Seq<String>, pci_slots: Seq<String>)
    requires
        models_sound(cfg.models@),
        aliases_sound(cfg.aliases@, cfg.models@),
        cfg.devices matches Some(d) ==> devices_sound(d, drm_slots, pci_slots),
        forall|i: int|
            0 <= i < cfg.cmd_aliases@.len() ==> (#[trigger] cfg.cmd_aliases@[i]).0@ != "port"@
                && cfg.cmd_aliases@[i].0@ != "context_length"@ && cfg.cmd_aliases@[i].0@ != "name"@,
        match cfg.server.port_range {
            PortRange::Range { start, end } => start <= end,
            PortRange::EphemeralWord(w) => w@ == "ephemeral"@,
        },
        cfg.keep_alive matches Some(a) ==> (a.amd matches Some(amd) ==> amd.sleep > 0 && trim(
            amd.cmd@,
        ).len() > 0),
        forall|i: int, k: int|
            0 <= i < cfg.models@.len() && 0 <= k < cfg.models@[i].cuda_devices@.len()
                ==> cfg.devices is Some && cfg.devices->0.cuda@.map_values(
                |e: (usize, CudaDeviceConfig)| e.0,
            ).contains(#[trigger] cfg.models@[i].cuda_devices@[k]),
        forall|i: int, k: int|
            0 <= i < cfg.models@.len() && 0 <= k < cfg.models@[i].vulkan_devices@.len()
                && cfg.devices is Some ==> cfg.devices->0.vulkan@.map_values(
                |e: (usize, String)| e.0,
            ).contains(#[trigger] cfg.models@[i].vulkan_devices@[k]),
        forall|i: int|
            0 <= i < cfg.models@.len() && (#[trigger] cfg.models@[i]).vulkan_devices@.len() == 0
                && cfg.models@[i].cuda_devices@.len() == 0 ==> offload_request(
                command_words(cfg.models@[i], cfg.cmd_aliases@),
            ) is None,
    ensures
        config_sound(cfg, drm_slots, pci_slots),
        config_problem(cfg, drm_slots, pci_slots) is None,
{
    lemma_problem_iff_unsound(cfg, drm_slots, pci_slots);
    assert forall|i: int, k: int|
        0 <= i < cfg.models@.len() && 0 <= k < cfg.models@[i].cuda_devices@.len() implies has_index(
        cuda_table(cfg.devices),
        #[trigger] cfg.models@[i].cuda_devices@[k],
    ) by {
        let idx = cfg.models@[i].cuda_devices@[k];
        let table = cfg.devices->0.cuda@;
        let keys = table.map_values(|e: (usize, CudaDeviceConfig)| e.0);
        assert(keys.contains(idx));
        let d = choose|d: int| 0 <= d < keys.len() && keys[d] == idx;
        assert(table[d].0 == idx);
    }
    if cfg.devices is Some {
        assert forall|i: int, k: int|
            0 <= i < cfg.models@.len() && 0 <= k < cfg.models@[i].vulkan_devices@.len() implies
            has_index(cfg.devices->0.vulkan@, #[trigger] cfg.models@[i].vulkan_devices@[k]) by {
            let idx = cfg.models@[i].vulkan_devices@[k];
            let table = cfg.devices->0.vulkan@;
            let keys = table.map_values(|e: (usize, String)| e.0);
            assert(keys.contains(idx));
            let d = choose|d: int| 0 <= d < keys.len() && keys[d] == idx;
            assert(table[d].0 == idx);
        }
    }
}

/// Devices in different slots that are all there are accepted.
pub proof fn law_sound_devices_are_accepted(
    devs: DevicesConfig,
    drm_slots: Seq<String>,
    pci_slots: Seq<String>,
)
    requires
        forall|i: int|
            0 <= i < devs.vulkan@.len() ==> texts(drm_slots).contains(
                (#[trigger] devs.vulkan@[i]).1@,
            ),
        forall|i: int|
            0 <= i < devs.cuda@.len() ==> texts(pci_slots).contains(
                (#[trigger] devs.cuda@[i]).1.pci@,
            ),
        forall|i: int, j: int|
            0 <= i < j < devs.vulkan@.len() ==> (#[trigger] devs.vulkan@[i]).1@ != (
            #[trigger] devs.vulkan@[j]).1@,
        forall|i: int, j: int|
            0 <= i < j < devs.cuda@.len() ==> (#[trigger] devs.cuda@[i]).1.pci@ != (
            #[trigger] devs.cuda@[j]).1.pci@,
        forall|i: int, j: int|
            0 <= i < devs.cuda@.len() && 0 <= j < devs.vulkan@.len() ==> (
            #[trigger] devs.cuda@[i]).1.pci@ != (#[trigger] devs.vulkan@[j]).1@,
    ensures
        devices_sound(devs, drm_slots, pci_slots),
{
    assert forall|i: int| 0 <= i < devs.vulkan@.len() implies lists_slot(
        drm_slots,
        (#[trigger] devs.vulkan@[i]).1@,
    ) by {
        let slot = devs.vulkan@[i].1@;
        assert(texts(drm_slots).contains(slot));
        let k = choose|k: int| 0 <= k < texts(drm_slots).len() && texts(drm_slots)[k] == slot;
        assert(drm_slots[k]@ == slot);
    }
    assert forall|i: int| 0 <= i < devs.cuda@.len() implies lists_slot(
        pci_slots,
        (#[trigger] devs.cuda@[i]).1.pci@,
    ) by {
        let slot = devs.cuda@[i].1.pci@;
        assert(texts(pci_slots).contains(slot));
        let k = choose|k: int| 0 <= k < texts(pci_slots).len() && texts(pci_slots)[k] == slot;
        assert(pci_slots[k]@ == slot);
    }
}

/// What is said of a model that breaks a rule. Of several broken rules the first
/// in this order is told: its name, that no model before it has that name, its
/// context length, its command, its numbers of instances, requests and devices,
/// and its device pools.
pub proof fn law_words_for_models(models: Seq<ModelConfig>, i: int)
    requires
        0 <= i < models.len(),
    ensures
        ({
            let m = models[i];
            let p = model_problem(models, i);
            let named = m.name@.len() > 0;
            let new = named && forall|j: int|
                0 <= j < i ==> (#[trigger] models[j]).name@ != m.name@;
            let sized = new && m.context_length > 0;
            let runs = sized && trim(m.cmd@).len() > 0;
            let spawns = runs && m.max_instances > 0;
            let serves = spawns && m.max_concurrent > 0;
            let placed = serves && m.gpus > 0;
            let one_kind = placed && (m.vulkan_devices@.len() == 0 || m.cuda_devices@.len() == 0);
            &&& !named ==> p == Some("model name must not be empty"@)
            &&& named && !new ==> p == Some("duplicate model name: "@ + m.name@)
            &&& new && !sized ==> p == Some(
                "model '"@ + m.name@ + "': context_length must be > 0"@,
            )
            &&& sized && !runs ==> p == Some("model '"@ + m.name@ + "': cmd must not be empty"@)
            &&& runs && !spawns ==> p == Some(
                "model '"@ + m.name@
                    + "': max_instances must be > 0 (0 would make the model unspawnable)"@,
            )
            &&& spawns && !serves ==> p == Some(
                "model '"@ + m.name@
                    + "': max_concurrent must be > 0 (0 would reject every request)"@,
            )
            &&& serves && !placed ==> p == Some("model '"@ + m.name@ + "': gpus must be >= 1"@)
            &&& placed && !one_kind ==> p == Some(
                "model '"@ + m.name@
                    + "': vulkan_devices and cuda_devices are mutually exclusive (a model uses exactly one device namespace)"@,
            )
            &&& one_kind && m.vulkan_devices@.len() == 0 && m.cuda_devices@.len() == 0 && m.gpus
                != 1 ==> p == Some(
                "model '"@ + m.name@ + "': gpus ("@ + decimal(m.gpus as nat)
                    + ") exceeds device count (0) (CPU-only models must use gpus: 1)"@,
            )
            &&& one_kind && 0 < m.cuda_devices@.len() < m.gpus ==> p == Some(
                "model '"@ + m.name@ + "': gpus ("@ + decimal(m.gpus as nat) + ") exceeds "@
                    + "cuda_devices"@ + " count ("@ + decimal(m.cuda_devices@.len()) + ")"@,
            )
            &&& one_kind && 0 < m.vulkan_devices@.len() < m.gpus ==> p == Some(
                "model '"@ + m.name@ + "': gpus ("@ + decimal(m.gpus as nat) + ") exceeds "@
                    + "vulkan_devices"@ + " count ("@ + decimal(m.vulkan_devices@.len()) + ")"@,
            )
        }),
{
    let m = models[i];
    let before = models.take(i);
    if names_model(before, m.name@) {
        let j = choose|j: int| 0 <= j < before.len() && #[trigger] before[j].name@ == m.name@;
        assert(models[j].name@ == m.name@);
    }
    if exists|j: int| 0 <= j < i && (#[trigger] models[j]).name@ == m.name@ {
        let j = choose|j: int| 0 <= j < i && (#[trigger] models[j]).name@ == m.name@;
        assert(before[j].name@ == m.name@);
    }
}

/// What is said of an alias that breaks a rule.
pub proof fn law_words_for_aliases(
    aliases: Seq<AliasConfig>,
    models: Seq<ModelConfig>,
    i: int,
    k: int,
)
    requires
        0 <= i < aliases.len(),
    ensures
        ({
            let a = aliases[i];
            let p = alias_problem(aliases, models, i);
            let new = a.name@.len() > 0 && forall|j: int|
                0 <= j < i ==> (#[trigger] aliases[j]).name@ != a.name@;
            let sound_before = forall|j: int|
                0 <= j < k ==> (#[trigger] a.targets@[j])@.len() > 0 && models.map_values(
                    |m: ModelConfig| m.name@,
                ).contains(a.targets@[j]@);
            &&& a.name@.len() == 0 ==> p == Some("alias name must not be empty"@)
            &&& a.name@.len() > 0 && !new ==> p == Some("duplicate alias name: "@ + a.name@)
            &&& new && a.targets@.len() == 0 ==> p == Some(
                "alias '"@ + a.name@ + "': target must not be empty"@,
            )
            &&& new && 0 <= k < a.targets@.len() && sound_before && a.targets@[k]@.len() == 0 ==> p
                == Some("alias '"@ + a.name@ + "': target must not be empty"@)
            &&& new && 0 <= k < a.targets@.len() && sound_before && a.targets@[k]@.len() > 0
                && !models.map_values(|m: ModelConfig| m.name@).contains(a.targets@[k]@) ==> p
                == Some(
                "alias '"@ + a.name@ + "' targets unknown model '"@ + a.targets@[k]@ + "'"@,
            )
        }),
{
    let a = aliases[i];
    let before = aliases.take(i);
    if names_alias(before, a.name@) {
        let j = choose|j: int| 0 <= j < before.len() && #[trigger] before[j].name@ == a.name@;
        assert(aliases[j].name@ == a.name@);
    }
    if exists|j: int| 0 <= j < i && (#[trigger] aliases[j]).name@ == a.name@ {
        let j = choose|j: int| 0 <= j < i && (#[trigger] aliases[j]).name@ == a.name@;
        assert(before[j].name@ == a.name@);
    }
    let names = models.map_values(|m: ModelConfig| m.name@);
    if 0 <= k < a.targets@.len() && (forall|j: int|
        0 <= j < k ==> (#[trigger] a.targets@[j])@.len() > 0 && names.contains(a.targets@[j]@)) {
        lemma_targets_so_far(a, models, k);
        lemma_named(models, a.targets@[k]@);
        if a.targets@[k]@.len() == 0 || !names.contains(a.targets@[k]@) {
            lemma_targets_problem_stays(a, models, k + 1, a.targets@.len() as int);
        }
    }
}

proof fn lemma_named(models: Seq<ModelConfig>, name: Seq<char>)
    ensures
        names_model(models, name) <==> models.map_values(|m: ModelConfig| m.name@).contains(name),
{
    let names = models.map_values(|m: ModelConfig| m.name@);
    if names_model(models, name) {
        let i = choose|i: int| 0 <= i < models.len() && #[trigger] models[i].name@ == name;
        assert(names[i] == name);
    }
    if names.contains(name) {
        let i = names.index_of(name);
        assert(models[i].name@ == name);
    }
}

proof fn lemma_targets_so_far(a: AliasConfig, models: Seq<ModelConfig>, k: int)
    requires
        0 <= k <= a.targets@.len(),
        forall|j: int|
            0 <= j < k ==> (#[trigger] a.targets@[j])@.len() > 0 && models.map_values(
                |m: ModelConfig| m.name@,
            ).contains(a.targets@[j]@),
    ensures
        targets_problem(a, models, k) is None,
    decreases k,
{
    if k > 0 {
        lemma_targets_so_far(a, models, k - 1);
        assert(a.targets@[k - 1]@.len() > 0);
        lemma_named(models, a.targets@[k - 1]@);
    }
}

proof fn lemma_targets_problem_stays(a: AliasConfig, models: Seq<ModelConfig>, k: int, n: int)
    requires
        k <= n,
        targets_problem(a, models, k) is Some,
    ensures
        targets_problem(a, models, n) == targets_problem(a, models, k),
    decreases n - k,
{
    if k < n {
        lemma_targets_problem_stays(a, models, k, n - 1);
    }
}

/// What is said of the other sections.
pub proof fn law_words_for_other_sections(
    fragments: Seq<(String, String)>,
    range: PortRange,
    ka: Option<KeepAliveConfig>,
    offload: i64,
)
    ensures
        names_fragment(fragments, "port"@) ==> fragments_problem(fragments) == Some(
            "cmd_aliases: '"@ + "port"@ + "' is a reserved name"@,
        ),
        !names_fragment(fragments, "port"@) && names_fragment(fragments, "context_length"@)
            ==> fragments_problem(fragments) == Some(
            "cmd_aliases: '"@ + "context_length"@ + "' is a reserved name"@,
        ),
        !names_fragment(fragments, "port"@) && !names_fragment(fragments, "context_length"@)
            && names_fragment(fragments, "name"@) ==> fragments_problem(fragments) == Some(
            "cmd_aliases: '"@ + "name"@ + "' is a reserved name"@,
        ),
        range matches PortRange::Range { start, end } ==> start > end ==> port_range_problem(range)
            == Some(
            "server.port_range: start ("@ + decimal(start as nat) + ") must be <= end ("@ + decimal(
                end as nat,
            ) + ")"@,
        ),
        range matches PortRange::EphemeralWord(w) ==> w@ != "ephemeral"@ ==> port_range_problem(
            range,
        ) == Some(
            "server.port_range: unknown value '"@ + w@
                + "' (expected a start/end range or \"ephemeral\")"@,
        ),
        ka matches Some(k) ==> (k.amd matches Some(amd) ==> (amd.sleep == 0 ==> keep_alive_problem(
            ka,
        ) == Some("keep_alive.amd.sleep must be > 0 (0 would busy-loop the command)"@)) && (
        amd.sleep > 0 && trim(amd.cmd@).len() == 0 ==> keep_alive_problem(ka) == Some(
            "keep_alive.amd.cmd must not be empty"@,
        ))),
        offload_words(OffloadDecl::Layers(offload)) == "--n-gpu-layers "@ + signed_decimal(
            offload as int,
        ),
        offload_words(OffloadDecl::Invalid) == "--n-gpu-layers, unreadable"@,
{
}

/// Of several problems the first is told: models come first, then aliases,
/// command fragments, the port range, keep-alive, devices, the Vulkan and the
/// CUDA indices that models name, and GPU offload without devices. Within a
/// section the first model, alias or device counts.
pub proof fn law_first_problem_is_told(
    cfg: Config,
    drm_slots: Seq<String>,
    pci_slots: Seq<String>,
    i: int,
)
    ensures
        ({
            let told = config_problem(cfg, drm_slots, pci_slots);
            let n = cfg.models@.len() as int;
            let models = models_problem(cfg.models@, n);
            let aliases = aliases_problem(cfg.aliases@, cfg.models@, cfg.aliases@.len() as int);
            let fragments = fragments_problem(cfg.cmd_aliases@);
            let range = port_range_problem(cfg.server.port_range);
            let ka = keep_alive_problem(cfg.keep_alive);
            &&& models is Some ==> told == models
            &&& models is None && aliases is Some ==> told == aliases
            &&& models is None && aliases is None && fragments is Some ==> told == fragments
            &&& models is None && aliases is None && fragments is None && range is Some ==> told
                == range
            &&& models is None && aliases is None && fragments is None && range is None && ka is Some
                ==> told == ka
            &&& models is None && aliases is None && fragments is None && range is None && ka is None
                ==> (cfg.devices matches Some(d) ==> devices_problem(d, drm_slots, pci_slots) is Some
                ==> told == devices_problem(d, drm_slots, pci_slots))
            &&& 0 <= i < n && (forall|j: int|
                0 <= j < i ==> (#[trigger] model_problem(cfg.models@, j)) is None) && model_problem(
                cfg.models@,
                i,
            ) is Some ==> told == model_problem(cfg.models@, i)
        }),
{
    let n = cfg.models@.len() as int;
    if 0 <= i < n && (forall|j: int|
        0 <= j < i ==> (#[trigger] model_problem(cfg.models@, j)) is None) && model_problem(
        cfg.models@,
        i,
    ) is Some {
        lemma_models_so_far(cfg.models@, i);
        lemma_models_problem_stays(cfg.models@, i + 1, n);
    }
}

proof fn lemma_models_so_far(models: Seq<ModelConfig>, i: int)
    requires
        forall|j: int| 0 <= j < i ==> (#[trigger] model_problem(models, j)) is None,
    ensures
        models_problem(models, i) is None,
    decreases i,
{
    if i > 0 {
        lemma_models_so_far(models, i - 1);
        assert(model_problem(models, i - 1) is None);
    }
}

proof fn lemma_models_problem_stays(models: Seq<ModelConfig>, k: int, n: int)
    requires
        k <= n,
        models_problem(models, k) is Some,
    ensures
        models_problem(models, n) == models_problem(models, k),
    decreases n - k,
{
    if k < n {
        lemma_models_problem_stays(models, k, n - 1);
    }
}

/// What is said of devices. Slots that are missing for Vulkan are told first,
/// then slots that Vulkan devices share, then the CUDA devices in order.
pub proof fn law_words_for_devices(
    devs: DevicesConfig,
    drm_slots: Seq<String>,
    pci_slots: Seq<String>,
    i: int,
)
    ensures
        0 <= i < devs.vulkan@.len() && vulkan_missing(devs, drm_slots, i) is None && !texts(
            drm_slots,
        ).contains(devs.vulkan@[i].1@) ==> devices_problem(devs, drm_slots, pci_slots) == Some(
            "devices.vulkan."@ + decimal(devs.vulkan@[i].0 as nat) + ": PCI slot '"@
                + devs.vulkan@[i].1@ + "' not found in /sys/class/drm/card*/device/"@,
        ),
        0 <= i < devs.cuda@.len() && vulkan_missing(devs, drm_slots, devs.vulkan@.len() as int)
            is None && vulkan_repeated(devs, devs.vulkan@.len() as int) is None && cuda_problem(
            devs,
            pci_slots,
            i,
        ) is None && !texts(pci_slots).contains(devs.cuda@[i].1.pci@) ==> devices_problem(
            devs,
            drm_slots,
            pci_slots,
        ) == Some(
            "devices.cuda."@ + decimal(devs.cuda@[i].0 as nat) + ": PCI slot '"@
                + devs.cuda@[i].1.pci@ + "' not found in /sys/bus/pci/devices/"@,
        ),
{
    if 0 <= i < devs.vulkan@.len() && vulkan_missing(devs, drm_slots, i) is None {
        let slot = devs.vulkan@[i].1@;
        lemma_listed(drm_slots, slot);
        if !texts(drm_slots).contains(slot) {
            lemma_missing_stays(devs, drm_slots, i + 1, devs.vulkan@.len() as int);
        }
    }
    if 0 <= i < devs.cuda@.len() && cuda_problem(devs, pci_slots, i) is None {
        let slot = devs.cuda@[i].1.pci@;
        lemma_listed(pci_slots, slot);
        if !texts(pci_slots).contains(slot) {
            lemma_cuda_problem_stays(devs, pci_slots, i + 1, devs.cuda@.len() as int);
        }
    }
}

proof fn lemma_listed(slots: Seq<String>, slot: Seq<char>)
    ensures
        lists_slot(slots, slot) <==> texts(slots).contains(slot),
{
    if lists_slot(slots, slot) {
        let k = choose|k: int| 0 <= k < slots.len() && #[trigger] slots[k]@ == slot;
        assert(texts(slots)[k] == slot);
    }
    if texts(slots).contains(slot) {
        let k = texts(slots).index_of(slot);
        assert(slots[k]@ == slot);
    }
}

proof fn lemma_missing_stays(devs: DevicesConfig, drm_slots: Seq<String>, k: int, n: int)
    requires
        k <= n,
        vulkan_missing(devs, drm_slots, k) is Some,
    ensures
        vulkan_missing(devs, drm_slots, n) == vulkan_missing(devs, drm_slots, k),
    decreases n - k,
{
    if k < n {
        lemma_missing_stays(devs, drm_slots, k, n - 1);
    }
}

proof fn lemma_cuda_problem_stays(devs: DevicesConfig, pci_slots: Seq<String>, k: int, n: int)
    requires
        k <= n,
        cuda_problem(devs, pci_slots, k) is Some,
    ensures
        cuda_problem(devs, pci_slots, n) == cuda_problem(devs, pci_slots, k),
    decreases n - k,
{
    if k < n {
        lemma_cuda_problem_stays(devs, pci_slots, k, n - 1);
    }
}

/// What is said of a model that names a device which is not defined, and of one
/// without devices that asks for GPU offload.
pub proof fn law_words_for_indices(
    models: Seq<ModelConfig>,
    vulkan: Seq<(usize, String)>,
    cuda: Seq<(usize, CudaDeviceConfig)>,
    fragments: Seq<(String, String)>,
    i: int,
)
    requires
        0 <= i < models.len(),
    ensures
        vulkan_index_problem(models, vulkan, i) is None && models[i].vulkan_devices@.len() > 0
            && !vulkan.map_values(|e: (usize, String)| e.0).contains(models[i].vulkan_devices@[0])
            ==> vulkan_index_problem(models, vulkan, i + 1) == Some(
            "model '"@ + models[i].name@ + "': vulkan_device "@ + decimal(
                models[i].vulkan_devices@[0] as nat,
            ) + " not defined in "@ + "devices.vulkan"@,
        ),
        cuda_index_problem(models, cuda, i) is None && models[i].cuda_devices@.len() > 0
            && !cuda.map_values(|e: (usize, CudaDeviceConfig)| e.0).contains(
            models[i].cuda_devices@[0],
        ) ==> cuda_index_problem(models, cuda, i + 1) == Some(
            "model '"@ + models[i].name@ + "': cuda_device "@ + decimal(
                models[i].cuda_devices@[0] as nat,
            ) + " not defined in "@ + "devices.cuda"@,
        ),
        offload_problem(models, fragments, i) is None && models[i].vulkan_devices@.len() == 0
            && models[i].cuda_devices@.len() == 0 ==> (offload_request(
            command_words(models[i], fragments),
        ) matches Some(d) ==> offload_problem(models, fragments, i + 1) == Some(
            "model '"@ + models[i].name@
                + "' is CPU-only (no device pool) but its command requests GPU offload ("@
                + offload_words(d)
                + ") — add vulkan_devices/cuda_devices or drop the flag (use a CPU alias)"@,
        )),
{
    let m = models[i];
    if m.vulkan_devices@.len() > 0 {
        let idx = m.vulkan_devices@[0];
        if has_index(vulkan, idx) {
            let k = choose|k: int| 0 <= k < vulkan.len() && (#[trigger] vulkan[k]).0 == idx;
            assert(vulkan.map_values(|e: (usize, String)| e.0)[k] == idx);
        } else {
            lemma_pool_problem_stays(
                m.name@,
                "': vulkan_device "@,
                "devices.vulkan"@,
                m.vulkan_devices@,
                vulkan,
                m.vulkan_devices@.len() as int,
            );
        }
    }
    if m.cuda_devices@.len() > 0 {
        let idx = m.cuda_devices@[0];
        if has_index(cuda, idx) {
            let k = choose|k: int| 0 <= k < cuda.len() && (#[trigger] cuda[k]).0 == idx;
            assert(cuda.map_values(|e: (usize, CudaDeviceConfig)| e.0)[k] == idx);
        } else {
            lemma_pool_problem_stays(
                m.name@,
                "': cuda_device "@,
                "devices.cuda"@,
                m.cuda_devices@,
                cuda,
                m.cuda_devices@.len() as int,
            );
        }
    }
}

proof fn lemma_pool_problem_stays<V>(
    name: Seq<char>,
    what: Seq<char>,
    section: Seq<char>,
    pool: Seq<usize>,
    table: Seq<(usize, V)>,
    n: int,
)
    requires
        n >= 1,
        !has_index(table, pool[0]),
    ensures
        pool_problem(name, what, section, pool, table, n) == Some(
            "model '"@ + name + what + decimal(pool[0] as nat) + " not defined in "@ + section,
        ),
    decreases n,
{
    if n > 1 {
        lemma_pool_problem_stays(name, what, section, pool, table, n - 1);
    } else {
        assert(pool_problem(name, what, section, pool, table, 0) is None);
    }
}

} // verus!

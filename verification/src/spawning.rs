//! Spawning: from a model's command to a registered instance.

use vstd::prelude::*;
use crate::backend::{
    cpu_args, device_args, device_env, env_texts, law_devices_are_pinned, Backend, DeviceKind,
    LlamaCppBackend, ReadyOutcome,
};
use crate::config::ModelConfig;
use crate::fingerprint::{
    fingerprint_with_aliases, is_fingerprint, lemma_sorted_form_unique, placeholder,
    substitute_fragments, with_fragments, Fingerprint,
};
use crate::gpu::GpuMetrics;
use crate::instance::{gpus_text, Instance, InstanceState};
use crate::keepalive::{acquire_actions, acquired_all, action_views, ActionView, KeepAliveAction};
use crate::numbers::{decimal, lemma_decimal_digits, to_decimal};
use crate::placement::{is_placement, law_placement_is_found, qualifies, select_gpus_for_model};
use crate::port_alloc::{scanned, PortsView};
use crate::scheduler::{
    active_count, at, count_active, device_slots, find_key, key_index, keys_sound,
    lemma_key_index, lemma_lists_insert, lists, next_id, vulkan_slots_of, InstanceManager, State,
};
use crate::settings::Settings;
use crate::text::{
    cat3, find, join, lemma_find_from, lemma_replace_absent, lemma_replace_one, replace,
    replace_str, texts,
};

verus! {

// ── Time limits ─────────────────────────────────────────────────────────────

/// Seconds that a spawn has to become ready.
pub const SPAWN_TIMEOUT: u64 = 120;

/// Seconds of readiness waiting during which no other spawn may begin.
pub const SPAWN_SERIAL_WINDOW: u64 = 15;

/// Seconds that a request may wait in the queue, at least.
pub const QUEUE_WAIT_TIMEOUT: u64 = 120;

/// How long a request waits for a spawn: the readiness timeout, the serialized
/// window and a margin.
pub fn spawn_wait_budget() -> (r: u64)
    ensures
        r == SPAWN_TIMEOUT + SPAWN_SERIAL_WINDOW + 30,
        r == 165,
{
    SPAWN_TIMEOUT + SPAWN_SERIAL_WINDOW + 30
}

/// How long a request waits in the queue. It exceeds the longest spawn.
pub fn queue_wait_budget() -> (r: u64)
    ensures
        r >= QUEUE_WAIT_TIMEOUT,
        r >= SPAWN_TIMEOUT + SPAWN_SERIAL_WINDOW + 60,
        r == QUEUE_WAIT_TIMEOUT || r == SPAWN_TIMEOUT + SPAWN_SERIAL_WINDOW + 60,
        r == 195,
{
    let spawn: u64 = SPAWN_TIMEOUT + SPAWN_SERIAL_WINDOW + 60;
    if QUEUE_WAIT_TIMEOUT > spawn {
        QUEUE_WAIT_TIMEOUT
    } else {
        spawn
    }
}

/// Seconds of the second readiness phase, which holds up no other spawn; none
/// where the first phase has decided.
pub fn second_phase(first: ReadyOutcome) -> (r: Option<u64>)
    ensures
        r == (if first == ReadyOutcome::TimedOut {
            Some((SPAWN_TIMEOUT - SPAWN_SERIAL_WINDOW) as u64)
        } else {
            None
        }),
        first == ReadyOutcome::TimedOut ==> r == Some(105u64),
{
    match first {
        ReadyOutcome::TimedOut => Some(SPAWN_TIMEOUT - SPAWN_SERIAL_WINDOW),
        _ => None,
    }
}

// ── Command line ────────────────────────────────────────────────────────────

/// A model's command with all placeholders filled in: the fragments, then the
/// port, the context length and the model's name.
pub open spec fn command_line(
    fragments: Seq<(String, String)>,
    cfg: ModelConfig,
    port: u16,
) -> Seq<char> {
    replace(
        replace(
            replace(
                with_fragments(cfg.cmd@, fragments, fragments.len() as int),
                "{port}"@,
                decimal(port as nat),
            ),
            "{context_length}"@,
            decimal(cfg.context_length as nat),
        ),
        "{name}"@,
        cfg.name@,
    )
}

/// A model's command under the settings in use.
pub open spec fn resolved_command(s: Settings, cfg: ModelConfig, port: u16) -> Seq<char> {
    command_line(s.cmd_aliases@, cfg, port)
}

/// Fills the placeholders of a model's command in.
pub fn fill_command(fragments: &Vec<(String, String)>, cfg: &ModelConfig, port: u16) -> (r: String)
    ensures
        r@ == command_line(fragments@, *cfg, port),
{
    proof {
        reveal_strlit("{port}");
        reveal_strlit("{context_length}");
        reveal_strlit("{name}");
    }
    let substituted = substitute_fragments(cfg.cmd.as_str(), fragments);
    let port_text = to_decimal(port as u64);
    let with_port = replace_str(substituted.as_str(), "{port}", port_text.as_str());
    let length = to_decimal(cfg.context_length as u64);
    let with_length = replace_str(with_port.as_str(), "{context_length}", length.as_str());
    replace_str(with_length.as_str(), "{name}", cfg.name.as_str())
}

/// Fills the placeholders of a model's command in, under the settings in use.
pub fn resolve_cmd(s: &Settings, cfg: &ModelConfig, port: u16) -> (r: String)
    ensures
        r@ == resolved_command(*s, *cfg, port),
{
    fill_command(&s.cmd_aliases, cfg, port)
}

/// The words of a command line by the rules of a POSIX shell; none where the
/// line is malformed.
pub uninterp spec fn shell_words(line: Seq<char>) -> Option<Seq<Seq<char>>>;

/// A list of words, if there is one, in terms of texts.
pub open spec fn words_view(words: Option<Vec<String>>) -> Option<Seq<Seq<char>>> {
    match words {
        Some(w) => Some(texts(w@)),
        None => None,
    }
}

/// Calls `shlex::split`. Its result is a function of the line alone, and is
/// called `shell_words`; nothing more is said of it.
#[verifier::external_body]
pub(crate) fn split_words(line: &str) -> (r: Option<Vec<String>>)
    ensures
        words_view(r) == shell_words(line@),
{
    shlex::split(line)
}

// ── Planning ────────────────────────────────────────────────────────────────

/// All that is needed to start a process.
pub struct SpawnPlan {
    /// The key that the instance will be registered under.
    pub key: u64,
    pub port: u16,
    pub program: String,
    pub args: Vec<String>,
    pub envs: Vec<(String, String)>,
    pub gpu_indices: Vec<usize>,
}

/// Why a spawn is refused after a port has been allocated.
#[derive(Debug, Clone, Copy, PartialEq, Eq, Structural)]
pub enum SpawnRefusal {
    /// The command is malformed or empty.
    BadCommand,
    /// The device pool cannot provide the number of devices that is needed.
    NotEnoughDevices,
    /// No instance key is left.
    NoKey,
}

/// The pool is there but provides too few devices.
pub open spec fn pool_short(cfg: ModelConfig, devices: Seq<usize>) -> bool {
    (cfg.vulkan_devices@.len() > 0 || cfg.cuda_devices@.len() > 0) && devices.len() < cfg.gpus
}

impl State {
    /// The state with a port given back.
    pub open spec fn port_freed(self, port: u16) -> State {
        State {
            ports: PortsView { used: self.ports.used.remove(port), ..self.ports },
            ..self
        }
    }

    /// As many instances run as the model may have. Retiring ones do not
    /// count: they take no requests and leave once idle.
    pub open spec fn at_cap(self, name: Seq<char>, cfg: ModelConfig) -> bool {
        self.instances.dom().contains(name) && active_count(self.list(name)) >= cfg.max_instances
    }
}

/// What a plan is for the given words and devices.
pub open spec fn planned(
    s: State,
    cfg: ModelConfig,
    port: u16,
    words: Seq<Seq<char>>,
    devices: Seq<usize>,
    next: State,
    r: Result<SpawnPlan, SpawnRefusal>,
) -> bool {
    if pool_short(cfg, devices) {
        r == Err::<SpawnPlan, SpawnRefusal>(SpawnRefusal::NotEnoughDevices) && next == s.port_freed(
            port,
        )
    } else if s.next_key == u64::MAX {
        r == Err::<SpawnPlan, SpawnRefusal>(SpawnRefusal::NoKey) && next == s.port_freed(port)
    } else {
        &&& next == (State { next_key: (s.next_key + 1) as u64, ..s })
        &&& r matches Ok(p)
        &&& p.key == s.next_key
        &&& p.port == port
        &&& p.program@ == words[0]
        &&& texts(p.args@) == launch_args(cfg, words, devices)
        &&& env_texts(p.envs@) == device_env(cfg.kind(), devices)
        &&& p.gpu_indices@ == devices
    }
}

/// The arguments of a launch: those of the command, and those that select
/// devices. Without a device pool a llama.cpp program is told to stay on the
/// CPU.
pub open spec fn launch_args(
    cfg: ModelConfig,
    words: Seq<Seq<char>>,
    devices: Seq<usize>,
) -> Seq<Seq<char>> {
    if cfg.vulkan_devices@.len() == 0 && cfg.cuda_devices@.len() == 0 {
        cpu_args(words[0], words.skip(1))
    } else {
        words.skip(1) + device_args(cfg.kind(), devices)
    }
}

/// The arguments of a command and those that select devices.
fn full_args(words: &Vec<String>, extra: Vec<String>) -> (r: Vec<String>)
    requires
        words@.len() > 0,
    ensures
        texts(r@) == texts(words@).skip(1) + texts(extra@),
{
    let mut out: Vec<String> = Vec::new();
    assert(texts(words@).subrange(1, 1) =~= Seq::<Seq<char>>::empty());
    assert(texts(out@) =~= Seq::<Seq<char>>::empty());
    for i in 1..words.len()
        invariant
            texts(out@) == texts(words@).subrange(1, i as int),
    {
        let ghost before = out@;
        out.push(words[i].clone());
        assert(texts(out@) =~= texts(before).push(words@[i as int]@));
        assert(texts(words@).subrange(1, i + 1) =~= texts(words@).subrange(1, i as int).push(
            words@[i as int]@,
        ));
    }
    let ghost head = out@;
    let mut rest = extra;
    out.append(&mut rest);
    assert(texts(out@) =~= texts(head) + texts(extra@));
    assert(texts(words@).subrange(1, words@.len() as int) =~= texts(words@).skip(1));
    out
}

impl InstanceManager {
    /// Begins a spawn: unless the model has as many instances as it may have,
    /// a port is allocated. `ephemeral` is a port that the system has picked;
    /// it is used where ports are ephemeral, and such ports are not kept
    /// track of.
    pub fn begin_spawn<F: Fn(u16) -> bool>(
        &mut self,
        model_name: &str,
        cfg: &ModelConfig,
        ephemeral: Option<u16>,
        port_is_free: F,
    ) -> (r: Option<u16>)
        requires
            old(self).wf(),
            forall|p: u16| call_requires(port_is_free, (p,)),
        ensures
            final(self).wf(),
            final(self)@ == (State { ports: final(self)@.ports, ..old(self)@ }),
            if old(self)@.at_cap(model_name@, *cfg) {
                r is None && final(self)@ == old(self)@
            } else if old(self)@.ports.range is EphemeralWord {
                r == ephemeral && final(self)@ == old(self)@
            } else {
                scanned(old(self)@.ports, port_is_free, final(self)@.ports, r)
            },
    {
        if let Some(list) = self.instances.get(model_name) {
            if count_active(list) >= cfg.max_instances {
                return None;
            }
        }
        if self.ports.is_ephemeral() {
            return ephemeral;
        }
        self.ports.allocate_range_sync(port_is_free)
    }

    /// Gives the port of a spawn back that does not take place.
    pub fn abandon_spawn(&mut self, port: u16)
        requires
            old(self).wf(),
        ensures
            final(self).wf(),
            final(self)@ == old(self)@.port_freed(port),
    {
        self.ports.free(port);
        assert(self@ =~= old(self)@.port_freed(port));
    }

    /// Plans a spawn for a command line that has been split into words. Where
    /// a device pool is configured but cannot be satisfied, the spawn is
    /// refused rather than run without restriction to devices.
    pub fn plan_from_words(
        &mut self,
        cfg: &ModelConfig,
        gpus: &Vec<GpuMetrics>,
        port: u16,
        words: Option<Vec<String>>,
    ) -> (r: Result<SpawnPlan, SpawnRefusal>)
        requires
            old(self).wf(),
        ensures
            final(self).wf(),
            match words {
                Some(w) => if w@.len() > 0 {
                    exists|devices: Seq<usize>|
                        #[trigger] is_placement(
                            old(self).settings,
                            old(self).instances,
                            gpus@,
                            *cfg,
                            devices,
                        ) && planned(old(self)@, *cfg, port, texts(w@), devices, final(self)@, r)
                } else {
                    r == Err::<SpawnPlan, SpawnRefusal>(SpawnRefusal::BadCommand) && final(self)@
                        == old(self)@.port_freed(port)
                },
                None => r == Err::<SpawnPlan, SpawnRefusal>(SpawnRefusal::BadCommand) && final(self)@ == old(self)@.port_freed(port),
            },
    {
        let words = match words {
            Some(w) => w,
            None => {
                self.abandon_spawn(port);
                return Err(SpawnRefusal::BadCommand);
            },
        };
        if words.len() == 0 {
            self.abandon_spawn(port);
            return Err(SpawnRefusal::BadCommand);
        }
        let devices = select_gpus_for_model(&self.settings, &self.instances, gpus, cfg);
        assert(is_placement(self.settings, self.instances, gpus@, *cfg, devices@));
        let has_pool = cfg.vulkan_devices.len() > 0 || cfg.cuda_devices.len() > 0;
        if has_pool && devices.len() < cfg.gpus {
            self.abandon_spawn(port);
            return Err(SpawnRefusal::NotEnoughDevices);
        }
        if self.next_key == u64::MAX {
            self.abandon_spawn(port);
            return Err(SpawnRefusal::NoKey);
        }
        let key: u64 = self.next_key;
        self.next_key = key + 1;
        proof {
            assert forall|name: Seq<char>| #[trigger] self@.instances.dom().contains(
                name,
            ) implies keys_sound(self@.instances[name], self@.next_key) by {
                assert(keys_sound(old(self)@.instances[name], old(self)@.next_key));
            }
        }
        let backend = LlamaCppBackend::new(cfg.device_kind());
        let extra = backend.gpu_args(devices.as_slice());
        let envs = backend.gpu_env(devices.as_slice());
        let mut args = full_args(&words, extra);
        let program = words[0].clone();
        assert(texts(words@)[0] == words@[0]@);
        if !has_pool {
            assert(texts(args@) =~= texts(words@).skip(1));
            LlamaCppBackend::enforce_cpu_offload(program.as_str(), &mut args);
        }
        let plan = SpawnPlan { key, port, program, args, envs, gpu_indices: devices };
        assert(self@ =~= (State { next_key: (old(self)@.next_key + 1) as u64, ..old(self)@ }));
        Ok(plan)
    }

    /// Plans a spawn on an allocated port, which is given back where the spawn
    /// is refused.
    pub fn plan_spawn(&mut self, cfg: &ModelConfig, gpus: &Vec<GpuMetrics>, port: u16) -> (r:
        Result<SpawnPlan, SpawnRefusal>)
        requires
            old(self).wf(),
        ensures
            final(self).wf(),
            match shell_words(resolved_command(old(self).settings, *cfg, port)) {
                Some(words) => if words.len() > 0 {
                    exists|devices: Seq<usize>|
                        #[trigger] is_placement(
                            old(self).settings,
                            old(self).instances,
                            gpus@,
                            *cfg,
                            devices,
                        ) && planned(old(self)@, *cfg, port, words, devices, final(self)@, r)
                } else {
                    r == Err::<SpawnPlan, SpawnRefusal>(SpawnRefusal::BadCommand) && final(self)@
                        == old(self)@.port_freed(port)
                },
                None => r == Err::<SpawnPlan, SpawnRefusal>(SpawnRefusal::BadCommand) && final(self)@ == old(self)@.port_freed(port),
            },
    {
        let line = resolve_cmd(&self.settings, cfg, port);
        let words = split_words(line.as_str());
        self.plan_from_words(cfg, gpus, port, words)
    }
}

// ── Registration ────────────────────────────────────────────────────────────

/// An instance as it is registered for a plan.
pub open spec fn newly_registered(
    i: Instance,
    s: State,
    name: Seq<char>,
    cfg: ModelConfig,
    plan: SpawnPlan,
    now: u64,
) -> bool {
    &&& i.key == plan.key
    &&& i.id@ == name + "@"@ + gpus_text(plan.gpu_indices@) + "#"@ + decimal(s.instance_seq as nat)
    &&& i.model_name@ == name
    &&& i.port == plan.port
    &&& i.gpu_indices@ == plan.gpu_indices@
    &&& i.state == InstanceState::Loading
    &&& i.in_flight == 0
    &&& i.last_active == now
    &&& i.config_fingerprint matches Some(f)
    &&& is_fingerprint(f@, s.settings.cmd_aliases@, cfg)
}

impl State {
    /// An instance joins the registry. Keep-alive is for Vulkan models only.
    pub open spec fn registered(
        self,
        name: Seq<char>,
        kind: DeviceKind,
        i: Instance,
        now: u64,
    ) -> State {
        State {
            instances: self.instances.insert(name, self.list(name).push(i)),
            instance_seq: next_id(self.instance_seq),
            keepalive: match self.keepalive {
                Some(k) => if kind == DeviceKind::Vulkan {
                    Some(acquired_all(k, device_slots(self.settings, i.gpu_indices@)))
                } else {
                    Some(k)
                },
                None => None,
            },
            ..self
        }.touched(name, now)
    }
}

fn copy_indices(v: &Vec<usize>) -> (r: Vec<usize>)
    ensures
        r@ == v@,
{
    let mut out: Vec<usize> = Vec::new();
    for i in 0..v.len()
        invariant
            out@ == v@.take(i as int),
    {
        out.push(v[i]);
        assert(v@.take(i + 1) =~= v@.take(i as int).push(v@[i as int]));
    }
    assert(v@.take(v@.len() as int) =~= v@);
    out
}

/// A new member with a key of its own keeps keys sound.
proof fn lemma_push_sound(s: State, name: Seq<char>, i: Instance)
    requires
        s.sound(),
        i.key < s.next_key,
        key_index(s.list(name), i.key) is None,
    ensures
        s.with_list(name, s.list(name).push(i)).sound(),
{
    let list = s.list(name);
    lemma_key_index(list, i.key);
    let next = list.push(i);
    if s.instances.dom().contains(name) {
        assert(keys_sound(list, s.next_key));
    }
    assert forall|a: int| 0 <= a < next.len() implies (#[trigger] next[a]).key < s.next_key by {
        if a < list.len() {
            assert(next[a] == list[a]);
        }
    }
    assert forall|a: int, b: int| 0 <= a < b < next.len() implies (#[trigger] next[a]).key != (
    #[trigger] next[b]).key by {
        assert(next[a] == list[a]);
        if b < list.len() {
            assert(next[b] == list[b]);
        }
    }
    assert(keys_sound(next, s.next_key));
}

impl InstanceManager {
    /// Takes the keep-alive references of an instance.
    fn acquire_keepalive(&mut self, kind: DeviceKind, devices: &Vec<usize>) -> (r: Vec<
        KeepAliveAction,
    >)
        requires
            old(self).wf(),
        ensures
            final(self).wf(),
            final(self).instances == old(self).instances,
            final(self)@ == (State {
                keepalive: match old(self)@.keepalive {
                    Some(k) => if kind == DeviceKind::Vulkan {
                        Some(acquired_all(k, device_slots(old(self).settings, devices@)))
                    } else {
                        Some(k)
                    },
                    None => None,
                },
                ..old(self)@
            }),
            action_views(r@) == (match old(self)@.keepalive {
                Some(k) => if kind == DeviceKind::Vulkan {
                    acquire_actions(k, device_slots(old(self).settings, devices@))
                } else {
                    Seq::<ActionView>::empty()
                },
                None => Seq::<ActionView>::empty(),
            }),
    {
        let mut out: Vec<KeepAliveAction> = Vec::new();
        assert(action_views(out@) =~= Seq::<ActionView>::empty());
        if kind == DeviceKind::Vulkan {
            let slots = vulkan_slots_of(&self.settings, devices);
            if let Some(k) = self.keepalive.as_mut() {
                out = k.acquire_slots(&slots);
            }
        }
        out
    }

    /// Registers the instance of a process that has just been started, as
    /// loading. Spawn intent counts as activity.
    pub fn register_spawn(
        &mut self,
        model_name: &str,
        cfg: &ModelConfig,
        plan: &SpawnPlan,
        now: u64,
    ) -> (r: Vec<KeepAliveAction>)
        requires
            old(self).wf(),
            plan.key < old(self)@.next_key,
            key_index(old(self)@.list(model_name@), plan.key) is None,
        ensures
            final(self).wf(),
            final(self)@.list(model_name@).len() == old(self)@.list(model_name@).len() + 1,
            newly_registered(
                final(self)@.list(model_name@).last(),
                old(self)@,
                model_name@,
                *cfg,
                *plan,
                now,
            ),
            final(self)@ == old(self)@.registered(
                model_name@,
                cfg.kind(),
                final(self)@.list(model_name@).last(),
                now,
            ),
            action_views(r@) == (match old(self)@.keepalive {
                Some(k) => if cfg.kind() == DeviceKind::Vulkan {
                    acquire_actions(k, device_slots(old(self).settings, plan.gpu_indices@))
                } else {
                    Seq::<ActionView>::empty()
                },
                None => Seq::<ActionView>::empty(),
            }),
    {
        let indices = copy_indices(&plan.gpu_indices);
        let mut inst = Instance::new(model_name, indices, plan.port, now);
        inst.key = plan.key;
        let seq_text = to_decimal(self.instance_seq);
        inst.id = cat3(inst.id.as_str(), "#", seq_text.as_str());
        inst.config_fingerprint = Some(fingerprint_with_aliases(&self.settings.cmd_aliases, cfg));
        self.instance_seq = if self.instance_seq == u64::MAX {
            0
        } else {
            self.instance_seq + 1
        };
        proof {
            lemma_push_sound(old(self)@, model_name@, inst);
        }
        let ghost before = self.instances@;
        if !self.instances.contains(model_name) {
            self.instances.insert(model_name, Vec::new());
            proof {
                lemma_lists_insert(before, model_name@, self.instances@[model_name@]);
            }
        }
        let ghost middle = self.instances@;
        assert(lists(middle) =~= lists(before).insert(model_name@, old(self)@.list(model_name@)));
        if let Some(list) = self.instances.get_mut(model_name) {
            list.push(inst);
        }
        proof {
            lemma_lists_insert(middle, model_name@, self.instances@[model_name@]);
        }
        assert(self@.instances =~= old(self)@.instances.insert(
            model_name@,
            old(self)@.list(model_name@).push(inst),
        ));
        proof {
            let t = old(self)@.with_list(model_name@, old(self)@.list(model_name@).push(inst));
            assert forall|name: Seq<char>| #[trigger] self@.instances.dom().contains(
                name,
            ) implies keys_sound(self@.instances[name], self@.next_key) by {
                assert(t.instances.dom().contains(name));
            }
        }
        let kind = cfg.device_kind();
        let actions = self.acquire_keepalive(kind, &plan.gpu_indices);
        self.touch_activity(model_name, now);
        assert(self@.list(model_name@).last() == inst);
        assert(self@ =~= old(self)@.registered(model_name@, cfg.kind(), inst, now));
        actions
    }
}

// ── The end of a spawn ──────────────────────────────────────────────────────

/// What becomes of an instance after readiness waiting.
#[derive(Debug, Clone, Copy, PartialEq, Eq, Structural)]
pub enum SpawnEnd {
    /// The instance serves; its process is to be watched and a waiter woken.
    Serving,
    /// The process is to be shut down and the instance unregistered. A crash
    /// is then to be noted where the process has exited by itself.
    Discard { crashed: bool },
}

impl State {
    /// An instance still has the settings that its model is configured with.
    pub open spec fn is_current(self, name: Seq<char>, i: Instance) -> bool {
        &&& self.settings.models@.dom().contains(name)
        &&& i.config_fingerprint matches Some(f)
        &&& is_fingerprint(f@, self.settings.cmd_aliases@, self.settings.models@[name])
    }

    /// A spawn ends. An instance that did not become ready is discarded, and
    /// so is one whose configuration has changed meanwhile; success forgets
    /// earlier crashes.
    pub open spec fn spawn_ended(self, name: Seq<char>, key: u64, outcome: ReadyOutcome) -> (
        State,
        SpawnEnd,
    ) {
        let discarded = self.with_state(name, key, InstanceState::Failed);
        if outcome != ReadyOutcome::Ready {
            (discarded, SpawnEnd::Discard { crashed: outcome == ReadyOutcome::ChildExited })
        } else {
            match key_index(self.list(name), key) {
                Some(i) => if self.is_current(name, self.list(name)[i]) {
                    (
                        State { crash_counts: self.crash_counts.remove(name), ..self },
                        SpawnEnd::Serving,
                    )
                } else {
                    (discarded, SpawnEnd::Discard { crashed: false })
                },
                None => (discarded, SpawnEnd::Discard { crashed: false }),
            }
        }
    }
}

/// Whether an instance was launched with the given settings.
pub fn launched_with(
    fragments: &Vec<(String, String)>,
    cfg: &ModelConfig,
    print: &Option<Fingerprint>,
) -> (r: bool)
    ensures
        r == (print matches Some(f) && is_fingerprint(f@, fragments@, *cfg)),
{
    match print {
        Some(f) => {
            let current = fingerprint_with_aliases(fragments, cfg);
            proof {
                if is_fingerprint(f@, fragments@, *cfg) {
                    lemma_sorted_form_unique(
                        f@.devices,
                        current@.devices,
                        cfg.vulkan_devices@,
                        cfg.vulkan_devices@,
                    );
                    lemma_sorted_form_unique(
                        f@.cuda_devices,
                        current@.cuda_devices,
                        cfg.cuda_devices@,
                        cfg.cuda_devices@,
                    );
                }
            }
            f.same(&current)
        },
        None => false,
    }
}

impl InstanceManager {
    /// Whether an instance still has its model's current settings.
    fn still_current(&self, model_name: &str, inst: &Instance) -> (r: bool)
        requires
            self.wf(),
        ensures
            r == self@.is_current(model_name@, *inst),
    {
        match self.settings.models.get(model_name) {
            Some(cfg) => launched_with(&self.settings.cmd_aliases, cfg, &inst.config_fingerprint),
            None => false,
        }
    }

    /// Decides what becomes of an instance after readiness waiting.
    pub fn finish_spawn(&mut self, model_name: &str, key: u64, outcome: ReadyOutcome) -> (r:
        SpawnEnd)
        requires
            old(self).wf(),
        ensures
            final(self).wf(),
            (final(self)@, r) == old(self)@.spawn_ended(model_name@, key, outcome),
    {
        if outcome != ReadyOutcome::Ready {
            self.set_state(model_name, key, InstanceState::Failed);
            return SpawnEnd::Discard { crashed: outcome == ReadyOutcome::ChildExited };
        }
        let current = match self.instances.get(model_name) {
            Some(list) => match find_key(list, key) {
                Some(i) => self.still_current(model_name, &list[i]),
                None => false,
            },
            None => false,
        };
        if !current {
            self.set_state(model_name, key, InstanceState::Failed);
            return SpawnEnd::Discard { crashed: false };
        }
        let _ = self.crash_counts.remove(model_name);
        assert(self@ =~= old(self)@.spawn_ended(model_name@, key, outcome).0);
        SpawnEnd::Serving
    }
}

// ── Watching a process ──────────────────────────────────────────────────────

/// What a look at a child process gave.
#[derive(Debug, Clone, Copy, PartialEq, Eq, Structural)]
pub enum ChildStatus {
    /// The child has been taken over by a managed removal.
    Taken,
    Running,
    Exited,
    /// Waiting for the child failed.
    Unknown,
}

/// What a watcher does next.
#[derive(Debug, Clone, Copy, PartialEq, Eq, Structural)]
pub enum WatchStep {
    /// Look again later.
    Continue,
    /// The instance is going through a managed removal.
    Quit,
    /// The process has exited unexpectedly.
    Report,
}

impl InstanceManager {
    /// Decides after a look at the process of an instance. An error counts as
    /// an exit, which keeps a wedged instance out of the routing pool.
    pub fn watch_step(&self, model_name: &str, key: u64, child: ChildStatus) -> (r: WatchStep)
        requires
            self.wf(),
        ensures
            r == (match key_index(self@.list(model_name@), key) {
                Some(i) => if self@.list(model_name@)[i].state == InstanceState::Failed {
                    WatchStep::Quit
                } else {
                    match child {
                        ChildStatus::Taken => WatchStep::Quit,
                        ChildStatus::Running => WatchStep::Continue,
                        ChildStatus::Exited => WatchStep::Report,
                        ChildStatus::Unknown => WatchStep::Report,
                    }
                },
                None => WatchStep::Quit,
            }),
    {
        let failed = match self.instances.get(model_name) {
            Some(list) => match find_key(list, key) {
                Some(i) => list[i].state == InstanceState::Failed,
                None => true,
            },
            None => true,
        };
        if failed {
            return WatchStep::Quit;
        }
        match child {
            ChildStatus::Taken => WatchStep::Quit,
            ChildStatus::Running => WatchStep::Continue,
            ChildStatus::Exited => WatchStep::Report,
            ChildStatus::Unknown => WatchStep::Report,
        }
    }
}

// ── Laws ────────────────────────────────────────────────────────────────────

/// A launch is restricted to as many devices as the model asks for. Where its
/// pool has less that qualify, the spawn is refused and the port is free again;
/// a model with a pool is never launched without devices.
pub proof fn law_a_pool_is_satisfied_or_refused(
    m: InstanceManager,
    gpus: Seq<GpuMetrics>,
    cfg: ModelConfig,
    port: u16,
    words: Seq<Seq<char>>,
    devices: Seq<usize>,
    next: State,
    r: Result<SpawnPlan, SpawnRefusal>,
    enough: Seq<usize>,
)
    requires
        is_placement(m.settings, m.instances, gpus, cfg, devices),
        planned(m@, cfg, port, words, devices, next, r),
        cfg.vulkan_devices@.len() > 0 || cfg.cuda_devices@.len() > 0,
        cfg.gpus > 0,
    ensures
        r matches Ok(p) ==> p.gpu_indices@.len() == cfg.gpus && p.gpu_indices@.no_duplicates() && (
        forall|k: int|
            0 <= k < p.gpu_indices@.len() ==> qualifies(
                m.settings,
                m.instances,
                gpus,
                cfg,
                #[trigger] p.gpu_indices@[k],
            )),
        r matches Ok(p) ==> p.envs@.len() == 1 && p.envs@[0].1@ == join(
            p.gpu_indices@.map_values(|i: usize| decimal(i as nat)),
            ","@,
        ),
        r matches Ok(p) && cfg.cuda_devices@.len() > 0 ==> r->Ok_0.envs@[0].0@
            == "CUDA_VISIBLE_DEVICES"@,
        r matches Ok(p) && cfg.cuda_devices@.len() == 0 ==> r->Ok_0.envs@[0].0@
            == "GGML_VK_VISIBLE_DEVICES"@,
        enough.no_duplicates() && enough.len() >= cfg.gpus && (forall|k: int|
            0 <= k < enough.len() ==> qualifies(
                m.settings,
                m.instances,
                gpus,
                cfg,
                #[trigger] enough[k],
            )) ==> r != Err::<SpawnPlan, SpawnRefusal>(SpawnRefusal::NotEnoughDevices),
        (forall|q: Seq<usize>|
            #[trigger] q.no_duplicates() && (forall|k: int|
                0 <= k < q.len() ==> qualifies(m.settings, m.instances, gpus, cfg, #[trigger] q[k]))
                ==> q.len() < cfg.gpus) ==> r == Err::<SpawnPlan, SpawnRefusal>(
            SpawnRefusal::NotEnoughDevices,
        ),
        r is Err ==> !next.ports.used.contains(port) && next.instances == m@.instances,
{
    law_placement_is_found(m.settings, m.instances, gpus, cfg, devices, enough);
    law_devices_are_pinned(cfg.kind(), devices);
    if let Ok(p) = r {
        assert(env_texts(p.envs@).len() == p.envs@.len());
        assert(env_texts(p.envs@)[0] == (p.envs@[0].0@, p.envs@[0].1@));
        assert(p.gpu_indices@ == devices);
    }
}

/// A launch runs the first word of the command with the others as its
/// arguments, in order and unchanged; whatever is added comes after them. It has
/// the port and a key that no instance had before.
pub proof fn law_a_launch_runs_the_command(
    s: State,
    cfg: ModelConfig,
    port: u16,
    words: Seq<Seq<char>>,
    devices: Seq<usize>,
    next: State,
    r: Result<SpawnPlan, SpawnRefusal>,
)
    requires
        planned(s, cfg, port, words, devices, next, r),
        words.len() > 0,
    ensures
        r matches Ok(p) ==> {
            &&& p.program@ == words[0]
            &&& words.skip(1).is_prefix_of(texts(p.args@))
            &&& p.port == port
            &&& p.key == s.next_key
            &&& next.next_key == s.next_key + 1
            &&& next.ports == s.ports
            &&& next.instances == s.instances
        },
        cfg.vulkan_devices@.len() == 0 && cfg.cuda_devices@.len() == 0 ==> r
            != Err::<SpawnPlan, SpawnRefusal>(SpawnRefusal::NotEnoughDevices) && (r matches Ok(p)
            ==> texts(p.args@) == cpu_args(words[0], words.skip(1))),
        (cfg.vulkan_devices@.len() > 0 || cfg.cuda_devices@.len() > 0) ==> (r matches Ok(p) ==> texts(
            p.args@,
        ) == words.skip(1)),
        r == Err::<SpawnPlan, SpawnRefusal>(SpawnRefusal::NoKey) ==> s.next_key == u64::MAX,
        r != Err::<SpawnPlan, SpawnRefusal>(SpawnRefusal::BadCommand),
{
    if cfg.vulkan_devices@.len() > 0 || cfg.cuda_devices@.len() > 0 {
        law_devices_are_pinned(cfg.kind(), devices);
        assert(words.skip(1) + Seq::<Seq<char>>::empty() =~= words.skip(1));
    }
}

/// No placeholder begins in it.
pub open spec fn plain_text(s: Seq<char>) -> bool {
    forall|i: int| 0 <= i < s.len() ==> s[i] != '{'
}

proof fn lemma_plain(s: Seq<char>, pat: Seq<char>, with: Seq<char>)
    requires
        plain_text(s),
        pat.len() > 0,
        pat[0] == '{',
    ensures
        replace(s, pat, with) == s,
{
    lemma_find_from(s, pat, 0);
    if let Some(p) = find(s, pat) {
        assert(s.subrange(p, p + pat.len())[0] == s[p]);
    }
    lemma_replace_absent(s, pat, with);
}

/// Placeholders in a command stand for the port, the context length, the name of
/// the model and the fragments; all else is kept as it is.
pub proof fn law_placeholders(
    before: Seq<char>,
    after: Seq<char>,
    fragments: Seq<(String, String)>,
    cfg: ModelConfig,
    port: u16,
)
    requires
        plain_text(before),
        plain_text(after),
        fragments.len() <= 1,
        fragments.len() == 1 ==> plain_text(fragments[0].0@) && plain_text(fragments[0].1@)
            && fragments[0].0@ != "port"@ && fragments[0].0@ != "context_length"@
            && fragments[0].0@ != "name"@,
    ensures
        fragments.len() == 0 && cfg.cmd@ == before + "{port}"@ + after ==> command_line(
            fragments,
            cfg,
            port,
        ) == before + decimal(port as nat) + after,
        fragments.len() == 0 && cfg.cmd@ == before + "{context_length}"@ + after ==> command_line(
            fragments,
            cfg,
            port,
        ) == before + decimal(cfg.context_length as nat) + after,
        fragments.len() == 0 && cfg.cmd@ == before + "{name}"@ + after ==> command_line(
            fragments,
            cfg,
            port,
        ) == before + cfg.name@ + after,
        fragments.len() == 1 && cfg.cmd@ == before + ("{"@ + fragments[0].0@ + "}"@) + after
            ==> command_line(fragments, cfg, port) == before + fragments[0].1@ + after,
        cfg.cmd@ == before ==> command_line(fragments, cfg, port) == before,
{
    reveal_strlit("{port}");
    reveal_strlit("{context_length}");
    reveal_strlit("{name}");
    reveal_strlit("{");
    reveal_strlit("}");
    let d = decimal(port as nat);
    let e = decimal(cfg.context_length as nat);
    lemma_decimal_digits(port as nat);
    lemma_decimal_digits(cfg.context_length as nat);
    if fragments.len() == 0 {
        if cfg.cmd@ == before + "{port}"@ + after {
            lemma_replace_one(before, "{port}"@, after, d);
            lemma_plain(before + d + after, "{context_length}"@, e);
            lemma_plain(before + d + after, "{name}"@, cfg.name@);
        }
        if cfg.cmd@ == before + "{context_length}"@ + after {
            lemma_other_stays(before, "{context_length}"@, after, "{port}"@, d);
            lemma_replace_one(before, "{context_length}"@, after, e);
            lemma_plain(before + e + after, "{name}"@, cfg.name@);
        }
        if cfg.cmd@ == before + "{name}"@ + after {
            lemma_other_stays(before, "{name}"@, after, "{port}"@, d);
            lemma_other_stays(before, "{name}"@, after, "{context_length}"@, e);
            lemma_replace_one(before, "{name}"@, after, cfg.name@);
        }
        if cfg.cmd@ == before {
            lemma_plain(before, "{port}"@, d);
            lemma_plain(before, "{context_length}"@, e);
            lemma_plain(before, "{name}"@, cfg.name@);
        }
    } else {
        let key = "{"@ + fragments[0].0@ + "}"@;
        let value = fragments[0].1@;
        assert(placeholder(fragments[0].0@) == key);
        assert(with_fragments(cfg.cmd@, fragments, 0) == cfg.cmd@);
        assert(with_fragments(cfg.cmd@, fragments, 1) == replace(cfg.cmd@, key, value));
        if cfg.cmd@ == before + key + after {
            let whole = before + value + after;
            lemma_replace_one(before, key, after, value);
            lemma_plain(whole, "{port}"@, d);
            lemma_plain(whole, "{context_length}"@, e);
            lemma_plain(whole, "{name}"@, cfg.name@);
        }
        if cfg.cmd@ == before {
            lemma_plain(before, key, value);
            lemma_plain(before, "{port}"@, d);
            lemma_plain(before, "{context_length}"@, e);
            lemma_plain(before, "{name}"@, cfg.name@);
        }
    }
}

/// A placeholder is not another one.
proof fn lemma_other_stays(
    before: Seq<char>,
    key: Seq<char>,
    after: Seq<char>,
    other: Seq<char>,
    with: Seq<char>,
)
    requires
        plain_text(before),
        plain_text(after),
        key.len() > 1,
        forall|i: int| 1 <= i < key.len() ==> key[i] != '{',
        other.len() > 1,
        other[0] == '{',
        key[1] != other[1],
    ensures
        replace(before + key + after, other, with) == before + key + after,
{
    let s = before + key + after;
    lemma_find_from(s, other, 0);
    if let Some(p) = find(s, other) {
        assert(s.subrange(p, p + other.len())[0] == s[p]);
        assert(s.subrange(p, p + other.len())[1] == s[p + 1]);
        if p < before.len() {
            assert(s[p] == before[p]);
        } else if p < before.len() + key.len() {
            assert(s[p] == key[p - before.len()]);
            assert(p == before.len());
            assert(s[p + 1] == key[1]);
        } else {
            assert(s[p] == after[p - before.len() - key.len()]);
        }
    }
    lemma_replace_absent(s, other, with);
}

/// A command is filled in with the fragments of the settings in use.
pub proof fn law_commands_of_the_settings(s: Settings, cfg: ModelConfig, port: u16)
    ensures
        resolved_command(s, cfg, port) == command_line(s.cmd_aliases@, cfg, port),
{
}

} // verus!

//! Building the manager from a configuration, and config hot-reload.

use vstd::prelude::*;
use crate::backend::DeviceKind;
use crate::config::{Config, GpuKeepAlive, KeepAliveConfig, ModelConfig, PortRange};
use crate::fingerprint::is_fingerprint;
use crate::instance::{Instance, InstanceState};
use crate::keepalive::{
    acquire_actions, acquired_all, action_views, amd_section, running, stops_exactly,
    KeepAliveAction, KeepAliveManager, KeepAliveView,
};
use crate::metrics::Tick;
use crate::names::{has_key, key_at, lemma_entry, NameMap};
use crate::placement::kind_of;
use crate::port_alloc::{range_start, PortAllocator, PortsView};
use crate::scheduler::{device_slots, keys_sound, lists, vulkan_slots_of, InstanceManager, State};
use crate::settings::{settings_from, settings_of, Settings};
use crate::spawning::launched_with;
use crate::text::texts;
use crate::types::CompletionRecord;
use crate::unload::retired;

verus! {

// ── A new manager ───────────────────────────────────────────────────────────

fn copy_range(range: &PortRange) -> (r: PortRange)
    ensures
        r == *range,
{
    match range {
        PortRange::Range { start, end } => PortRange::Range { start: *start, end: *end },
        PortRange::EphemeralWord(word) => PortRange::EphemeralWord(word.clone()),
    }
}

impl State {
    /// A manager without instances.
    pub open spec fn initial(
        settings: Settings,
        range: PortRange,
        keepalive: Option<KeepAliveView>,
    ) -> State {
        State {
            settings,
            ports: PortsView { used: Set::empty(), range, cursor: range_start(range) },
            instances: Map::empty(),
            queues: Map::empty(),
            next_queue_id: 0,
            instance_seq: 0,
            next_key: 0,
            blocked: Set::empty(),
            keepalive,
            metrics: Map::empty(),
            ticks: Seq::empty(),
            last_scale_action: Map::empty(),
            recent: Map::empty(),
            crash_counts: Map::empty(),
            spawning: Set::empty(),
        }
    }
}

/// A manager's keep-alive, as mathematical values.
pub open spec fn keepalive_view(k: Option<KeepAliveManager>) -> Option<KeepAliveView> {
    match k {
        Some(m) => Some(m@),
        None => None,
    }
}

impl InstanceManager {
    /// Creates a manager for a configuration.
    pub fn new(config: Config, keepalive: Option<KeepAliveManager>) -> (r: InstanceManager)
        requires
            keepalive matches Some(k) ==> k.wf(),
        ensures
            r.wf(),
            settings_of(r.settings, config),
            r@ == State::initial(r.settings, config.server.port_range, keepalive_view(keepalive)),
    {
        let range = copy_range(&config.server.port_range);
        let settings = settings_from(config);
        let instances: NameMap<Vec<Instance>> = NameMap::new();
        let queues: NameMap<Vec<u64>> = NameMap::new();
        let recent_completions: NameMap<Vec<CompletionRecord>> = NameMap::new();
        let ticks: Vec<(String, Tick)> = Vec::new();
        let r = InstanceManager {
            settings,
            ports: PortAllocator::new(range),
            instances,
            queues,
            next_queue_id: 0,
            instance_seq: 0,
            next_key: 0,
            blocked: NameMap::new(),
            keepalive,
            model_metrics: NameMap::new(),
            ticks,
            last_scale_action: NameMap::new(),
            recent_completions,
            crash_counts: NameMap::new(),
            spawns_in_flight: NameMap::new(),
        };
        assert(r@ =~= State::initial(
            r.settings,
            config.server.port_range,
            keepalive_view(keepalive),
        ));
        r
    }
}

// ── Retiring stale instances ────────────────────────────────────────────────

/// An instance takes requests, or will, but was launched with other settings
/// than the new ones of its model.
pub open spec fn stale(i: Instance, new: Settings, cfg: ModelConfig) -> bool {
    i.state != InstanceState::Failed && !(i.config_fingerprint matches Some(f) && is_fingerprint(
        f@,
        new.cmd_aliases@,
        cfg,
    ))
}

/// An instance after a reload.
pub open spec fn reloaded(i: Instance, name: Seq<char>, new: Settings) -> Instance {
    if new.models@.dom().contains(name) && stale(i, new, new.models@[name]) {
        retired(i)
    } else {
        i
    }
}

/// A list after a reload: stale instances retire, all others stay untouched.
pub open spec fn reloaded_list(list: Seq<Instance>, name: Seq<char>, new: Settings) -> Seq<Instance> {
    list.map_values(|i: Instance| reloaded(i, name, new))
}

/// The registry after a reload.
pub open spec fn reloaded_instances(
    instances: Map<Seq<char>, Seq<Instance>>,
    new: Settings,
) -> Map<Seq<char>, Seq<Instance>> {
    Map::new(
        |name: Seq<char>| instances.dom().contains(name),
        |name: Seq<char>| reloaded_list(instances[name], name, new),
    )
}

fn retire_stale(list: &mut Vec<Instance>, name: &str, new: &Settings)
    requires
        new.models.wf(),
    ensures
        final(list)@ == reloaded_list(old(list)@, name@, *new),
{
    let ghost before = list@;
    let cfg = match new.models.get(name) {
        Some(cfg) => cfg,
        None => {
            assert(list@ =~= reloaded_list(before, name@, *new));
            return;
        },
    };
    let n: usize = list.len();
    for i in 0..n
        invariant
            n == before.len(),
            list@.len() == n,
            new.models@.dom().contains(name@),
            *cfg == new.models@[name@],
            forall|j: int| 0 <= j < i ==> list@[j] == reloaded(#[trigger] before[j], name@, *new),
            forall|j: int| i <= j < n ==> list@[j] == #[trigger] before[j],
    {
        assert(list@[i as int] == before[i as int]);
        if list[i].state != InstanceState::Failed && !launched_with(
            &new.cmd_aliases,
            cfg,
            &list[i].config_fingerprint,
        ) {
            list[i].state = InstanceState::Failed;
        }
    }
    assert(list@ =~= reloaded_list(before, name@, *new));
}

/// Retiring changes no key.
proof fn lemma_reloaded_sound(list: Seq<Instance>, name: Seq<char>, new: Settings, next: u64)
    requires
        keys_sound(list, next),
    ensures
        keys_sound(reloaded_list(list, name, new), next),
{
    let r = reloaded_list(list, name, new);
    assert forall|a: int| 0 <= a < r.len() implies (#[trigger] r[a]).key < next by {
        assert(r[a].key == list[a].key);
    }
    assert forall|a: int, b: int| 0 <= a < b < r.len() implies (#[trigger] r[a]).key != (
    #[trigger] r[b]).key by {
        assert(r[a].key == list[a].key);
        assert(r[b].key == list[b].key);
    }
}

/// Retires the stale instances of all models.
fn retire_stale_instances(instances: &mut NameMap<Vec<Instance>>, new: &Settings)
    requires
        old(instances).wf(),
        new.models.wf(),
    ensures
        final(instances).wf(),
        lists(final(instances)@) == reloaded_instances(lists(old(instances)@), *new),
{
    let ghost before = instances.entries@;
    let n: usize = instances.entries.len();
    for i in 0..n
        invariant
            n == before.len(),
            instances.entries@.len() == n,
            new.models.wf(),
            forall|j: int|
                0 <= j < n ==> (#[trigger] instances.entries@[j]).0 == before[j].0,
            forall|j: int|
                0 <= j < i ==> (#[trigger] instances.entries@[j]).1@ == reloaded_list(
                    before[j].1@,
                    before[j].0@,
                    *new,
                ),
            forall|j: int| i <= j < n ==> #[trigger] instances.entries@[j] == before[j],
    {
        let name = instances.entries[i].0.clone();
        assert(instances.entries@[i as int] == before[i as int]);
        retire_stale(&mut instances.entries[i].1, name.as_str(), new);
    }
    proof {
        let after = instances.entries@;
        assert forall|a: int, b: int| 0 <= a < b < after.len() implies (#[trigger] after[a]).0@ != (
        #[trigger] after[b]).0@ by {
            assert(before[a].0@ != before[b].0@);
        }
        let want = reloaded_instances(lists(old(instances)@), *new);
        assert forall|name: Seq<char>| has_key(after, name) <==> has_key(before, name) by {
            if has_key(after, name) {
                let k = key_at(after, name);
                assert(before[k].0@ == name);
            }
            if has_key(before, name) {
                let k = key_at(before, name);
                assert(after[k].0@ == name);
            }
        }
        assert(lists(instances@).dom() =~= want.dom());
        assert forall|name: Seq<char>| has_key(before, name) implies #[trigger] lists(
            instances@,
        )[name] == want[name] by {
            let k = key_at(before, name);
            assert(before[k].0@ == name);
            assert(after[k].0@ == name);
            lemma_entry(before, k);
            lemma_entry(after, k);
        }
        assert(lists(instances@) =~= want);
    }
}

// ── Keep-alive after a reload ───────────────────────────────────────────────

/// The slots in use by the first `n` models' instances, once for each instance
/// and device. Keep-alive is for Vulkan models; a model that is not configured
/// counts as one.
pub open spec fn slots_in_use(s: Settings, entries: Seq<(String, Vec<Instance>)>) -> Seq<Seq<char>>
    decreases entries.len(),
{
    if entries.len() == 0 {
        Seq::empty()
    } else if kind_of(s, entries.last().0@) == DeviceKind::Vulkan {
        slots_in_use(s, entries.drop_last()) + list_slots(s, entries.last().1@)
    } else {
        slots_in_use(s, entries.drop_last())
    }
}

/// The slots in use by a list.
pub open spec fn list_slots(s: Settings, list: Seq<Instance>) -> Seq<Seq<char>>
    decreases list.len(),
{
    if list.len() == 0 {
        Seq::empty()
    } else {
        list_slots(s, list.drop_last()) + device_slots(s, list.last().gpu_indices@)
    }
}

fn add_list_slots(out: &mut Vec<String>, s: &Settings, list: &Vec<Instance>)
    ensures
        texts(final(out)@) == texts(old(out)@) + list_slots(*s, list@),
{
    let ghost before = out@;
    assert(list@.take(0) =~= Seq::<Instance>::empty());
    assert(texts(out@) =~= texts(before) + Seq::<Seq<char>>::empty());
    for i in 0..list.len()
        invariant
            texts(out@) == texts(before) + list_slots(*s, list@.take(i as int)),
    {
        proof {
            assert(list@.take(i + 1).drop_last() =~= list@.take(i as int));
            assert(list@.take(i + 1).last() == list@[i as int]);
        }
        let mut slots = vulkan_slots_of(s, &list[i].gpu_indices);
        let ghost mid = out@;
        let ghost more = slots@;
        out.append(&mut slots);
        assert(texts(out@) =~= texts(mid) + texts(more));
        assert(texts(out@) =~= texts(before) + list_slots(*s, list@.take(i + 1)));
    }
    assert(list@.take(list@.len() as int) =~= list@);
}

fn collect_slots(s: &Settings, instances: &NameMap<Vec<Instance>>) -> (r: Vec<String>)
    requires
        s.models.wf(),
    ensures
        texts(r@) == slots_in_use(*s, instances.entries@),
{
    let mut out: Vec<String> = Vec::new();
    let ghost entries = instances.entries@;
    assert(entries.take(0) =~= Seq::<(String, Vec<Instance>)>::empty());
    assert(texts(out@) =~= Seq::<Seq<char>>::empty());
    for i in 0..instances.entries.len()
        invariant
            s.models.wf(),
            entries == instances.entries@,
            texts(out@) == slots_in_use(*s, entries.take(i as int)),
    {
        proof {
            assert(entries.take(i + 1).drop_last() =~= entries.take(i as int));
            assert(entries.take(i + 1).last() == entries[i as int]);
        }
        let e = &instances.entries[i];
        let is_vulkan = match s.models.get(e.0.as_str()) {
            Some(cfg) => cfg.device_kind() == DeviceKind::Vulkan,
            None => true,
        };
        if is_vulkan {
            add_list_slots(&mut out, s, &e.1);
        }
    }
    assert(entries.take(entries.len() as int) =~= entries);
    out
}

/// A keep-alive manager is built anew when its configuration has changed.
pub open spec fn rebuilds(k: Option<KeepAliveView>, cfg: Option<KeepAliveConfig>) -> bool {
    match k {
        Some(v) => !(amd_section(cfg) matches Some(amd) && amd.cmd@ == v.cmd && amd.sleep
            == v.sleep),
        None => cfg is Some,
    }
}

/// The keep-alive manager of a new configuration, with a reference for each
/// slot in use.
pub open spec fn rebuilt(
    cfg: Option<KeepAliveConfig>,
    cards: Map<Seq<char>, usize>,
    slots: Seq<Seq<char>>,
) -> Option<KeepAliveView> {
    match amd_section(cfg) {
        Some(amd) => Some(acquired_all(fresh_view(amd, cards), slots)),
        None => None,
    }
}

/// A manager without references.
pub open spec fn fresh_view(amd: GpuKeepAlive, cards: Map<Seq<char>, usize>) -> KeepAliveView {
    KeepAliveView { counts: Map::empty(), cards, cmd: amd.cmd@, sleep: amd.sleep }
}

fn copy_keepalive(cfg: &Option<KeepAliveConfig>) -> (r: Option<KeepAliveConfig>)
    ensures
        r == *cfg,
{
    match cfg {
        Some(k) => match &k.amd {
            Some(amd) => Some(
                KeepAliveConfig {
                    amd: Some(GpuKeepAlive { cmd: amd.cmd.clone(), sleep: amd.sleep }),
                },
            ),
            None => Some(KeepAliveConfig { amd: None }),
        },
        None => None,
    }
}

/// The keep-alive tasks that end and begin with a reload.
pub struct Reloaded {
    pub stopped: Vec<KeepAliveAction>,
    pub started: Vec<KeepAliveAction>,
}

impl InstanceManager {
    /// Puts a new configuration in place. Instances whose spawn settings have
    /// changed retire: they finish the requests in flight and take no more;
    /// replacements are spawned on demand. Ports in use stay in use. The
    /// keep-alive manager is built anew if its section has changed, with
    /// `cards` as the current card numbers. Crash blocks are lifted.
    pub fn reconcile_config(&mut self, config: Config, cards: NameMap<usize>) -> (r: Reloaded)
        requires
            old(self).wf(),
            cards.wf(),
        ensures
            final(self).wf(),
            settings_of(final(self).settings, config),
            final(self)@ == (State {
                settings: final(self).settings,
                ports: PortsView {
                    range: config.server.port_range,
                    cursor: range_start(config.server.port_range),
                    ..old(self)@.ports
                },
                instances: reloaded_instances(old(self)@.instances, final(self).settings),
                blocked: Set::empty(),
                crash_counts: Map::empty(),
                keepalive: if rebuilds(old(self)@.keepalive, config.keep_alive) {
                    rebuilt(
                        config.keep_alive,
                        cards@,
                        slots_in_use(final(self).settings, final(self).instances.entries@),
                    )
                } else {
                    old(self)@.keepalive
                },
                ..old(self)@
            }),
            if rebuilds(old(self)@.keepalive, config.keep_alive) {
                &&& match old(self)@.keepalive {
                    Some(k) => stops_exactly(action_views(r.stopped@), running(k)),
                    None => r.stopped@.len() == 0,
                }
                &&& match amd_section(config.keep_alive) {
                    Some(amd) => action_views(r.started@) == acquire_actions(
                        fresh_view(amd, cards@),
                        slots_in_use(final(self).settings, final(self).instances.entries@),
                    ),
                    None => r.started@.len() == 0,
                }
            } else {
                r.stopped@.len() == 0 && r.started@.len() == 0
            },
    {
        let range = copy_range(&config.server.port_range);
        let keep_alive = copy_keepalive(&config.keep_alive);
        let settings = settings_from(config);
        retire_stale_instances(&mut self.instances, &settings);
        proof {
            assert forall|name: Seq<char>| #[trigger] self@.instances.dom().contains(
                name,
            ) implies keys_sound(self@.instances[name], self@.next_key) by {
                assert(keys_sound(old(self)@.instances[name], old(self)@.next_key));
                lemma_reloaded_sound(
                    old(self)@.instances[name],
                    name,
                    settings,
                    old(self)@.next_key,
                );
            }
        }
        self.settings = settings;
        self.ports.set_range(range);
        self.blocked = NameMap::new();
        self.crash_counts = NameMap::new();
        assert(self@.blocked =~= Set::empty());
        let rebuild = match &self.keepalive {
            Some(k) => !k.matches(&keep_alive),
            None => keep_alive.is_some(),
        };
        let mut stopped: Vec<KeepAliveAction> = Vec::new();
        let mut started: Vec<KeepAliveAction> = Vec::new();
        if rebuild {
            if let Some(k) = self.keepalive.as_mut() {
                stopped = k.stop_all();
            }
            let slots = collect_slots(&self.settings, &self.instances);
            let mut next = KeepAliveManager::new(keep_alive, cards);
            if let Some(k) = next.as_mut() {
                started = k.acquire_slots(&slots);
            }
            self.keepalive = next;
        }
        Reloaded { stopped, started }
    }
}

// ── Laws ────────────────────────────────────────────────────────────────────

/// A reload interrupts no request: every instance stays registered with its
/// requests in flight, and it retires only if it was launched with other
/// settings than the new ones.
pub proof fn law_reload_interrupts_nothing(
    instances: Map<Seq<char>, Seq<Instance>>,
    new: Settings,
    name: Seq<char>,
    i: int,
)
    requires
        instances.dom().contains(name),
        0 <= i < instances[name].len(),
    ensures
        ({
            let before = instances[name][i];
            let after = reloaded_instances(instances, new)[name][i];
            &&& reloaded_instances(instances, new)[name].len() == instances[name].len()
            &&& after.in_flight == before.in_flight
            &&& after.key == before.key
            &&& (before.config_fingerprint matches Some(f) && new.models@.dom().contains(name)
                && is_fingerprint(f@, new.cmd_aliases@, new.models@[name]) ==> after == before)
            &&& (!new.models@.dom().contains(name) ==> after == before)
        }),
{
}

/// After a reload no instance of a configured model takes requests with old
/// settings.
pub proof fn law_reload_retires_stale_instances(
    instances: Map<Seq<char>, Seq<Instance>>,
    new: Settings,
    name: Seq<char>,
    i: int,
    max_concurrent: usize,
)
    requires
        instances.dom().contains(name),
        0 <= i < instances[name].len(),
        new.models@.dom().contains(name),
        reloaded_instances(instances, new)[name][i].takes_request(max_concurrent),
    ensures
        instances[name][i].config_fingerprint matches Some(f) && is_fingerprint(
            f@,
            new.cmd_aliases@,
            new.models@[name],
        ),
{
}

/// A new manager has no instances, no queues, no blocks and no ports in use,
/// and gives out ports from the beginning of the configured range.
pub proof fn law_new_manager(settings: Settings, range: PortRange, keepalive: Option<KeepAliveView>)
    ensures
        State::initial(settings, range, keepalive).instances == Map::<Seq<char>, Seq<Instance>>::empty(),
        State::initial(settings, range, keepalive).queues.dom() == Set::<Seq<char>>::empty(),
        State::initial(settings, range, keepalive).blocked == Set::<Seq<char>>::empty(),
        State::initial(settings, range, keepalive).spawning == Set::<Seq<char>>::empty(),
        State::initial(settings, range, keepalive).crash_counts.dom() == Set::<Seq<char>>::empty(),
        State::initial(settings, range, keepalive).ports.used == Set::<u16>::empty(),
        State::initial(settings, range, keepalive).ports.range == range,
        range matches PortRange::Range { start, end } ==> State::initial(
            settings,
            range,
            keepalive,
        ).ports.cursor == start,
        State::initial(settings, range, keepalive).settings == settings,
        State::initial(settings, range, keepalive).keepalive == keepalive,
{
}

/// What a reload does to an instance: one that was launched with other settings
/// than the new ones of its model is marked as failed, and nothing else of it
/// changes. All others stay as they are.
pub proof fn law_what_a_reload_retires(
    instances: Map<Seq<char>, Seq<Instance>>,
    new: Settings,
    name: Seq<char>,
    i: int,
)
    requires
        instances.dom().contains(name),
        0 <= i < instances[name].len(),
    ensures
        ({
            let before = instances[name][i];
            let after = reloaded_instances(instances, new)[name][i];
            let current = before.config_fingerprint matches Some(f) && is_fingerprint(
                f@,
                new.cmd_aliases@,
                new.models@[name],
            );
            after == if new.models@.dom().contains(name) && !current {
                Instance { state: InstanceState::Failed, ..before }
            } else {
                before
            }
        }),
        reloaded_instances(instances, new).dom() == instances.dom(),
{
    assert(reloaded_instances(instances, new).dom() =~= instances.dom());
}

/// A keep-alive manager stays through a reload exactly when its command and its
/// pause stay. One is set up where there was none and a section is there now,
/// and none is left where the section is gone.
pub proof fn law_when_keepalive_is_rebuilt(
    v: KeepAliveView,
    amd: GpuKeepAlive,
    cards: Map<Seq<char>, usize>,
    slots: Seq<Seq<char>>,
)
    ensures
        rebuilds(Some(v), Some(KeepAliveConfig { amd: Some(amd) })) <==> amd.cmd@ != v.cmd
            || amd.sleep != v.sleep,
        rebuilds(Some(v), Some(KeepAliveConfig { amd: None })),
        rebuilds(Some(v), None),
        rebuilds(None, Some(KeepAliveConfig { amd: Some(amd) })),
        !rebuilds(None, None),
        rebuilt(None, cards, slots) is None,
        rebuilt(Some(KeepAliveConfig { amd: None }), cards, slots) is None,
        rebuilt(Some(KeepAliveConfig { amd: Some(amd) }), cards, slots) == Some(
            acquired_all(
                KeepAliveView { counts: Map::empty(), cards, cmd: amd.cmd@, sleep: amd.sleep },
                slots,
            ),
        ),
{
}

/// After a reload each instance of a Vulkan model holds a reference to the slot
/// of each of its devices; instances of other models hold none.
pub proof fn law_slots_in_use(
    s: Settings,
    entries: Seq<(String, Vec<Instance>)>,
    e: (String, Vec<Instance>),
    list: Seq<Instance>,
    i: Instance,
)
    ensures
        slots_in_use(s, Seq::empty()) == Seq::<Seq<char>>::empty(),
        slots_in_use(s, entries.push(e)) == if kind_of(s, e.0@) == DeviceKind::Vulkan {
            slots_in_use(s, entries) + list_slots(s, e.1@)
        } else {
            slots_in_use(s, entries)
        },
        list_slots(s, Seq::empty()) == Seq::<Seq<char>>::empty(),
        list_slots(s, list.push(i)) == list_slots(s, list) + device_slots(s, i.gpu_indices@),
{
    assert(entries.push(e).drop_last() =~= entries);
    assert(list.push(i).drop_last() =~= list);
}

} // verus!

//! The instance manager: running instances, wait queues, crash blocks and
//! everything that is decided about them.
//!
//! Decisions and their effects on the registry are made here, each in one
//! step. Starting and stopping processes, waiting and waking is up to the
//! caller, which is told what to do by the results.

use vstd::pervasive::unreached;
use vstd::prelude::*;
use crate::backend::DeviceKind;
use crate::instance::{Instance, InstanceState};
use crate::keepalive::{
    action_views, count_up, one_more, release_actions, released_all, ActionView, KeepAliveAction,
    KeepAliveManager, KeepAliveView,
};
use crate::metrics::{ModelMetrics, Tick};
use crate::names::NameMap;
use crate::placement::{kind_of, slot_in};
use crate::port_alloc::{PortAllocator, PortsView};
use crate::settings::{find_index, Settings};
use crate::text::texts;
use crate::types::CompletionRecord;

verus! {

// ── State ───────────────────────────────────────────────────────────────────

/// Owns the map from models to running instances and what belongs to it.
pub struct InstanceManager {
    /// Model definitions and device tables; swapped on reload.
    pub settings: Settings,
    /// Port allocator.
    pub ports: PortAllocator,
    /// Running instances, by model name.
    pub instances: NameMap<Vec<Instance>>,
    /// Parked requests by model name, the first in line first.
    pub queues: NameMap<Vec<u64>>,
    /// The id of the next parked request.
    pub next_queue_id: u64,
    /// Appended to instance ids.
    pub instance_seq: u64,
    /// The key of the next instance.
    pub next_key: u64,
    /// Models that refuse all requests.
    pub blocked: NameMap<()>,
    /// Keep-alive, if it is configured.
    pub keepalive: Option<KeepAliveManager>,
    /// Activity of each model.
    pub model_metrics: NameMap<ModelMetrics>,
    /// Steps that the load averages have yet to be advanced by.
    pub ticks: Vec<(String, Tick)>,
    /// Time of the last autoscale action of a model.
    pub last_scale_action: NameMap<u64>,
    /// Recent completions of each model, newest first.
    pub recent_completions: NameMap<Vec<CompletionRecord>>,
    /// Consecutive crashes before readiness, by model name.
    pub crash_counts: NameMap<usize>,
    /// Models with a spawn in flight.
    pub spawns_in_flight: NameMap<()>,
}

/// What the manager holds, as mathematical values.
#[verifier::ext_equal]
pub struct State {
    pub settings: Settings,
    pub ports: PortsView,
    pub instances: Map<Seq<char>, Seq<Instance>>,
    pub queues: Map<Seq<char>, Seq<u64>>,
    pub next_queue_id: u64,
    pub instance_seq: u64,
    pub next_key: u64,
    pub blocked: Set<Seq<char>>,
    pub keepalive: Option<KeepAliveView>,
    pub metrics: Map<Seq<char>, ModelMetrics>,
    pub ticks: Seq<(Seq<char>, Tick)>,
    pub last_scale_action: Map<Seq<char>, u64>,
    pub recent: Map<Seq<char>, Seq<CompletionRecord>>,
    pub crash_counts: Map<Seq<char>, usize>,
    pub spawning: Set<Seq<char>>,
}

/// A table of vectors as a map of sequences.
pub open spec fn lists<V>(m: Map<Seq<char>, Vec<V>>) -> Map<Seq<char>, Seq<V>> {
    m.map_values(|v: Vec<V>| v@)
}

/// A list in such a map; a missing one is empty.
pub open spec fn at<V>(m: Map<Seq<char>, Seq<V>>, name: Seq<char>) -> Seq<V> {
    if m.dom().contains(name) {
        m[name]
    } else {
        Seq::empty()
    }
}

/// Setting one list.
pub proof fn lemma_lists_insert<V>(m: Map<Seq<char>, Vec<V>>, name: Seq<char>, v: Vec<V>)
    ensures
        lists(m.insert(name, v)) == lists(m).insert(name, v@),
{
    assert(lists(m.insert(name, v)) =~= lists(m).insert(name, v@));
}

/// Named steps in terms of texts.
pub open spec fn tick_views(ticks: Seq<(String, Tick)>) -> Seq<(Seq<char>, Tick)> {
    ticks.map_values(|t: (String, Tick)| (t.0@, t.1))
}

impl View for InstanceManager {
    type V = State;

    open spec fn view(&self) -> State {
        State {
            settings: self.settings,
            ports: self.ports@,
            instances: lists(self.instances@),
            queues: lists(self.queues@),
            next_queue_id: self.next_queue_id,
            instance_seq: self.instance_seq,
            next_key: self.next_key,
            blocked: self.blocked@.dom(),
            keepalive: match self.keepalive {
                Some(k) => Some(k@),
                None => None,
            },
            metrics: self.model_metrics@,
            ticks: tick_views(self.ticks@),
            last_scale_action: self.last_scale_action@,
            recent: lists(self.recent_completions@),
            crash_counts: self.crash_counts@,
            spawning: self.spawns_in_flight@.dom(),
        }
    }
}

/// The keys of a list are distinct and below `next`.
pub open spec fn keys_sound(list: Seq<Instance>, next: u64) -> bool {
    &&& forall|i: int| 0 <= i < list.len() ==> (#[trigger] list[i]).key < next
    &&& forall|i: int, j: int|
        0 <= i < j < list.len() ==> (#[trigger] list[i]).key != (#[trigger] list[j]).key
}

impl State {
    /// The keys in every list are distinct and have been given out.
    pub open spec fn sound(self) -> bool {
        forall|name: Seq<char>| #[trigger]
            self.instances.dom().contains(name) ==> keys_sound(
                self.instances[name],
                self.next_key,
            )
    }

    /// The state with another list of instances for a model.
    pub open spec fn with_list(self, name: Seq<char>, list: Seq<Instance>) -> State {
        State { instances: self.instances.insert(name, list), ..self }
    }

    /// The instances of a model.
    pub open spec fn list(self, name: Seq<char>) -> Seq<Instance> {
        at(self.instances, name)
    }

    /// The requests that are parked for a model.
    pub open spec fn queue(self, name: Seq<char>) -> Seq<u64> {
        at(self.queues, name)
    }
}

impl InstanceManager {
    /// Names occur once in each table, and instance keys are sound.
    pub open spec fn wf(&self) -> bool {
        &&& self.settings.models.wf()
        &&& self.instances.wf()
        &&& self.queues.wf()
        &&& self.blocked.wf()
        &&& self.model_metrics.wf()
        &&& self.last_scale_action.wf()
        &&& self.recent_completions.wf()
        &&& self.crash_counts.wf()
        &&& self.spawns_in_flight.wf()
        &&& (self.keepalive matches Some(k) ==> k.wf())
        &&& self@.sound()
    }
}

/// Crashes before readiness that block a model.
pub const CRASH_LIMIT: usize = 3;

/// How many recent completions are kept per model.
pub const RECENT_COMPLETIONS: usize = 5;

/// Why no instance slot could be provided.
#[derive(Debug, Clone, Copy, PartialEq, Eq, Structural)]
pub enum AcquireError {
    /// The model is crash-blocked.
    Blocked,
    /// Instances exist but all are busy, and the queue is full or the wait
    /// timed out.
    NoCapacity,
    /// No instance could be provided at all: the model is unknown, its spawn
    /// failed, or all remaining instances are retiring.
    Unavailable,
}

/// Why a request could not wait in the queue.
#[derive(Debug, Clone, Copy, PartialEq, Eq, Structural)]
pub enum EnqueueError {
    /// The queue is at capacity.
    QueueFull,
    /// No routable instance exists: nothing could ever wake a waiter.
    NoInstances,
    /// The queue wait timed out.
    Timeout,
}

/// How instance removal treats an instance with in-flight requests.
#[derive(Debug, Clone, Copy, PartialEq, Eq, Structural)]
pub enum RemovalMode {
    /// Skip busy instances entirely.
    IfIdle,
    /// Mark busy instances draining and finish their removal later.
    Drain,
    /// Remove even busy instances.
    Force,
}

// ── Lookups ─────────────────────────────────────────────────────────────────

/// The position of a key in a list.
pub open spec fn key_index(list: Seq<Instance>, key: u64) -> Option<int>
    decreases list.len(),
{
    if list.len() == 0 {
        None
    } else {
        match key_index(list.drop_last(), key) {
            Some(i) => Some(i),
            None => if list.last().key == key {
                Some(list.len() - 1)
            } else {
                None
            },
        }
    }
}

/// What the position of a key is.
pub proof fn lemma_key_index(list: Seq<Instance>, key: u64)
    ensures
        key_index(list, key) matches Some(i) ==> 0 <= i < list.len() && list[i].key == key,
        key_index(list, key) is None ==> forall|i: int|
            0 <= i < list.len() ==> (#[trigger] list[i]).key != key,
    decreases list.len(),
{
    if list.len() > 0 {
        lemma_key_index(list.drop_last(), key);
        if key_index(list, key) is None {
            assert forall|i: int| 0 <= i < list.len() implies (#[trigger] list[i]).key != key by {
                if i < list.len() - 1 {
                    assert(list.drop_last()[i].key != key);
                }
            }
        }
    }
}

/// Finds the position of a key.
pub fn find_key(list: &Vec<Instance>, key: u64) -> (r: Option<usize>)
    ensures
        r is Some <==> key_index(list@, key) is Some,
        r matches Some(i) ==> key_index(list@, key) == Some(i as int) && i < list@.len()
            && list@[i as int].key == key,
{
    let mut found: Option<usize> = None;
    assert(list@.take(0) =~= Seq::<Instance>::empty());
    for i in 0..list.len()
        invariant
            found is Some <==> key_index(list@.take(i as int), key) is Some,
            found matches Some(k) ==> key_index(list@.take(i as int), key) == Some(k as int) && k < i,
    {
        proof {
            assert(list@.take(i + 1).drop_last() =~= list@.take(i as int));
            assert(list@.take(i + 1).last() == list@[i as int]);
        }
        if found.is_none() && list[i].key == key {
            found = Some(i);
        }
    }
    proof {
        assert(list@.take(list@.len() as int) =~= list@);
        lemma_key_index(list@, key);
    }
    found
}

/// The instance that the next request goes to: the first one with the fewest
/// requests in flight among those that take a request.
pub open spec fn least_ready(list: Seq<Instance>, max_concurrent: usize) -> Option<int>
    decreases list.len(),
{
    if list.len() == 0 {
        None
    } else {
        let last = list.last();
        match least_ready(list.drop_last(), max_concurrent) {
            Some(i) => if last.takes_request(max_concurrent) && last.in_flight < list[i].in_flight {
                Some(list.len() - 1)
            } else {
                Some(i)
            },
            None => if last.takes_request(max_concurrent) {
                Some(list.len() - 1)
            } else {
                None
            },
        }
    }
}

/// A request goes to an instance that takes it, and to none that is busier
/// than another; it is refused only where every instance is full or not ready.
pub proof fn law_least_ready(list: Seq<Instance>, max_concurrent: usize)
    ensures
        least_ready(list, max_concurrent) matches Some(i) ==> {
            &&& 0 <= i < list.len()
            &&& list[i].takes_request(max_concurrent)
            &&& forall|j: int|
                0 <= j < list.len() && (#[trigger] list[j]).takes_request(max_concurrent)
                    ==> list[i].in_flight <= list[j].in_flight
            &&& forall|j: int|
                0 <= j < i && (#[trigger] list[j]).takes_request(max_concurrent)
                    ==> list[i].in_flight < list[j].in_flight
        },
        least_ready(list, max_concurrent) is None ==> forall|j: int|
            0 <= j < list.len() ==> !(#[trigger] list[j]).takes_request(max_concurrent),
    decreases list.len(),
{
    if list.len() > 0 {
        let front = list.drop_last();
        law_least_ready(front, max_concurrent);
        assert forall|j: int| 0 <= j < front.len() implies #[trigger] list[j] == front[j] by {}
        match least_ready(front, max_concurrent) {
            Some(i) => {
                assert(list[i] == front[i]);
            },
            None => {},
        }
    }
}

/// Finds the instance that the next request goes to.
fn find_least_ready(list: &Vec<Instance>, max_concurrent: usize) -> (r: Option<usize>)
    ensures
        r is Some <==> least_ready(list@, max_concurrent) is Some,
        r matches Some(i) ==> least_ready(list@, max_concurrent) == Some(i as int) && i < list@.len()
            && list@[i as int].takes_request(max_concurrent),
{
    let mut best: Option<usize> = None;
    assert(list@.take(0) =~= Seq::<Instance>::empty());
    for i in 0..list.len()
        invariant
            best is Some <==> least_ready(list@.take(i as int), max_concurrent) is Some,
            best matches Some(k) ==> least_ready(list@.take(i as int), max_concurrent) == Some(
                k as int,
            ) && k < i,
    {
        proof {
            assert(list@.take(i + 1).drop_last() =~= list@.take(i as int));
            assert(list@.take(i + 1).last() == list@[i as int]);
        }
        if list[i].has_capacity(max_concurrent) {
            match best {
                Some(k) => {
                    if list[i].in_flight < list[k].in_flight {
                        best = Some(i);
                    }
                },
                None => {
                    best = Some(i);
                },
            }
        }
    }
    proof {
        assert(list@.take(list@.len() as int) =~= list@);
        law_least_ready(list@, max_concurrent);
    }
    best
}

/// How many instances are not retiring.
pub open spec fn active_count(list: Seq<Instance>) -> nat
    decreases list.len(),
{
    if list.len() == 0 {
        0
    } else {
        active_count(list.drop_last()) + if list.last().state != InstanceState::Failed {
            1nat
        } else {
            0
        }
    }
}

/// Counts the instances that are not retiring.
pub fn count_active(list: &Vec<Instance>) -> (r: usize)
    ensures
        r == active_count(list@),
{
    let mut n: usize = 0;
    assert(list@.take(0) =~= Seq::<Instance>::empty());
    for i in 0..list.len()
        invariant
            n == active_count(list@.take(i as int)),
            n <= i,
    {
        proof {
            assert(list@.take(i + 1).drop_last() =~= list@.take(i as int));
            assert(list@.take(i + 1).last() == list@[i as int]);
        }
        if list[i].state != InstanceState::Failed {
            n += 1;
        }
    }
    assert(list@.take(list@.len() as int) =~= list@);
    n
}

/// Requests in flight on all instances of a list.
pub open spec fn in_flight_sum(list: Seq<Instance>) -> nat
    decreases list.len(),
{
    if list.len() == 0 {
        0
    } else {
        in_flight_sum(list.drop_last()) + list.last().in_flight as nat
    }
}

fn sum_in_flight(list: &Vec<Instance>) -> (r: u128)
    ensures
        r == in_flight_sum(list@),
        r <= list@.len() * usize::MAX,
{
    let mut n: u128 = 0;
    let len: usize = list.len();
    assert(list@.take(0) =~= Seq::<Instance>::empty());
    for i in 0..len
        invariant
            len == list@.len(),
            n == in_flight_sum(list@.take(i as int)),
            n <= i * usize::MAX,
    {
        proof {
            assert(list@.take(i + 1).drop_last() =~= list@.take(i as int));
            assert(list@.take(i + 1).last() == list@[i as int]);
            assert((i + 1) * usize::MAX == i * usize::MAX + usize::MAX) by (nonlinear_arith);
            assert(i * usize::MAX + usize::MAX <= u128::MAX) by (nonlinear_arith)
                requires
                    i < usize::MAX,
                    usize::MAX <= 0xffff_ffff_ffff_ffff,
            ;
        }
        n += list[i].in_flight as u128;
    }
    assert(list@.take(list@.len() as int) =~= list@);
    n
}

impl State {
    /// Requests in flight or parked for a model.
    pub open spec fn active(self, name: Seq<char>) -> nat {
        in_flight_sum(self.list(name)) + self.queue(name).len()
    }
}

// ── Metrics ─────────────────────────────────────────────────────────────────

impl State {
    /// The metrics of a model, fresh where there are none.
    pub open spec fn metrics_of(self, name: Seq<char>, now: u64) -> ModelMetrics {
        if self.metrics.dom().contains(name) {
            self.metrics[name]
        } else {
            ModelMetrics::fresh(now)
        }
    }

    /// The state after a tick of one model's metrics.
    pub open spec fn ticked(self, name: Seq<char>, completions: u64, now: u64) -> State {
        let m = self.metrics_of(name, now);
        State {
            metrics: self.metrics.insert(
                name,
                m.ticked(now, self.active(name) as u128, completions),
            ),
            ticks: match m.step(now, completions) {
                Some(t) => self.ticks.push((name, t)),
                None => self.ticks,
            },
            ..self
        }
    }

    /// The state after spawn intent: activity without a tick.
    pub open spec fn touched(self, name: Seq<char>, now: u64) -> State {
        State {
            metrics: self.metrics.insert(
                name,
                ModelMetrics { last_activity: now, ..self.metrics_of(name, now) },
            ),
            ..self
        }
    }

    /// The state after a tick of the first `n` models.
    pub open spec fn ticked_all(self, names: Seq<Seq<char>>, now: u64) -> State
        decreases names.len(),
    {
        if names.len() == 0 {
            self
        } else {
            self.ticked_all(names.drop_last(), now).ticked(names.last(), 0, now)
        }
    }
}

impl InstanceManager {
    /// Number of requests that are parked for a model.
    pub fn queue_depth(&self, model_name: &str) -> (r: usize)
        requires
            self.wf(),
        ensures
            r == self@.queue(model_name@).len(),
    {
        match self.queues.get(model_name) {
            Some(q) => q.len(),
            None => 0,
        }
    }

    /// Requests in flight or parked for a model.
    fn active_requests(&self, model_name: &str) -> (r: u128)
        requires
            self.wf(),
        ensures
            r == self@.active(model_name@),
    {
        let queued: usize = self.queue_depth(model_name);
        match self.instances.get(model_name) {
            Some(list) => {
                let n: u128 = sum_in_flight(list);
                let len: usize = list.len();
                assert(n + queued <= u128::MAX) by (nonlinear_arith)
                    requires
                        n <= len * usize::MAX,
                        len <= usize::MAX,
                        queued <= usize::MAX,
                        usize::MAX <= 0xffff_ffff_ffff_ffff,
                ;
                n + queued as u128
            },
            None => queued as u128,
        }
    }

    /// Records a metrics event: `completions` is 0 for acquires and 1 for
    /// releases, whatever the outcome of the request.
    pub fn record_metrics_event(&mut self, model_name: &str, completions: u64, now: u64)
        requires
            old(self).wf(),
        ensures
            final(self).wf(),
            final(self)@ == old(self)@.ticked(model_name@, completions, now),
            final(self).instances == old(self).instances,
    {
        let active: u128 = self.active_requests(model_name);
        let mut m = match self.model_metrics.get(model_name) {
            Some(m) => *m,
            None => ModelMetrics::new(now),
        };
        let step = m.tick(now, active, completions);
        self.model_metrics.insert(model_name, m);
        let ghost before = self.ticks@;
        if let Some(t) = step {
            self.ticks.push((model_name.to_owned(), t));
            assert(tick_views(self.ticks@) =~= tick_views(before).push((model_name@, t)));
        }
        assert(self@ =~= old(self)@.ticked(model_name@, completions, now));
    }

    /// Bumps the last activity of a model without advancing its averages. On
    /// spawn intent this keeps the idle clock from acting on a stale time.
    pub fn touch_activity(&mut self, model_name: &str, now: u64)
        requires
            old(self).wf(),
        ensures
            final(self).wf(),
            final(self)@ == old(self)@.touched(model_name@, now),
    {
        let mut m = match self.model_metrics.get(model_name) {
            Some(m) => *m,
            None => ModelMetrics::new(now),
        };
        m.last_activity = now;
        self.model_metrics.insert(model_name, m);
        assert(self@ =~= old(self)@.touched(model_name@, now));
    }

    /// Names of the models with a list of instances.
    pub fn listed_models(&self) -> (r: Vec<String>)
        ensures
            texts(r@) == entry_names(self.instances.entries@),
    {
        let mut out: Vec<String> = Vec::new();
        for i in 0..self.instances.entries.len()
            invariant
                texts(out@) == entry_names(self.instances.entries@.take(i as int)),
        {
            let ghost before = out@;
            out.push(self.instances.entries[i].0.clone());
            assert(texts(out@) =~= texts(before).push(self.instances.entries@[i as int].0@));
            assert(entry_names(self.instances.entries@.take(i + 1)) =~= entry_names(
                self.instances.entries@.take(i as int),
            ).push(self.instances.entries@[i as int].0@));
        }
        assert(self.instances.entries@.take(self.instances.entries@.len() as int)
            =~= self.instances.entries@);
        out
    }

    /// Brings the metrics of every model with a list of instances up to now.
    pub fn force_refresh(&mut self, now: u64)
        requires
            old(self).wf(),
        ensures
            final(self).wf(),
            final(self)@ == old(self)@.ticked_all(entry_names(old(self).instances.entries@), now),
            final(self).instances == old(self).instances,
            final(self).settings == old(self).settings,
    {
        let names = self.listed_models();
        let ghost all = texts(names@);
        assert(all.take(0) =~= Seq::<Seq<char>>::empty());
        for i in 0..names.len()
            invariant
                self.wf(),
                all == texts(names@),
                self@ == old(self)@.ticked_all(all.take(i as int), now),
                self.instances == old(self).instances,
                self.settings == old(self).settings,
        {
            proof {
                assert(all.take(i + 1).drop_last() =~= all.take(i as int));
                assert(all.take(i + 1).last() == names@[i as int]@);
            }
            self.record_metrics_event(names[i].as_str(), 0, now);
        }
        assert(all.take(all.len() as int) =~= all);
    }

    /// Hands out the steps that the averages have yet to be advanced by.
    pub fn take_ticks(&mut self) -> (r: Vec<(String, Tick)>)
        requires
            old(self).wf(),
        ensures
            final(self).wf(),
            tick_views(r@) == old(self)@.ticks,
            final(self)@ == (State { ticks: Seq::empty(), ..old(self)@ }),
    {
        let mut out: Vec<(String, Tick)> = Vec::new();
        std::mem::swap(&mut out, &mut self.ticks);
        assert(tick_views(self.ticks@) =~= Seq::<(Seq<char>, Tick)>::empty());
        assert(self@ =~= (State { ticks: Seq::empty(), ..old(self)@ }));
        out
    }

    /// Records a completed request. The newest comes first, and no more than
    /// `RECENT_COMPLETIONS` are kept per model.
    pub fn record_completion(&mut self, model_name: &str, record: CompletionRecord)
        requires
            old(self).wf(),
        ensures
            final(self).wf(),
            final(self)@ == (State {
                recent: old(self)@.recent.insert(
                    model_name@,
                    newest_first(at(old(self)@.recent, model_name@), record),
                ),
                ..old(self)@
            }),
    {
        let ghost all = self.recent_completions@;
        let mut list = match self.recent_completions.remove(model_name) {
            Some(list) => list,
            None => Vec::new(),
        };
        let ghost before = list@;
        assert(before == at(lists(all), model_name@));
        list.insert(0, record);
        assert(list@ =~= seq![record] + before);
        if list.len() > RECENT_COMPLETIONS {
            list.truncate(RECENT_COMPLETIONS);
        }
        assert(list@ =~= newest_first(before, record));
        self.recent_completions.insert(model_name, list);
        assert(lists(self.recent_completions@) =~= lists(all).insert(model_name@, list@));
        assert(self@ =~= (State {
            recent: old(self)@.recent.insert(
                model_name@,
                newest_first(at(old(self)@.recent, model_name@), record),
            ),
            ..old(self)@
        }));
    }
}

/// The names of a table, in order.
pub open spec fn entry_names<V>(entries: Seq<(String, V)>) -> Seq<Seq<char>> {
    entries.map_values(|e: (String, V)| e.0@)
}

/// A list with a new first member, cut to the length that is kept.
pub open spec fn newest_first<T>(list: Seq<T>, record: T) -> Seq<T> {
    let longer = seq![record] + list;
    if longer.len() > RECENT_COMPLETIONS {
        longer.take(RECENT_COMPLETIONS as int)
    } else {
        longer
    }
}

/// Whatever was recorded before, the newest completion is first and at most
/// `RECENT_COMPLETIONS` are kept.
pub proof fn law_recent_completions_bounded<T>(list: Seq<T>, record: T)
    ensures
        newest_first(list, record)[0] == record,
        0 < newest_first(list, record).len() <= RECENT_COMPLETIONS,
        forall|i: int|
            0 < i < newest_first(list, record).len() ==> newest_first(list, record)[i] == list[i
                - 1],
{
}

// ── Slots ───────────────────────────────────────────────────────────────────

impl State {
    /// A slot taken on the instance at position `i`.
    pub open spec fn slot_taken(self, name: Seq<char>, i: int, now: u64) -> State {
        self.with_list(name, self.list(name).update(i, self.list(name)[i].acquired(now)))
    }

    /// The instance that a slot of a model would be taken on.
    pub open spec fn ready(self, name: Seq<char>, max_concurrent: usize) -> Option<int> {
        least_ready(self.list(name), max_concurrent)
    }

    /// The fast path: a slot on the least busy ready instance.
    pub open spec fn fast_path(self, name: Seq<char>, max_concurrent: usize, now: u64) -> (
        State,
        Option<u64>,
    ) {
        match self.ready(name, max_concurrent) {
            Some(i) => (
                self.slot_taken(name, i, now).ticked(name, 0, now),
                Some(self.list(name)[i].key),
            ),
            None => (self, None),
        }
    }

    /// A slot given back; nothing happens where the instance is gone.
    pub open spec fn slot_released(self, name: Seq<char>, key: u64, now: u64) -> State {
        match key_index(self.list(name), key) {
            Some(i) => self.with_list(
                name,
                self.list(name).update(i, self.list(name)[i].released(now)),
            ),
            None => self,
        }
    }

    /// An instance in another state of its life; nothing happens where it is gone.
    pub open spec fn with_state(self, name: Seq<char>, key: u64, state: InstanceState) -> State {
        match key_index(self.list(name), key) {
            Some(i) => self.with_list(
                name,
                self.list(name).update(i, Instance { state, ..self.list(name)[i] }),
            ),
            None => self,
        }
    }
}

/// Replacing an instance by one with the same key keeps keys sound.
pub proof fn lemma_update_sound(s: State, name: Seq<char>, i: int, x: Instance)
    requires
        s.sound(),
        0 <= i < s.list(name).len(),
        x.key == s.list(name)[i].key,
    ensures
        s.with_list(name, s.list(name).update(i, x)).sound(),
{
    let list = s.list(name);
    let next = list.update(i, x);
    assert(s.instances.dom().contains(name));
    assert(keys_sound(list, s.next_key));
    assert forall|a: int| 0 <= a < next.len() implies (#[trigger] next[a]).key < s.next_key by {
        assert(next[a].key == list[a].key);
    }
    assert forall|a: int, b: int| 0 <= a < b < next.len() implies (#[trigger] next[a]).key != (
    #[trigger] next[b]).key by {
        assert(next[a].key == list[a].key);
        assert(next[b].key == list[b].key);
    }
    assert(keys_sound(next, s.next_key));
}

impl InstanceManager {
    /// Takes a slot on the instance at a position.
    fn take_slot(&mut self, model_name: &str, i: usize, now: u64) -> (r: u64)
        requires
            old(self).wf(),
            i < old(self)@.list(model_name@).len(),
            old(self)@.list(model_name@)[i as int].in_flight < usize::MAX,
        ensures
            final(self).wf(),
            final(self)@ == old(self)@.slot_taken(model_name@, i as int, now),
            r == old(self)@.list(model_name@)[i as int].key,
    {
        proof {
            lemma_update_sound(
                self@,
                model_name@,
                i as int,
                self@.list(model_name@)[i as int].acquired(now),
            );
        }
        let ghost before = self.instances@;
        let mut key: u64 = 0;
        if let Some(list) = self.instances.get_mut(model_name) {
            key = list[i].key;
            list[i].acquire_slot(now);
        }
        proof {
            lemma_lists_insert(before, model_name@, self.instances@[model_name@]);
        }
        assert(self@ =~= old(self)@.slot_taken(model_name@, i as int, now));
        key
    }

    /// Finds a ready instance of a model with at least one free slot.
    pub(crate) fn find_ready_instance(&self, model_name: &str, max_concurrent: usize) -> (r: Option<usize>)
        requires
            self.wf(),
        ensures
            r is Some <==> self@.ready(model_name@, max_concurrent) is Some,
            r matches Some(i) ==> self@.ready(model_name@, max_concurrent) == Some(i as int) && i
                < self@.list(model_name@).len() && self@.list(
                model_name@,
            )[i as int].takes_request(max_concurrent),
    {
        match self.instances.get(model_name) {
            Some(list) => find_least_ready(list, max_concurrent),
            None => None,
        }
    }

    /// Takes a slot on the least busy ready instance with spare capacity.
    pub fn acquire_ready_slot(&mut self, model_name: &str, max_concurrent: usize, now: u64) -> (r:
        Option<u64>)
        requires
            old(self).wf(),
        ensures
            final(self).wf(),
            (final(self)@, r) == old(self)@.fast_path(model_name@, max_concurrent, now),
    {
        match self.find_ready_instance(model_name, max_concurrent) {
            Some(i) => {
                let key: u64 = self.take_slot(model_name, i, now);
                self.record_metrics_event(model_name, 0, now);
                Some(key)
            },
            None => None,
        }
    }

    /// Gives a slot back. Tells whether a slot was freed on a registered
    /// instance.
    pub fn release_slot(&mut self, model_name: &str, key: u64, now: u64) -> (r: bool)
        requires
            old(self).wf(),
        ensures
            final(self).wf(),
            final(self)@ == old(self)@.slot_released(model_name@, key, now),
            r == (key_index(old(self)@.list(model_name@), key) matches Some(i) && old(self)@.list(
                model_name@,
            )[i].in_flight > 0),
    {
        let ghost before = self.instances@;
        let mut freed = false;
        if let Some(list) = self.instances.get_mut(model_name) {
            if let Some(i) = find_key(list, key) {
                proof {
                    lemma_update_sound(
                        old(self)@,
                        model_name@,
                        i as int,
                        old(self)@.list(model_name@)[i as int].released(now),
                    );
                }
                freed = list[i].release_slot(now);
            }
        }
        proof {
            if before.dom().contains(model_name@) {
                lemma_lists_insert(before, model_name@, self.instances@[model_name@]);
            }
        }
        assert(self@ =~= old(self)@.slot_released(model_name@, key, now));
        freed
    }

    /// Sets the lifecycle state of an instance.
    pub(crate) fn set_state(&mut self, model_name: &str, key: u64, state: InstanceState)
        requires
            old(self).wf(),
        ensures
            final(self).wf(),
            final(self)@ == old(self)@.with_state(model_name@, key, state),
    {
        let ghost before = self.instances@;
        if let Some(list) = self.instances.get_mut(model_name) {
            if let Some(i) = find_key(list, key) {
                proof {
                    lemma_update_sound(
                        old(self)@,
                        model_name@,
                        i as int,
                        Instance { state, ..old(self)@.list(model_name@)[i as int] },
                    );
                }
                list[i].state = state;
            }
        }
        proof {
            if before.dom().contains(model_name@) {
                lemma_lists_insert(before, model_name@, self.instances@[model_name@]);
            }
        }
        assert(self@ =~= old(self)@.with_state(model_name@, key, state));
    }

    /// Marks an instance as ready: its health check has passed.
    pub fn mark_ready(&mut self, model_name: &str, key: u64)
        requires
            old(self).wf(),
        ensures
            final(self).wf(),
            final(self)@ == old(self)@.with_state(model_name@, key, InstanceState::Ready),
    {
        self.set_state(model_name, key, InstanceState::Ready);
    }
}

// ── Wait queues ─────────────────────────────────────────────────────────────

/// What became of an attempt to wake the first parked request.
#[derive(Debug, Clone, Copy, PartialEq, Eq, Structural)]
pub enum Wake {
    /// Nobody is parked, or the model is unknown.
    Nobody,
    /// No instance has spare capacity; the first in line stays first.
    NoCapacity,
    /// The waiter now owns a slot on the instance.
    Deliver { waiter: u64, key: u64 },
}

/// The next id; after the largest comes 0.
pub open spec fn next_id(id: u64) -> u64 {
    if id == u64::MAX {
        0
    } else {
        (id + 1) as u64
    }
}

fn advance(id: u64) -> (r: u64)
    ensures
        r == next_id(id),
{
    if id == u64::MAX {
        0
    } else {
        id + 1
    }
}

/// A queue without a waiter.
pub open spec fn without(queue: Seq<u64>, id: u64) -> Seq<u64>
    decreases queue.len(),
{
    if queue.len() == 0 {
        queue
    } else if queue.last() == id {
        without(queue.drop_last(), id)
    } else {
        without(queue.drop_last(), id).push(queue.last())
    }
}

impl State {
    /// The first parked request is woken if an instance has spare capacity.
    pub open spec fn woken(self, name: Seq<char>, now: u64) -> (State, Wake) {
        if !self.settings.models@.dom().contains(name) || self.queue(name).len() == 0 {
            (self, Wake::Nobody)
        } else {
            match self.ready(name, self.settings.models@[name].max_concurrent) {
                Some(i) => (
                    State {
                        queues: self.queues.insert(name, self.queue(name).drop_first()),
                        ..self.slot_taken(name, i, now)
                    },
                    Wake::Deliver { waiter: self.queue(name)[0], key: self.list(name)[i].key },
                ),
                None => (self, Wake::NoCapacity),
            }
        }
    }

    /// A request parks at the end of the queue, unless nothing could ever wake
    /// it or the queue is full.
    pub open spec fn parked(self, name: Seq<char>, max_depth: usize) -> (
        State,
        Result<u64, EnqueueError>,
    ) {
        let s = State { next_queue_id: next_id(self.next_queue_id), ..self };
        if active_count(self.list(name)) == 0 {
            (s, Err(EnqueueError::NoInstances))
        } else if self.queue(name).len() >= max_depth {
            (
                State { queues: self.queues.insert(name, self.queue(name)), ..s },
                Err(EnqueueError::QueueFull),
            )
        } else {
            (
                State {
                    queues: self.queues.insert(name, self.queue(name).push(self.next_queue_id)),
                    ..s
                },
                Ok(self.next_queue_id),
            )
        }
    }

    /// A request parks, and the first in line is woken if there is capacity.
    pub open spec fn enqueued(self, name: Seq<char>, max_depth: usize, now: u64) -> (
        State,
        Result<(u64, Wake), EnqueueError>,
    ) {
        let (s, r) = self.parked(name, max_depth);
        match r {
            Ok(id) => (s.woken(name, now).0, Ok((id, s.woken(name, now).1))),
            Err(e) => (s, Err(e)),
        }
    }

    /// A parked request leaves the queue.
    pub open spec fn unparked(self, name: Seq<char>, id: u64) -> State {
        if self.queues.dom().contains(name) {
            State { queues: self.queues.insert(name, without(self.queues[name], id)), ..self }
        } else {
            self
        }
    }

    /// The parked requests that fail because no instance is left.
    pub open spec fn orphans(self, name: Seq<char>) -> Seq<u64> {
        if self.list(name).len() == 0 {
            self.queue(name)
        } else {
            Seq::empty()
        }
    }

    /// The queue is emptied where no instance is left.
    pub open spec fn drained(self, name: Seq<char>) -> State {
        if self.list(name).len() == 0 && self.queues.dom().contains(name) {
            State { queues: self.queues.insert(name, Seq::empty()), ..self }
        } else {
            self
        }
    }
}

fn drop_waiter(queue: &Vec<u64>, id: u64) -> (r: Vec<u64>)
    ensures
        r@ == without(queue@, id),
{
    let mut out: Vec<u64> = Vec::new();
    assert(queue@.take(0) =~= Seq::<u64>::empty());
    for i in 0..queue.len()
        invariant
            out@ == without(queue@.take(i as int), id),
    {
        proof {
            assert(queue@.take(i + 1).drop_last() =~= queue@.take(i as int));
            assert(queue@.take(i + 1).last() == queue@[i as int]);
        }
        if queue[i] != id {
            out.push(queue[i]);
        }
    }
    assert(queue@.take(queue@.len() as int) =~= queue@);
    out
}

impl InstanceManager {
    /// Wakes the first parked request of a model if an instance has spare
    /// capacity. The slot is taken here, so nobody can snatch it between wake
    /// and use. Where the waiter has vanished, the caller gives the slot back
    /// and tries again.
    pub fn wake_one(&mut self, model_name: &str, now: u64) -> (r: Wake)
        requires
            old(self).wf(),
        ensures
            final(self).wf(),
            (final(self)@, r) == old(self)@.woken(model_name@, now),
    {
        let max_concurrent: usize = match self.settings.models.get(model_name) {
            Some(cfg) => cfg.max_concurrent,
            None => {
                return Wake::Nobody;
            },
        };
        if self.queue_depth(model_name) == 0 {
            return Wake::Nobody;
        }
        match self.find_ready_instance(model_name, max_concurrent) {
            Some(i) => {
                let key: u64 = self.take_slot(model_name, i, now);
                let ghost before = self.queues@;
                let mut waiter: u64 = 0;
                if let Some(queue) = self.queues.get_mut(model_name) {
                    let ghost q = queue@;
                    waiter = queue.remove(0);
                    assert(queue@ =~= q.drop_first());
                }
                proof {
                    lemma_lists_insert(before, model_name@, self.queues@[model_name@]);
                }
                assert(self@ =~= old(self)@.woken(model_name@, now).0);
                Wake::Deliver { waiter, key }
            },
            None => Wake::NoCapacity,
        }
    }

    /// Parks the caller until an instance slot frees up. Fails where the queue
    /// is at capacity, and where no routable instance exists. A slot that was
    /// released in the meantime is handed out at once.
    pub fn enqueue(&mut self, model_name: &str, max_depth: usize, now: u64) -> (r: Result<
        (u64, Wake),
        EnqueueError,
    >)
        requires
            old(self).wf(),
        ensures
            final(self).wf(),
            (final(self)@, r) == old(self)@.enqueued(model_name@, max_depth, now),
    {
        let id: u64 = self.next_queue_id;
        self.next_queue_id = advance(id);
        let active: usize = match self.instances.get(model_name) {
            Some(list) => count_active(list),
            None => 0,
        };
        if active == 0 {
            assert(self@ =~= old(self)@.parked(model_name@, max_depth).0);
            return Err(EnqueueError::NoInstances);
        }
        let ghost before = self.queues@;
        let depth: usize = self.queue_depth(model_name);
        if !self.queues.contains(model_name) {
            self.queues.insert(model_name, Vec::new());
            proof {
                lemma_lists_insert(before, model_name@, self.queues@[model_name@]);
            }
        }
        let ghost middle = self.queues@;
        assert(lists(middle) =~= lists(before).insert(model_name@, old(self)@.queue(model_name@)));
        if depth >= max_depth {
            assert(self@ =~= old(self)@.parked(model_name@, max_depth).0);
            return Err(EnqueueError::QueueFull);
        }
        if let Some(queue) = self.queues.get_mut(model_name) {
            queue.push(id);
        }
        proof {
            lemma_lists_insert(middle, model_name@, self.queues@[model_name@]);
        }
        assert(self@ =~= old(self)@.parked(model_name@, max_depth).0);
        let wake = self.wake_one(model_name, now);
        Ok((id, wake))
    }

    /// Removes a parked request, after its wait has timed out.
    pub fn remove_queued(&mut self, model_name: &str, id: u64)
        requires
            old(self).wf(),
        ensures
            final(self).wf(),
            final(self)@ == old(self)@.unparked(model_name@, id),
    {
        let ghost before = self.queues@;
        if let Some(queue) = self.queues.get_mut(model_name) {
            let kept = drop_waiter(queue, id);
            *queue = kept;
        }
        proof {
            if before.dom().contains(model_name@) {
                lemma_lists_insert(before, model_name@, self.queues@[model_name@]);
            }
        }
        assert(self@ =~= old(self)@.unparked(model_name@, id));
    }

    /// If no instances remain for a model, all its parked requests fail.
    fn drain_queue_if_no_instances(&mut self, model_name: &str) -> (r: Vec<u64>)
        requires
            old(self).wf(),
        ensures
            final(self).wf(),
            final(self)@ == old(self)@.drained(model_name@),
            r@ == old(self)@.orphans(model_name@),
    {
        let none_left = match self.instances.get(model_name) {
            Some(list) => list.len() == 0,
            None => true,
        };
        let mut out: Vec<u64> = Vec::new();
        if none_left {
            let ghost before = self.queues@;
            if let Some(queue) = self.queues.get_mut(model_name) {
                std::mem::swap(&mut out, queue);
            }
            proof {
                if before.dom().contains(model_name@) {
                    lemma_lists_insert(before, model_name@, self.queues@[model_name@]);
                }
            }
        }
        assert(out@ =~= old(self)@.orphans(model_name@));
        assert(self@ =~= old(self)@.drained(model_name@));
        out
    }
}

// ── Blocked models ──────────────────────────────────────────────────────────

impl State {
    /// One more crash before readiness; at the limit the model is blocked.
    pub open spec fn crash_noted(self, name: Seq<char>) -> State {
        let count = one_more(
            if self.crash_counts.dom().contains(name) {
                self.crash_counts[name]
            } else {
                0
            },
        );
        State {
            crash_counts: self.crash_counts.insert(name, count),
            blocked: if count >= CRASH_LIMIT {
                self.blocked.insert(name)
            } else {
                self.blocked
            },
            ..self
        }
    }
}

impl InstanceManager {
    /// Whether a model is blocked.
    pub fn is_blocked(&self, model_name: &str) -> (r: bool)
        requires
            self.wf(),
        ensures
            r == self@.blocked.contains(model_name@),
    {
        self.blocked.contains(model_name)
    }

    /// Blocks a model.
    pub fn block_model(&mut self, model_name: &str)
        requires
            old(self).wf(),
        ensures
            final(self).wf(),
            final(self)@ == (State {
                blocked: old(self)@.blocked.insert(model_name@),
                ..old(self)@
            }),
    {
        self.blocked.insert(model_name, ());
        assert(self@ =~= (State {
            blocked: old(self)@.blocked.insert(model_name@),
            ..old(self)@
        }));
    }

    /// Unblocks a model and forgets its crashes.
    pub fn unblock_model(&mut self, model_name: &str)
        requires
            old(self).wf(),
        ensures
            final(self).wf(),
            final(self)@ == (State {
                blocked: old(self)@.blocked.remove(model_name@),
                crash_counts: old(self)@.crash_counts.remove(model_name@),
                ..old(self)@
            }),
    {
        let _ = self.blocked.remove(model_name);
        let _ = self.crash_counts.remove(model_name);
        assert(self@ =~= (State {
            blocked: old(self)@.blocked.remove(model_name@),
            crash_counts: old(self)@.crash_counts.remove(model_name@),
            ..old(self)@
        }));
    }

    /// Counts a crash before readiness and blocks the model at the limit.
    pub fn note_pre_output_crash(&mut self, model_name: &str)
        requires
            old(self).wf(),
        ensures
            final(self).wf(),
            final(self)@ == old(self)@.crash_noted(model_name@),
    {
        let count: usize = count_up(
            match self.crash_counts.get(model_name) {
                Some(c) => *c,
                None => 0,
            },
        );
        self.crash_counts.insert(model_name, count);
        if count >= CRASH_LIMIT {
            self.blocked.insert(model_name, ());
        }
        assert(self@ =~= old(self)@.crash_noted(model_name@));
    }
}

// ── Removal ─────────────────────────────────────────────────────────────────

/// The PCI slots of Vulkan devices; devices without a slot are passed over.
pub open spec fn device_slots(s: Settings, indices: Seq<usize>) -> Seq<Seq<char>>
    decreases indices.len(),
{
    if indices.len() == 0 {
        Seq::empty()
    } else {
        match slot_in(s, DeviceKind::Vulkan, indices.last()) {
            Some(slot) => device_slots(s, indices.drop_last()).push(slot),
            None => device_slots(s, indices.drop_last()),
        }
    }
}

/// Finds the PCI slots of Vulkan devices.
pub fn vulkan_slots_of(s: &Settings, indices: &Vec<usize>) -> (r: Vec<String>)
    ensures
        texts(r@) == device_slots(*s, indices@),
{
    let mut out: Vec<String> = Vec::new();
    assert(indices@.take(0) =~= Seq::<usize>::empty());
    assert(texts(out@) =~= Seq::<Seq<char>>::empty());
    for i in 0..indices.len()
        invariant
            texts(out@) == device_slots(*s, indices@.take(i as int)),
    {
        proof {
            assert(indices@.take(i + 1).drop_last() =~= indices@.take(i as int));
            assert(indices@.take(i + 1).last() == indices@[i as int]);
        }
        if let Some(slot) = find_index(&s.vulkan_slots, indices[i]) {
            let ghost before = out@;
            out.push(slot.clone());
            assert(texts(out@) =~= texts(before).push(slot@));
        }
    }
    assert(indices@.take(indices@.len() as int) =~= indices@);
    out
}

/// What is left to do after an instance has been taken out of the registry.
pub struct Cleanup {
    /// Whether the instance was registered.
    pub removed: bool,
    /// Parked requests that fail.
    pub failed_waiters: Vec<u64>,
    /// Keep-alive tasks that stop.
    pub keepalive: Vec<KeepAliveAction>,
}

/// The same, as mathematical values.
#[verifier::ext_equal]
pub struct CleanupView {
    pub removed: bool,
    pub failed_waiters: Seq<u64>,
    pub keepalive: Seq<ActionView>,
}

impl View for Cleanup {
    type V = CleanupView;

    open spec fn view(&self) -> CleanupView {
        CleanupView {
            removed: self.removed,
            failed_waiters: self.failed_waiters@,
            keepalive: action_views(self.keepalive@),
        }
    }
}

/// How a removal begins.
#[derive(Debug, Clone, Copy, PartialEq, Eq, Structural)]
pub enum Removal {
    /// The instance is busy and stays as it is.
    Kept,
    /// The instance is busy; it takes no more requests and is removed later.
    Draining,
    /// The process is to be shut down and the instance unregistered.
    Remove,
}

impl State {
    /// The keep-alive references of an instance are given back. Keep-alive
    /// only ever runs for Vulkan models; a model that is not configured
    /// counts as one.
    pub open spec fn let_go(self, name: Seq<char>, devices: Seq<usize>) -> State {
        State {
            keepalive: match self.keepalive {
                Some(k) => if kind_of(self.settings, name) != DeviceKind::Cuda {
                    Some(released_all(k, device_slots(self.settings, devices)))
                } else {
                    Some(k)
                },
                None => None,
            },
            ..self
        }
    }

    /// What that brings about.
    pub open spec fn let_go_actions(self, name: Seq<char>, devices: Seq<usize>) -> Seq<ActionView> {
        match self.keepalive {
            Some(k) => if kind_of(self.settings, name) != DeviceKind::Cuda {
                release_actions(k, device_slots(self.settings, devices))
            } else {
                Seq::empty()
            },
            None => Seq::empty(),
        }
    }

    /// The registry without the instance at position `i`, its port free.
    pub open spec fn taken_out(self, name: Seq<char>, i: int) -> State {
        State {
            instances: self.instances.insert(name, self.list(name).remove(i)),
            ports: PortsView {
                used: self.ports.used.remove(self.list(name)[i].port),
                ..self.ports
            },
            ..self
        }
    }

    /// An instance is taken out of the registry: its port is freed, parked
    /// requests fail if it was the last, and its keep-alive references are
    /// given back. Nothing happens where it is gone already.
    pub open spec fn unregistered(self, name: Seq<char>, key: u64) -> State {
        match key_index(self.list(name), key) {
            Some(i) => self.taken_out(name, i).drained(name).let_go(
                name,
                self.list(name)[i].gpu_indices@,
            ),
            None => self,
        }
    }

    /// What is left to do then.
    pub open spec fn cleanup(self, name: Seq<char>, key: u64) -> CleanupView {
        match key_index(self.list(name), key) {
            Some(i) => CleanupView {
                removed: true,
                failed_waiters: self.taken_out(name, i).orphans(name),
                keepalive: self.let_go_actions(name, self.list(name)[i].gpu_indices@),
            },
            None => CleanupView {
                removed: false,
                failed_waiters: Seq::empty(),
                keepalive: Seq::empty(),
            },
        }
    }

    /// A removal begins.
    pub open spec fn removal(self, name: Seq<char>, key: u64, mode: RemovalMode) -> (
        State,
        Removal,
    ) {
        match key_index(self.list(name), key) {
            Some(i) => if self.list(name)[i].in_flight > 0 && mode == RemovalMode::IfIdle {
                (self, Removal::Kept)
            } else if self.list(name)[i].in_flight > 0 && mode == RemovalMode::Drain {
                (self.with_state(name, key, InstanceState::Failed), Removal::Draining)
            } else {
                (self.with_state(name, key, InstanceState::Failed), Removal::Remove)
            },
            None => (self, Removal::Remove),
        }
    }

    /// A process has exited unexpectedly. A managed removal has precedence; a
    /// crash before readiness counts toward the limit.
    pub open spec fn crashed(self, name: Seq<char>, key: u64) -> State {
        match key_index(self.list(name), key) {
            Some(i) => if self.list(name)[i].state == InstanceState::Failed {
                self
            } else {
                let s = self.with_state(name, key, InstanceState::Failed).unregistered(name, key);
                if self.list(name)[i].state == InstanceState::Ready {
                    s
                } else {
                    s.crash_noted(name)
                }
            },
            None => self,
        }
    }
}

/// Taking an instance out keeps keys sound.
pub proof fn lemma_remove_sound(s: State, name: Seq<char>, i: int)
    requires
        s.sound(),
        0 <= i < s.list(name).len(),
    ensures
        s.with_list(name, s.list(name).remove(i)).sound(),
{
    let list = s.list(name);
    let next = list.remove(i);
    assert(s.instances.dom().contains(name));
    assert(keys_sound(list, s.next_key));
    assert forall|a: int| 0 <= a < next.len() implies (#[trigger] next[a]).key < s.next_key by {
        assert(next[a] == list[if a < i { a } else { a + 1 }]);
    }
    assert forall|a: int, b: int| 0 <= a < b < next.len() implies (#[trigger] next[a]).key != (
    #[trigger] next[b]).key by {
        assert(next[a] == list[if a < i { a } else { a + 1 }]);
        assert(next[b] == list[if b < i { b } else { b + 1 }]);
    }
    assert(keys_sound(next, s.next_key));
}

impl InstanceManager {
    /// Gives the keep-alive references of an instance back.
    fn release_keepalive(&mut self, model_name: &str, devices: &Vec<usize>) -> (r: Vec<
        KeepAliveAction,
    >)
        requires
            old(self).wf(),
        ensures
            final(self).wf(),
            final(self)@ == old(self)@.let_go(model_name@, devices@),
            action_views(r@) == old(self)@.let_go_actions(model_name@, devices@),
    {
        let is_cuda = match self.settings.models.get(model_name) {
            Some(cfg) => cfg.device_kind() == DeviceKind::Cuda,
            None => false,
        };
        let slots = vulkan_slots_of(&self.settings, devices);
        let mut out: Vec<KeepAliveAction> = Vec::new();
        if !is_cuda {
            if let Some(k) = self.keepalive.as_mut() {
                out = k.release_slots(&slots);
            }
        }
        assert(action_views(out@) =~= old(self)@.let_go_actions(model_name@, devices@));
        assert(self@ =~= old(self)@.let_go(model_name@, devices@));
        out
    }

    /// Takes an instance out of the registry. The caller has already ended
    /// its process. Where the instance is gone already, nothing happens:
    /// ports and keep-alive references are given back exactly once.
    pub fn unregister_instance(&mut self, model_name: &str, key: u64) -> (r: Cleanup)
        requires
            old(self).wf(),
        ensures
            final(self).wf(),
            final(self)@ == old(self)@.unregistered(model_name@, key),
            r@ == old(self)@.cleanup(model_name@, key),
    {
        let i: usize = match self.instances.get(model_name) {
            Some(list) => match find_key(list, key) {
                Some(i) => i,
                None => {
                    let none = Cleanup {
                        removed: false,
                        failed_waiters: Vec::new(),
                        keepalive: Vec::new(),
                    };
                    assert(none@ =~= old(self)@.cleanup(model_name@, key));
                    return none;
                },
            },
            None => {
                let none = Cleanup {
                    removed: false,
                    failed_waiters: Vec::new(),
                    keepalive: Vec::new(),
                };
                assert(none@ =~= old(self)@.cleanup(model_name@, key));
                return none;
            },
        };
        proof {
            lemma_remove_sound(self@, model_name@, i as int);
        }
        let ghost before = self.instances@;
        let inst = match self.instances.get_mut(model_name) {
            Some(list) => list.remove(i),
            None => unreached(),
        };
        proof {
            lemma_lists_insert(before, model_name@, self.instances@[model_name@]);
        }
        self.ports.free(inst.port);
        assert(self@ =~= old(self)@.taken_out(model_name@, i as int));
        let failed_waiters = self.drain_queue_if_no_instances(model_name);
        let keepalive = self.release_keepalive(model_name, &inst.gpu_indices);
        Cleanup { removed: true, failed_waiters, keepalive }
    }

    /// Begins the removal of an instance.
    pub fn begin_removal(&mut self, model_name: &str, key: u64, mode: RemovalMode) -> (r: Removal)
        requires
            old(self).wf(),
        ensures
            final(self).wf(),
            (final(self)@, r) == old(self)@.removal(model_name@, key, mode),
    {
        let busy = match self.instances.get(model_name) {
            Some(list) => match find_key(list, key) {
                Some(i) => list[i].in_flight > 0,
                None => false,
            },
            None => false,
        };
        if busy && mode == RemovalMode::IfIdle {
            return Removal::Kept;
        }
        self.set_state(model_name, key, InstanceState::Failed);
        if busy && mode == RemovalMode::Drain {
            Removal::Draining
        } else {
            Removal::Remove
        }
    }

    /// Handles an unexpected exit of an instance's process.
    pub fn handle_crash(&mut self, model_name: &str, key: u64) -> (r: Option<Cleanup>)
        requires
            old(self).wf(),
        ensures
            final(self).wf(),
            final(self)@ == old(self)@.crashed(model_name@, key),
            r is Some <==> (key_index(old(self)@.list(model_name@), key) matches Some(i) && old(
                self,
            )@.list(model_name@)[i].state != InstanceState::Failed),
            r matches Some(c) ==> c@ == old(self)@.with_state(
                model_name@,
                key,
                InstanceState::Failed,
            ).cleanup(model_name@, key),
    {
        let state = match self.instances.get(model_name) {
            Some(list) => match find_key(list, key) {
                Some(i) => list[i].state,
                None => {
                    return None;
                },
            },
            None => {
                return None;
            },
        };
        if state == InstanceState::Failed {
            return None;
        }
        self.set_state(model_name, key, InstanceState::Failed);
        let cleanup = self.unregister_instance(model_name, key);
        if state != InstanceState::Ready {
            self.note_pre_output_crash(model_name);
        }
        Some(cleanup)
    }
}

/// The instances that are not retiring are counted, each once.
pub proof fn law_retiring_instances_do_not_count(list: Seq<Instance>)
    ensures
        active_count(list) == list.filter(|i: Instance| i.state != InstanceState::Failed).len(),
        active_count(list) == 0 <==> forall|i: int|
            0 <= i < list.len() ==> (#[trigger] list[i]).state == InstanceState::Failed,
    decreases list.len(),
{
    reveal(Seq::filter);
    if list.len() > 0 {
        let front = list.drop_last();
        law_retiring_instances_do_not_count(front);
        assert(forall|i: int| 0 <= i < front.len() ==> front[i] == list[i]);
        if active_count(list) == 0 {
            assert forall|i: int| 0 <= i < list.len() implies (#[trigger] list[i]).state
                == InstanceState::Failed by {
                if i < front.len() {
                    assert(front[i].state == InstanceState::Failed);
                }
            }
        } else if forall|i: int|
            0 <= i < list.len() ==> (#[trigger] list[i]).state == InstanceState::Failed {
            assert(list[list.len() - 1].state == InstanceState::Failed);
            assert forall|i: int| 0 <= i < front.len() implies (#[trigger] front[i]).state
                == InstanceState::Failed by {
                assert(list[i].state == InstanceState::Failed);
            }
        }
    }
}

/// A request finds a slot exactly where a ready instance has less requests in
/// flight than it may have, and then on the least busy of these; of equals the
/// first serves.
pub proof fn law_the_least_busy_instance_serves(s: State, name: Seq<char>, max_concurrent: usize)
    ensures
        s.ready(name, max_concurrent) is Some <==> exists|j: int|
            0 <= j < s.list(name).len() && (#[trigger] s.list(name)[j]).state
                == InstanceState::Ready && s.list(name)[j].in_flight < max_concurrent,
        s.ready(name, max_concurrent) matches Some(i) ==> {
            let list = s.list(name);
            &&& 0 <= i < list.len()
            &&& list[i].state == InstanceState::Ready
            &&& list[i].in_flight < max_concurrent
            &&& forall|j: int|
                0 <= j < list.len() && (#[trigger] list[j]).state == InstanceState::Ready
                    && list[j].in_flight < max_concurrent ==> list[i].in_flight <= list[j].in_flight
            &&& forall|j: int|
                0 <= j < i && (#[trigger] list[j]).state == InstanceState::Ready
                    && list[j].in_flight < max_concurrent ==> list[i].in_flight < list[j].in_flight
        },
{
    law_least_ready(s.list(name), max_concurrent);
    let list = s.list(name);
    if let Some(i) = s.ready(name, max_concurrent) {
        assert(list[i].state == InstanceState::Ready);
    } else {
        assert forall|j: int| 0 <= j < list.len() implies !((#[trigger] list[j]).state
            == InstanceState::Ready && list[j].in_flight < max_concurrent) by {
            assert(!list[j].takes_request(max_concurrent));
        }
    }
}

} // verus!

//! Backend instances: lifecycle state and slot accounting.
//!
//! Points in time are nanoseconds of a monotonic clock.

use vstd::prelude::*;
use crate::fingerprint::Fingerprint;
use crate::numbers::{decimal, to_decimal};
use crate::text::{cat3, join, join_strings, texts};

verus! {

/// Nanoseconds in one second.
pub const NANOS_PER_SEC: u64 = 1_000_000_000;

/// Lifecycle state of a backend instance.
#[derive(Debug, Clone, Copy, PartialEq, Eq, Structural)]
pub enum InstanceState {
    /// Subprocess spawned, waiting for the health check to pass.
    Loading,
    /// Health check passed, accepting requests.
    Ready,
    /// Health check or spawn failed, crashed, or draining.
    Failed,
}

/// A running backend process managed by the scheduler.
#[derive(Debug)]
pub struct Instance {
    /// Identity in the registry. Ids such as `model@cpu` can collide; keys do not.
    pub key: u64,
    /// `model@gpus`, followed by `#seq` once the instance is registered.
    pub id: String,
    /// The model this instance serves.
    pub model_name: String,
    /// Allocated port the backend listens on.
    pub port: u16,
    /// GPU device indices this instance occupies.
    pub gpu_indices: Vec<usize>,
    /// Current lifecycle state.
    pub state: InstanceState,
    /// Number of in-flight requests currently being processed.
    pub in_flight: usize,
    /// Time of the last slot change.
    pub last_active: u64,
    /// The spawn-relevant settings it was launched with; none where unset.
    pub config_fingerprint: Option<Fingerprint>,
}

/// The indices in decimal.
pub open spec fn decimals(indices: Seq<usize>) -> Seq<Seq<char>> {
    indices.map_values(|i: usize| decimal(i as nat))
}

/// A device list as it is written in ids: the indices with commas, or `cpu`.
pub open spec fn gpus_text(indices: Seq<usize>) -> Seq<char> {
    if indices.len() == 0 {
        "cpu"@
    } else {
        join(decimals(indices), ","@)
    }
}

/// Writes indices in decimal with commas between them.
pub fn comma_list(indices: &[usize]) -> (r: String)
    ensures
        r@ == join(decimals(indices@), ","@),
{
    let mut parts: Vec<String> = Vec::new();
    for i in 0..indices.len()
        invariant
            texts(parts@) == decimals(indices@.take(i as int)),
    {
        let ghost before = parts@;
        parts.push(to_decimal(indices[i] as u64));
        assert(texts(parts@) =~= texts(before).push(decimal(indices@[i as int] as nat)));
        assert(decimals(indices@.take(i + 1)) =~= decimals(indices@.take(i as int)).push(
            decimal(indices@[i as int] as nat),
        ));
    }
    assert(indices@.take(indices@.len() as int) =~= indices@);
    join_strings(&parts, ",")
}

/// Writes a device list.
pub fn display_gpus(indices: &[usize]) -> (r: String)
    ensures
        r@ == gpus_text(indices@),
{
    if indices.len() == 0 {
        "cpu".to_owned()
    } else {
        comma_list(indices)
    }
}

/// Whole seconds between two points in time; none has passed where the first
/// is not the earlier.
pub open spec fn elapsed_secs(since: u64, now: u64) -> int {
    if now <= since {
        0
    } else {
        (now - since) / NANOS_PER_SEC as int
    }
}

/// Computes the whole seconds between two points in time.
pub fn secs_since(since: u64, now: u64) -> (r: u64)
    ensures
        r == elapsed_secs(since, now),
{
    if now <= since {
        0
    } else {
        (now - since) / NANOS_PER_SEC
    }
}

impl Instance {
    /// Creates a new instance descriptor. The subprocess has not been spawned yet.
    pub fn new(model_name: &str, gpu_indices: Vec<usize>, port: u16, now: u64) -> (r: Instance)
        ensures
            r.key == 0,
            r.id@ == model_name@ + "@"@ + gpus_text(gpu_indices@),
            r.model_name@ == model_name@,
            r.port == port,
            r.gpu_indices == gpu_indices,
            r.state == InstanceState::Loading,
            r.in_flight == 0,
            r.last_active == now,
            r.config_fingerprint is None,
    {
        let gpus = display_gpus(gpu_indices.as_slice());
        let id = cat3(model_name, "@", gpus.as_str());
        Instance {
            key: 0,
            id,
            model_name: model_name.to_owned(),
            port,
            gpu_indices,
            state: InstanceState::Loading,
            in_flight: 0,
            last_active: now,
            config_fingerprint: None,
        }
    }

    /// Marks this instance as ready (health check passed).
    pub fn mark_ready(&mut self)
        ensures
            *final(self) == (Instance { state: InstanceState::Ready, ..*old(self) }),
    {
        self.state = InstanceState::Ready;
    }

    /// The instance with one more request in flight.
    pub open spec fn acquired(self, now: u64) -> Instance {
        Instance { in_flight: (self.in_flight + 1) as usize, last_active: now, ..self }
    }

    /// The instance with one request less in flight.
    pub open spec fn released(self, now: u64) -> Instance {
        Instance {
            in_flight: if self.in_flight > 0 {
                (self.in_flight - 1) as usize
            } else {
                0
            },
            last_active: now,
            ..self
        }
    }

    /// Increments the in-flight counter and bumps the activity timestamp.
    pub fn acquire_slot(&mut self, now: u64)
        requires
            old(self).in_flight < usize::MAX,
        ensures
            *final(self) == old(self).acquired(now),
    {
        self.in_flight += 1;
        self.last_active = now;
    }

    /// Decrements the in-flight counter. Tells whether a slot was freed, in
    /// which case waiters are to be notified.
    pub fn release_slot(&mut self, now: u64) -> (r: bool)
        ensures
            *final(self) == old(self).released(now),
            r == (old(self).in_flight > 0),
    {
        let was_active = self.in_flight > 0;
        if was_active {
            self.in_flight -= 1;
        }
        self.last_active = now;
        was_active
    }

    /// The instance takes one more request.
    pub open spec fn takes_request(self, max_concurrent: usize) -> bool {
        self.state == InstanceState::Ready && self.in_flight < max_concurrent
    }

    /// Whether this instance has spare capacity for another request.
    pub fn has_capacity(&self, max_concurrent: usize) -> (r: bool)
        ensures
            r == self.takes_request(max_concurrent),
    {
        self.state == InstanceState::Ready && self.in_flight < max_concurrent
    }

    /// Takes a slot if there is capacity for another request; tells whether it
    /// did.
    pub fn try_acquire(&mut self, max_concurrent: usize, now: u64) -> (r: bool)
        ensures
            r == old(self).takes_request(max_concurrent),
            *final(self) == if r {
                old(self).acquired(now)
            } else {
                *old(self)
            },
    {
        if self.has_capacity(max_concurrent) {
            self.acquire_slot(now);
            true
        } else {
            false
        }
    }

    /// The instance is ready and has been without requests for `ttl` seconds.
    pub open spec fn idle_expired(self, ttl_seconds: u64, now: u64) -> bool {
        &&& self.in_flight == 0
        &&& self.state == InstanceState::Ready
        &&& elapsed_secs(self.last_active, now) >= ttl_seconds
    }

    /// Whether the instance has been idle for at least `ttl_seconds`.
    pub fn is_idle_expired(&self, ttl_seconds: u64, now: u64) -> (r: bool)
        ensures
            r == self.idle_expired(ttl_seconds, now),
    {
        self.in_flight == 0 && self.state == InstanceState::Ready && secs_since(
            self.last_active,
            now,
        ) >= ttl_seconds
    }
}

/// A slot that is taken and given back leaves the count of requests as it was.
pub proof fn law_acquire_release(i: Instance, t1: u64, t2: u64)
    requires
        i.in_flight < usize::MAX,
    ensures
        i.acquired(t1).released(t2) == (Instance { last_active: t2, ..i }),
{
}

/// What happens to the slots of an instance.
pub enum SlotEvent {
    /// A request asks for a slot, and gets one if there is capacity.
    Ask { max_concurrent: usize, now: u64 },
    /// A request gives back the slot that it got.
    GiveBack { now: u64 },
    /// The instance enters a state of its life.
    Enter { state: InstanceState },
}

/// An instance after events.
pub open spec fn after_events(i: Instance, events: Seq<SlotEvent>) -> Instance
    decreases events.len(),
{
    if events.len() == 0 {
        i
    } else {
        let before = after_events(i, events.drop_last());
        match events.last() {
            SlotEvent::Ask { max_concurrent, now } => if before.takes_request(max_concurrent) {
                before.acquired(now)
            } else {
                before
            },
            SlotEvent::GiveBack { now } => before.released(now),
            SlotEvent::Enter { state } => Instance { state, ..before },
        }
    }
}

/// How many requests got a slot.
pub open spec fn slots_got(i: Instance, events: Seq<SlotEvent>) -> nat
    decreases events.len(),
{
    if events.len() == 0 {
        0
    } else {
        let got = slots_got(i, events.drop_last());
        match events.last() {
            SlotEvent::Ask { max_concurrent, now } => if after_events(
                i,
                events.drop_last(),
            ).takes_request(max_concurrent) {
                got + 1
            } else {
                got
            },
            _ => got,
        }
    }
}

/// How many slots were given back.
pub open spec fn slots_given_back(events: Seq<SlotEvent>) -> nat
    decreases events.len(),
{
    if events.len() == 0 {
        0
    } else {
        slots_given_back(events.drop_last()) + if events.last() is GiveBack {
            1nat
        } else {
            0nat
        }
    }
}

/// Whatever happens to an instance that began without requests, as many are in
/// flight as slots were got and not given back. Only a slot that was got is
/// given back.
pub proof fn law_slots_in_flight(i: Instance, events: Seq<SlotEvent>)
    requires
        i.in_flight == 0,
        forall|n: int|
            0 <= n <= events.len() ==> slots_given_back(#[trigger] events.take(n)) <= slots_got(
                i,
                events.take(n),
            ),
    ensures
        after_events(i, events).in_flight == slots_got(i, events) - slots_given_back(events),
    decreases events.len(),
{
    assert(events.take(events.len() as int) =~= events);
    if events.len() > 0 {
        let front = events.drop_last();
        assert forall|n: int| 0 <= n <= front.len() implies slots_given_back(#[trigger] front.take(n))
            <= slots_got(i, front.take(n)) by {
            assert(front.take(n) =~= events.take(n));
        }
        law_slots_in_flight(i, front);
    }
}

/// A draining or failed instance takes no request, whatever its load.
pub proof fn law_failed_takes_no_request(i: Instance, max_concurrent: usize)
    requires
        i.state == InstanceState::Failed,
    ensures
        !i.takes_request(max_concurrent),
{
}

/// An instance is idle for a time exactly when it is ready, has no request in
/// flight and has had none for that many seconds.
pub proof fn law_idle_time(i: Instance, ttl_seconds: u64, now: u64)
    ensures
        i.idle_expired(ttl_seconds, now) <==> i.state == InstanceState::Ready && i.in_flight == 0
            && (ttl_seconds == 0 || now - i.last_active >= ttl_seconds * 1_000_000_000),
{
}

/// An instance takes another request exactly when it is ready and has less in
/// flight than it may have; then it has one more in flight, and one less once
/// that one is over. Nothing else of it changes but the time of its last use.
pub proof fn law_one_slot_per_request(i: Instance, max_concurrent: usize, now: u64)
    ensures
        i.takes_request(max_concurrent) <==> i.state == InstanceState::Ready && i.in_flight
            < max_concurrent,
        i.takes_request(max_concurrent) ==> i.acquired(now) == (Instance {
            in_flight: (i.in_flight + 1) as usize,
            last_active: now,
            ..i
        }),
        i.in_flight > 0 ==> i.released(now) == (Instance {
            in_flight: (i.in_flight - 1) as usize,
            last_active: now,
            ..i
        }),
        i.in_flight == 0 ==> i.released(now) == (Instance { last_active: now, ..i }),
{
}

} // verus!

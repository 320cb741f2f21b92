//! Acquiring an instance slot: the fast path, the spawn gate, and the queue.

use vstd::prelude::*;
use crate::config::ModelConfig;
use crate::instance::{Instance, InstanceState};
use crate::scheduler::{
    active_count, count_active, law_retiring_instances_do_not_count,
    law_the_least_busy_instance_serves, AcquireError, EnqueueError, InstanceManager, State, Wake,
};

verus! {

/// What a request does next to get a slot.
#[derive(Debug, Clone, Copy, PartialEq, Eq, Structural)]
pub enum AcquireStep {
    /// It owns a slot on the instance with this key.
    Slot(u64),
    /// It fails.
    Refused(AcquireError),
    /// It waits for the spawn in flight, which is to be started now if `start`
    /// is set, and then tries again with these limits.
    AwaitSpawn { start: bool, max_concurrent: usize, queue_depth: usize },
    /// It waits in the queue under this id; somebody may have been woken.
    Parked { id: u64, wake: Wake },
}

/// How a wait in the queue ended.
#[derive(Debug, Clone, Copy, PartialEq, Eq, Structural)]
pub enum WaitEnd {
    /// A slot was handed over.
    Delivered,
    /// The queue was emptied because the last instance is gone.
    QueueGone,
    /// The time was up.
    TimedOut,
}

/// What a queue error means for a request.
pub open spec fn queue_failure(e: EnqueueError) -> AcquireError {
    match e {
        EnqueueError::NoInstances => AcquireError::Unavailable,
        EnqueueError::QueueFull => AcquireError::NoCapacity,
        EnqueueError::Timeout => AcquireError::NoCapacity,
    }
}

fn failure_of(e: EnqueueError) -> (r: AcquireError)
    ensures
        r == queue_failure(e),
{
    match e {
        EnqueueError::NoInstances => AcquireError::Unavailable,
        EnqueueError::QueueFull => AcquireError::NoCapacity,
        EnqueueError::Timeout => AcquireError::NoCapacity,
    }
}

/// The load decides whether to spawn: autoscaling is on, and there is an
/// instance that is not retiring.
pub open spec fn load_decides(cfg: ModelConfig, list: Seq<Instance>) -> bool {
    cfg.autoscale matches Some(a) && a.enabled && active_count(list) > 0
}

/// The requests that the instances of a list can serve at once.
pub open spec fn capacity_of(cfg: ModelConfig, n: nat) -> u128 {
    (cfg.max_concurrent * n) as u128
}

/// Computes how many requests `n` instances can serve at once.
pub fn serve_capacity(cfg: &ModelConfig, n: usize) -> (r: u128)
    ensures
        r == capacity_of(*cfg, n as nat),
        r == cfg.max_concurrent * n,
{
    let m: usize = cfg.max_concurrent;
    assert(m * n <= 0xffff_ffff_ffff_ffff * 0xffff_ffff_ffff_ffff) by (nonlinear_arith)
        requires
            m <= 0xffff_ffff_ffff_ffff,
            n <= 0xffff_ffff_ffff_ffff,
    ;
    m as u128 * n as u128
}

impl State {
    /// The queue path.
    pub open spec fn queue_path(self, name: Seq<char>, queue_depth: usize, now: u64) -> (
        State,
        AcquireStep,
    ) {
        let (s, r) = self.enqueued(name, queue_depth, now);
        match r {
            Ok((id, wake)) => (s, AcquireStep::Parked { id, wake }),
            Err(e) => (s, AcquireStep::Refused(queue_failure(e))),
        }
    }

    /// A request for a slot. `high` tells whether the load is above the
    /// threshold, where that decides; a cold start always spawns.
    pub open spec fn acquire(self, name: Seq<char>, high: bool, now: u64) -> (State, AcquireStep) {
        if self.blocked.contains(name) {
            (self, AcquireStep::Refused(AcquireError::Blocked))
        } else if !self.settings.models@.dom().contains(name) {
            (self, AcquireStep::Refused(AcquireError::Unavailable))
        } else {
            let cfg = self.settings.models@[name];
            let (s, slot) = self.fast_path(name, cfg.max_concurrent, now);
            match slot {
                Some(key) => (s, AcquireStep::Slot(key)),
                None => if !load_decides(cfg, self.list(name)) || high {
                    (
                        State { spawning: self.spawning.insert(name), ..self },
                        AcquireStep::AwaitSpawn {
                            start: !self.spawning.contains(name),
                            max_concurrent: cfg.max_concurrent,
                            queue_depth: cfg.queue_depth,
                        },
                    )
                } else {
                    self.queue_path(name, cfg.queue_depth, now)
                },
            }
        }
    }

    /// The load decides what a request does.
    pub open spec fn load_matters(self, name: Seq<char>) -> bool {
        &&& !self.blocked.contains(name)
        &&& self.settings.models@.dom().contains(name)
        &&& self.ready(name, self.settings.models@[name].max_concurrent) is None
        &&& load_decides(self.settings.models@[name], self.list(name))
    }

    /// The threshold and the capacity that the load is then compared with.
    pub open spec fn load_question(self, name: Seq<char>) -> (u64, u128) {
        let cfg = self.settings.models@[name];
        (cfg.autoscale->0.scale_up_at, capacity_of(cfg, active_count(self.list(name))))
    }

    /// After a spawn: the fast path once more, then the queue.
    pub open spec fn retry(
        self,
        name: Seq<char>,
        max_concurrent: usize,
        queue_depth: usize,
        now: u64,
    ) -> (State, AcquireStep) {
        let (s, slot) = self.fast_path(name, max_concurrent, now);
        match slot {
            Some(key) => (s, AcquireStep::Slot(key)),
            None => self.queue_path(name, queue_depth, now),
        }
    }
}

impl InstanceManager {
    /// Begins to acquire an instance slot for a request. `load_above` tells
    /// whether the 5-minute load average is above a threshold (the bits of a
    /// fraction) times a capacity.
    pub fn get_or_spawn<F: Fn(u64, u128) -> bool>(
        &mut self,
        model_name: &str,
        load_above: F,
        now: u64,
    ) -> (r: AcquireStep)
        requires
            old(self).wf(),
            forall|bits: u64, capacity: u128| call_requires(load_above, (bits, capacity)),
        ensures
            final(self).wf(),
            exists|high: bool|
                (final(self)@, r) == #[trigger] old(self)@.acquire(model_name@, high, now) && (old(
                    self,
                )@.load_matters(model_name@) ==> call_ensures(
                    load_above,
                    old(self)@.load_question(model_name@),
                    high,
                )),
    {
        if self.is_blocked(model_name) {
            assert((self@, AcquireStep::Refused(AcquireError::Blocked)) == old(self)@.acquire(model_name@, true, now));
            return AcquireStep::Refused(AcquireError::Blocked);
        }
        let (max_concurrent, queue_depth): (usize, usize) = match self.settings.models.get(
            model_name,
        ) {
            Some(cfg) => (cfg.max_concurrent, cfg.queue_depth),
            None => {
                assert((self@, AcquireStep::Refused(AcquireError::Unavailable)) == old(self)@.acquire(model_name@, true, now));
                return AcquireStep::Refused(AcquireError::Unavailable);
            },
        };
        if let Some(key) = self.acquire_ready_slot(model_name, max_concurrent, now) {
            assert((self@, AcquireStep::Slot(key)) == old(self)@.acquire(model_name@, true, now));
            return AcquireStep::Slot(key);
        }
        let existing: usize = match self.instances.get(model_name) {
            Some(list) => count_active(list),
            None => 0,
        };
        assert(existing == active_count(self@.list(model_name@)));
        let mut should_spawn = true;
        if let Some(cfg) = self.settings.models.get(model_name) {
            if let Some(a) = cfg.autoscale {
                if a.enabled && existing > 0 {
                    let capacity: u128 = serve_capacity(cfg, existing);
                    should_spawn = load_above(a.scale_up_at, capacity);
                }
            }
        }
        if should_spawn {
            let start = self.ensure_spawn(model_name);
            assert((self@, AcquireStep::AwaitSpawn { start, max_concurrent, queue_depth }) == old(
                self,
            )@.acquire(model_name@, true, now));
            AcquireStep::AwaitSpawn { start, max_concurrent, queue_depth }
        } else {
            let r = self.park(model_name, queue_depth, now);
            assert((self@, r) == old(self)@.acquire(model_name@, false, now));
            r
        }
    }

    /// Makes sure that a spawn of the model is in flight. Tells whether it is
    /// to be started now; of concurrent callers, one is told so.
    pub fn ensure_spawn(&mut self, model_name: &str) -> (r: bool)
        requires
            old(self).wf(),
        ensures
            final(self).wf(),
            final(self)@ == (State {
                spawning: old(self)@.spawning.insert(model_name@),
                ..old(self)@
            }),
            r == !old(self)@.spawning.contains(model_name@),
    {
        let first = !self.spawns_in_flight.contains(model_name);
        if first {
            self.spawns_in_flight.insert(model_name, ());
        }
        assert(self@ =~= (State {
            spawning: old(self)@.spawning.insert(model_name@),
            ..old(self)@
        }));
        first
    }

    /// A spawn is over, successful or not.
    pub fn spawn_done(&mut self, model_name: &str)
        requires
            old(self).wf(),
        ensures
            final(self).wf(),
            final(self)@ == (State {
                spawning: old(self)@.spawning.remove(model_name@),
                ..old(self)@
            }),
    {
        let _ = self.spawns_in_flight.remove(model_name);
        assert(self@ =~= (State {
            spawning: old(self)@.spawning.remove(model_name@),
            ..old(self)@
        }));
    }

    fn park(&mut self, model_name: &str, queue_depth: usize, now: u64) -> (r: AcquireStep)
        requires
            old(self).wf(),
        ensures
            final(self).wf(),
            (final(self)@, r) == old(self)@.queue_path(model_name@, queue_depth, now),
    {
        match self.enqueue(model_name, queue_depth, now) {
            Ok((id, wake)) => AcquireStep::Parked { id, wake },
            Err(e) => AcquireStep::Refused(failure_of(e)),
        }
    }

    /// Goes on after the spawn that a request has waited for: a fresh instance
    /// has spare capacity; otherwise the request parks, which fails at once
    /// where no instance exists.
    pub fn after_spawn(
        &mut self,
        model_name: &str,
        max_concurrent: usize,
        queue_depth: usize,
        now: u64,
    ) -> (r: AcquireStep)
        requires
            old(self).wf(),
        ensures
            final(self).wf(),
            (final(self)@, r) == old(self)@.retry(model_name@, max_concurrent, queue_depth, now),
    {
        if let Some(key) = self.acquire_ready_slot(model_name, max_concurrent, now) {
            return AcquireStep::Slot(key);
        }
        self.park(model_name, queue_depth, now)
    }

    /// Ends a wait in the queue. A waiter that was served owns its slot
    /// already; one whose time is up leaves the queue.
    pub fn wait_over(&mut self, model_name: &str, id: u64, end: WaitEnd, now: u64) -> (r: Result<
        (),
        AcquireError,
    >)
        requires
            old(self).wf(),
        ensures
            final(self).wf(),
            match end {
                WaitEnd::Delivered => r == Ok::<(), AcquireError>(()) && final(self)@ == old(
                    self,
                )@.ticked(model_name@, 0, now),
                WaitEnd::QueueGone => r == Err::<(), AcquireError>(
                    queue_failure(EnqueueError::NoInstances),
                ) && final(self)@ == old(self)@,
                WaitEnd::TimedOut => r == Err::<(), AcquireError>(
                    queue_failure(EnqueueError::Timeout),
                ) && final(self)@ == old(self)@.unparked(model_name@, id),
            },
    {
        match end {
            WaitEnd::Delivered => {
                self.record_metrics_event(model_name, 0, now);
                Ok(())
            },
            WaitEnd::QueueGone => Err(failure_of(EnqueueError::NoInstances)),
            WaitEnd::TimedOut => {
                self.remove_queued(model_name, id);
                Err(failure_of(EnqueueError::Timeout))
            },
        }
    }

    /// Seconds between loading-indicator dots for a model: the model's own
    /// setting over the global one. None where the feature is off; a model
    /// cannot switch on what is off globally.
    pub fn loading_dots_interval(&self, model_name: &str) -> (r: Option<u64>)
        requires
            self.wf(),
        ensures
            r == (if self@.settings.loading_dots_interval_secs == 0
                || !self@.settings.models@.dom().contains(model_name@) {
                None
            } else {
                match self@.settings.models@[model_name@].loading_dots {
                    Some(0) => None,
                    Some(n) => Some(n),
                    None => Some(self@.settings.loading_dots_interval_secs),
                }
            }),
    {
        let global: u64 = self.settings.loading_dots_interval_secs;
        if global == 0 {
            return None;
        }
        match self.settings.models.get(model_name) {
            Some(m) => match m.loading_dots {
                Some(n) => if n == 0 {
                    None
                } else {
                    Some(n)
                },
                None => Some(global),
            },
            None => None,
        }
    }
}

// ── Loading without a request ───────────────────────────────────────────────

/// What an operator's load of a model does next.
#[derive(Debug, Clone, Copy, PartialEq, Eq, Structural)]
pub enum EnsureStep {
    /// The model is served already.
    Ready,
    Refused(AcquireError),
    /// Wait for the spawn in flight, which is to be started now if `start` is
    /// set, and look again with this limit.
    AwaitSpawn { start: bool, max_concurrent: usize },
}

impl State {
    /// A load of a model, which never waits in the queue.
    pub open spec fn ensured(self, name: Seq<char>) -> (State, EnsureStep) {
        if self.blocked.contains(name) {
            (self, EnsureStep::Refused(AcquireError::Blocked))
        } else if !self.settings.models@.dom().contains(name) {
            (self, EnsureStep::Refused(AcquireError::Unavailable))
        } else if self.ready(name, self.settings.models@[name].max_concurrent) is Some {
            (self, EnsureStep::Ready)
        } else {
            (
                State { spawning: self.spawning.insert(name), ..self },
                EnsureStep::AwaitSpawn {
                    start: !self.spawning.contains(name),
                    max_concurrent: self.settings.models@[name].max_concurrent,
                },
            )
        }
    }
}

impl InstanceManager {
    /// Makes sure that an instance of the model exists, without taking a slot
    /// and without ever waiting behind user traffic.
    pub fn ensure_instance(&mut self, model_name: &str) -> (r: EnsureStep)
        requires
            old(self).wf(),
        ensures
            final(self).wf(),
            (final(self)@, r) == old(self)@.ensured(model_name@),
    {
        if self.is_blocked(model_name) {
            return EnsureStep::Refused(AcquireError::Blocked);
        }
        let max_concurrent: usize = match self.settings.models.get(model_name) {
            Some(cfg) => cfg.max_concurrent,
            None => {
                return EnsureStep::Refused(AcquireError::Unavailable);
            },
        };
        if self.find_ready_instance(model_name, max_concurrent).is_some() {
            return EnsureStep::Ready;
        }
        let start = self.ensure_spawn(model_name);
        EnsureStep::AwaitSpawn { start, max_concurrent }
    }

    /// Looks again after the spawn.
    pub fn ensured(&self, model_name: &str, max_concurrent: usize) -> (r: Result<(), AcquireError>)
        requires
            self.wf(),
        ensures
            r == (if self@.ready(model_name@, max_concurrent) is Some {
                Ok::<(), AcquireError>(())
            } else {
                Err(AcquireError::Unavailable)
            }),
    {
        if self.find_ready_instance(model_name, max_concurrent).is_some() {
            Ok(())
        } else {
            Err(AcquireError::Unavailable)
        }
    }
}

// ── Laws ────────────────────────────────────────────────────────────────────

/// A blocked model refuses every request and a load, and nothing changes.
pub proof fn law_blocked_model_refuses(s: State, name: Seq<char>, high: bool, now: u64)
    requires
        s.blocked.contains(name),
    ensures
        s.acquire(name, high, now) == (s, AcquireStep::Refused(AcquireError::Blocked)),
        s.ensured(name) == (s, EnsureStep::Refused(AcquireError::Blocked)),
{
}

/// A model without an instance that takes requests, or retiring ones only, is
/// spawned at once: the load does not matter for a cold start.
pub proof fn law_cold_start_spawns(s: State, name: Seq<char>, high: bool, now: u64)
    requires
        !s.blocked.contains(name),
        s.settings.models@.dom().contains(name),
        s.ready(name, s.settings.models@[name].max_concurrent) is None,
        active_count(s.list(name)) == 0,
    ensures
        s.acquire(name, high, now).1 is AwaitSpawn,
{
}

/// No ready instance of the model has a slot free.
proof fn lemma_no_slot(s: State, name: Seq<char>, max_concurrent: usize)
    requires
        forall|i: int|
            0 <= i < s.list(name).len() ==> !((#[trigger] s.list(name)[i]).state
                == InstanceState::Ready && s.list(name)[i].in_flight < max_concurrent),
    ensures
        s.ready(name, max_concurrent) is None,
{
    law_the_least_busy_instance_serves(s, name, max_concurrent);
}

/// Without autoscaling, a request that finds no free slot starts another
/// instance, however many there are; requests never wait for want of an
/// instance that was not even tried. One spawn is started at a time.
pub proof fn law_full_model_is_spawned_without_autoscaling(
    s: State,
    name: Seq<char>,
    high: bool,
    now: u64,
)
    requires
        !s.blocked.contains(name),
        s.settings.models@.dom().contains(name),
        s.settings.models@[name].autoscale is None || !s.settings.models@[name].autoscale->0.enabled,
        forall|i: int|
            0 <= i < s.list(name).len() ==> !((#[trigger] s.list(name)[i]).state
                == InstanceState::Ready && s.list(name)[i].in_flight
                < s.settings.models@[name].max_concurrent),
    ensures
        s.acquire(name, high, now).1 == (AcquireStep::AwaitSpawn {
            start: !s.spawning.contains(name),
            max_concurrent: s.settings.models@[name].max_concurrent,
            queue_depth: s.settings.models@[name].queue_depth,
        }),
        s.acquire(name, high, now).0.spawning == s.spawning.insert(name),
        s.acquire(name, high, now).0.instances == s.instances,
        s.acquire(name, high, now).0.queues == s.queues,
{
    lemma_no_slot(s, name, s.settings.models@[name].max_concurrent);
}

/// With autoscaling, a request that finds no free slot starts an instance where
/// none takes requests or the load is high; otherwise it waits in line, the
/// last one there, and nothing is spawned. It is refused where the line is as
/// long as it may be.
pub proof fn law_full_model_scales_or_queues(s: State, name: Seq<char>, high: bool, now: u64)
    requires
        !s.blocked.contains(name),
        s.settings.models@.dom().contains(name),
        s.settings.models@[name].autoscale is Some,
        s.settings.models@[name].autoscale->0.enabled,
        forall|i: int|
            0 <= i < s.list(name).len() ==> !((#[trigger] s.list(name)[i]).state
                == InstanceState::Ready && s.list(name)[i].in_flight
                < s.settings.models@[name].max_concurrent),
    ensures
        ({
            let cfg = s.settings.models@[name];
            let (t, step) = s.acquire(name, high, now);
            let serving = exists|i: int|
                0 <= i < s.list(name).len() && (#[trigger] s.list(name)[i]).state
                    != InstanceState::Failed;
            &&& t.instances == s.instances
            &&& !serving || high ==> step == (AcquireStep::AwaitSpawn {
                start: !s.spawning.contains(name),
                max_concurrent: cfg.max_concurrent,
                queue_depth: cfg.queue_depth,
            }) && t.spawning == s.spawning.insert(name) && t.queues == s.queues
            &&& serving && !high ==> t.spawning == s.spawning && (forall|other: Seq<char>|
                other != name ==> #[trigger] t.queue(other) == s.queue(other))
            &&& serving && !high && s.queue(name).len() < cfg.queue_depth ==> step == (
            AcquireStep::Parked { id: s.next_queue_id, wake: Wake::NoCapacity }) && t.queue(name)
                == s.queue(name).push(s.next_queue_id)
            &&& serving && !high && s.queue(name).len() >= cfg.queue_depth ==> step
                == AcquireStep::Refused(AcquireError::NoCapacity) && t.queue(name) == s.queue(name)
        }),
{
    lemma_no_slot(s, name, s.settings.models@[name].max_concurrent);
    law_retiring_instances_do_not_count(s.list(name));
    let p = s.parked(name, s.settings.models@[name].queue_depth).0;
    lemma_no_slot(p, name, s.settings.models@[name].max_concurrent);
}

/// The load is asked for only where autoscaling is on, no slot is free and an
/// instance takes requests or will; it is compared with the threshold for
/// scaling up, times what all such instances can serve at once.
pub proof fn law_load_question(s: State, name: Seq<char>)
    requires
        s.settings.models@.dom().contains(name),
    ensures
        ({
            let cfg = s.settings.models@[name];
            let serving = s.list(name).filter(|i: Instance| i.state != InstanceState::Failed);
            &&& s.load_matters(name) <==> !s.blocked.contains(name) && (forall|i: int|
                0 <= i < s.list(name).len() ==> !((#[trigger] s.list(name)[i]).state
                    == InstanceState::Ready && s.list(name)[i].in_flight < cfg.max_concurrent))
                && cfg.autoscale is Some && cfg.autoscale->0.enabled && serving.len() > 0
            &&& s.load_matters(name) ==> s.load_question(name).0 == cfg.autoscale->0.scale_up_at
            &&& s.load_matters(name) && serving.len() <= usize::MAX ==> s.load_question(name).1
                == cfg.max_concurrent * serving.len()
        }),
{
    let cfg = s.settings.models@[name];
    law_retiring_instances_do_not_count(s.list(name));
    law_the_least_busy_instance_serves(s, name, cfg.max_concurrent);
    let n = active_count(s.list(name));
    let m = cfg.max_concurrent;
    if n <= usize::MAX {
        assert(0 <= m * n <= 0xffff_ffff_ffff_ffff * 0xffff_ffff_ffff_ffff) by (nonlinear_arith)
            requires
                m <= 0xffff_ffff_ffff_ffff,
                n <= 0xffff_ffff_ffff_ffff,
        ;
    }
}

/// A request that finds a free slot takes it, whatever the load: on a ready
/// instance of the model with the fewest requests in flight, which then has one
/// more. Nothing is spawned and nobody is parked.
pub proof fn law_free_slot_is_taken(s: State, name: Seq<char>, high: bool, now: u64, k: int)
    requires
        !s.blocked.contains(name),
        s.settings.models@.dom().contains(name),
        0 <= k < s.list(name).len(),
        s.list(name)[k].state == InstanceState::Ready,
        s.list(name)[k].in_flight < s.settings.models@[name].max_concurrent,
    ensures
        ({
            let (t, step) = s.acquire(name, high, now);
            &&& t.spawning == s.spawning
            &&& t.queues == s.queues
            &&& exists|i: int|
                {
                    &&& 0 <= i < s.list(name).len()
                    &&& (#[trigger] s.list(name)[i]).state == InstanceState::Ready
                    &&& s.list(name)[i].in_flight <= s.list(name)[k].in_flight
                    &&& step == AcquireStep::Slot(s.list(name)[i].key)
                    &&& t.list(name) == s.list(name).update(
                        i,
                        Instance {
                            in_flight: (s.list(name)[i].in_flight + 1) as usize,
                            last_active: now,
                            ..s.list(name)[i]
                        },
                    )
                }
        }),
{
    let max = s.settings.models@[name].max_concurrent;
    law_the_least_busy_instance_serves(s, name, max);
    let i = s.ready(name, max)->0;
    let t = s.acquire(name, high, now).0;
    assert(s.list(name)[i].state == InstanceState::Ready);
    assert(t.list(name) =~= s.list(name).update(
        i,
        Instance {
            in_flight: (s.list(name)[i].in_flight + 1) as usize,
            last_active: now,
            ..s.list(name)[i]
        },
    ));
}

/// A model that is not configured is not available, and nothing changes; a
/// request that waits for a model whose instances are all gone learns that it is
/// not available, while one whose time is up, or that finds the line full,
/// learns that there is no capacity.
pub proof fn law_refusals(s: State, name: Seq<char>, high: bool, now: u64)
    ensures
        !s.blocked.contains(name) && !s.settings.models@.dom().contains(name) ==> s.acquire(
            name,
            high,
            now,
        ) == (s, AcquireStep::Refused(AcquireError::Unavailable)) && s.ensured(name) == (
            s,
            EnsureStep::Refused(AcquireError::Unavailable),
        ),
        queue_failure(EnqueueError::NoInstances) == AcquireError::Unavailable,
        queue_failure(EnqueueError::QueueFull) == AcquireError::NoCapacity,
        queue_failure(EnqueueError::Timeout) == AcquireError::NoCapacity,
{
}

/// After a spawn a request takes a free slot if there is one; otherwise it
/// waits in line, unless the line is full or no instance is left to wait for.
pub proof fn law_after_a_spawn(
    s: State,
    name: Seq<char>,
    max_concurrent: usize,
    queue_depth: usize,
    now: u64,
)
    requires
        s.settings.models@.dom().contains(name) ==> s.settings.models@[name].max_concurrent
            == max_concurrent,
    ensures
        ({
            let (t, step) = s.retry(name, max_concurrent, queue_depth, now);
            let free = exists|j: int|
                0 <= j < s.list(name).len() && (#[trigger] s.list(name)[j]).state
                    == InstanceState::Ready && s.list(name)[j].in_flight < max_concurrent;
            let serving = exists|i: int|
                0 <= i < s.list(name).len() && (#[trigger] s.list(name)[i]).state
                    != InstanceState::Failed;
            &&& step is Slot <==> free
            &&& !free ==> t.instances == s.instances && t.spawning == s.spawning
            &&& step == AcquireStep::Refused(AcquireError::Unavailable) <==> !free && !serving
            &&& step == AcquireStep::Refused(AcquireError::NoCapacity) <==> !free && serving
                && s.queue(name).len() >= queue_depth
            &&& !free && serving && s.queue(name).len() < queue_depth ==> (step matches
                AcquireStep::Parked { id, wake } && id == s.next_queue_id) && t.queue(name)
                == s.queue(name).push(s.next_queue_id)
        }),
{
    law_the_least_busy_instance_serves(s, name, max_concurrent);
    law_retiring_instances_do_not_count(s.list(name));
    let p = s.parked(name, queue_depth).0;
    law_the_least_busy_instance_serves(p, name, max_concurrent);
    assert(p.list(name) == s.list(name));
}

/// An operator's load of a model is done where an instance has a slot free, and
/// otherwise starts an instance, whatever the load and however many there are.
/// It takes no slot and never waits in line.
pub proof fn law_load_makes_an_instance(s: State, name: Seq<char>)
    requires
        !s.blocked.contains(name),
        s.settings.models@.dom().contains(name),
    ensures
        ({
            let max = s.settings.models@[name].max_concurrent;
            let (t, step) = s.ensured(name);
            let free = exists|j: int|
                0 <= j < s.list(name).len() && (#[trigger] s.list(name)[j]).state
                    == InstanceState::Ready && s.list(name)[j].in_flight < max;
            &&& t.instances == s.instances
            &&& t.queues == s.queues
            &&& free ==> step is Ready && t == s
            &&& !free ==> step == (EnsureStep::AwaitSpawn {
                start: !s.spawning.contains(name),
                max_concurrent: max,
            }) && t.spawning == s.spawning.insert(name)
        }),
{
    law_the_least_busy_instance_serves(s, name, s.settings.models@[name].max_concurrent);
}

} // verus!

//! What holds of the scheduler across its operations.

use vstd::prelude::*;
use crate::backend::{DeviceKind, ReadyOutcome};
use crate::config::ModelConfig;
use crate::fingerprint::is_fingerprint;
use crate::gpu::GpuMetrics;
use crate::instance::{decimals, Instance, InstanceState};
use crate::keepalive::{
    acquired, acquired_all, law_references_balance, no_empty_counts, released_all, room_for,
    ActionView,
};
use crate::metrics::{ModelMetrics, Tick};
use crate::numbers::{decimal, lemma_decimal_injective, lemma_decimal_value};
use crate::placement::{
    capacity, distinct_slots, is_placement, joined, kind_of, law_no_oversubscription, list_uses,
    slot_bytes, slot_in,
};
use crate::scheduler::{
    active_count, at, device_slots, in_flight_sum, key_index, law_least_ready,
    law_retiring_instances_do_not_count, law_the_least_busy_instance_serves, lemma_key_index,
    lemma_update_sound, lists, newest_first, next_id, without, EnqueueError, InstanceManager, Removal,
    RemovalMode, State, Wake, CRASH_LIMIT,
};
use crate::settings::Settings;
use crate::spawning::{newly_registered, SpawnEnd, SpawnPlan};
use crate::text::join;
use crate::unload::{all_retired, retired};

verus! {

// ── Slots ───────────────────────────────────────────────────────────────────

proof fn lemma_sum_update(list: Seq<Instance>, i: int, x: Instance)
    requires
        0 <= i < list.len(),
    ensures
        in_flight_sum(list.update(i, x)) == in_flight_sum(list) - list[i].in_flight + x.in_flight,
    decreases list.len(),
{
    let next = list.update(i, x);
    if i == list.len() - 1 {
        assert(next.drop_last() =~= list.drop_last());
    } else {
        assert(next.drop_last() =~= list.drop_last().update(i, x));
        lemma_sum_update(list.drop_last(), i, x);
    }
}

/// A request that takes a slot is counted once, and its slot is one that the
/// instance had free.
pub proof fn law_slot_is_counted_once(s: State, name: Seq<char>, max_concurrent: usize, now: u64)
    requires
        s.ready(name, max_concurrent) is Some,
    ensures
        ({
            let i = s.ready(name, max_concurrent)->0;
            let t = s.slot_taken(name, i, now);
            &&& in_flight_sum(t.list(name)) == in_flight_sum(s.list(name)) + 1
            &&& t.list(name)[i].in_flight <= max_concurrent
            &&& t.list(name)[i].key == s.list(name)[i].key
            &&& forall|j: int|
                0 <= j < s.list(name).len() && j != i ==> t.list(name)[j] == s.list(name)[j]
        }),
{
    law_least_ready(s.list(name), max_concurrent);
    let i = s.ready(name, max_concurrent)->0;
    lemma_sum_update(s.list(name), i, s.list(name)[i].acquired(now));
}

/// A slot that was taken on an instance and is given back leaves the number of
/// requests in flight as it was.
pub proof fn law_slots_balance(
    s: State,
    name: Seq<char>,
    max_concurrent: usize,
    taken: u64,
    given_back: u64,
)
    requires
        s.sound(),
        s.ready(name, max_concurrent) is Some,
    ensures
        ({
            let i = s.ready(name, max_concurrent)->0;
            let t = s.slot_taken(name, i, taken);
            let u = t.slot_released(name, s.list(name)[i].key, given_back);
            &&& u.list(name).len() == s.list(name).len()
            &&& forall|j: int|
                0 <= j < s.list(name).len() ==> (#[trigger] u.list(name)[j]).in_flight == s.list(
                    name,
                )[j].in_flight
        }),
{
    law_least_ready(s.list(name), max_concurrent);
    let i = s.ready(name, max_concurrent)->0;
    let key = s.list(name)[i].key;
    let t = s.slot_taken(name, i, taken);
    lemma_key_index(t.list(name), key);
    assert(t.list(name)[i].key == key);
    let k = key_index(t.list(name), key)->0;
    assert(s.list(name)[k].key == key);
    if k < i {
        assert(s.list(name)[k].key != s.list(name)[i].key);
    } else if i < k {
        assert(s.list(name)[i].key != s.list(name)[k].key);
    }
}

// ── Queues ──────────────────────────────────────────────────────────────────

/// Requests are served in the order in which they parked: whoever is woken was
/// first in line, the others keep their order, and a new one is last.
pub proof fn law_queue_is_fifo(s: State, name: Seq<char>, max_depth: usize, now: u64)
    ensures
        s.woken(name, now).1 matches Wake::Deliver { waiter, key } ==> s.queue(name) == seq![waiter]
            + s.woken(name, now).0.queue(name),
        !(s.woken(name, now).1 is Deliver) ==> s.woken(name, now).0 == s,
        s.parked(name, max_depth).1 matches Ok(id) ==> s.parked(name, max_depth).0.queue(name)
            == s.queue(name).push(id),
        s.parked(name, max_depth).1 is Err ==> s.parked(name, max_depth).0.queue(name) == s.queue(
            name,
        ),
{
    if let Wake::Deliver { waiter, key } = s.woken(name, now).1 {
        assert(s.queue(name) =~= seq![waiter] + s.queue(name).drop_first());
    }
}

/// Waking a request loses none: it leaves the queue exactly when it owns a
/// slot, so as many requests are in flight or parked as before.
pub proof fn law_wake_loses_no_request(s: State, name: Seq<char>, now: u64)
    ensures
        s.woken(name, now).0.active(name) == s.active(name),
{
    if s.woken(name, now).1 is Deliver {
        let max = s.settings.models@[name].max_concurrent;
        law_least_ready(s.list(name), max);
        let i = s.ready(name, max)->0;
        lemma_sum_update(s.list(name), i, s.list(name)[i].acquired(now));
    }
}

/// Parking never makes a queue longer than its limit.
pub proof fn law_queue_is_bounded(s: State, name: Seq<char>, max_depth: usize)
    ensures
        s.queue(name).len() <= max_depth ==> s.parked(name, max_depth).0.queue(name).len()
            <= max_depth,
{
}

/// Somebody is parked for a model only while it has an instance.
pub open spec fn no_orphans(s: State) -> bool {
    forall|name: Seq<char>| #[trigger] s.queue(name).len() > 0 ==> s.list(name).len() > 0
}

proof fn lemma_without_len(queue: Seq<u64>, id: u64)
    ensures
        without(queue, id).len() <= queue.len(),
    decreases queue.len(),
{
    if queue.len() > 0 {
        lemma_without_len(queue.drop_last(), id);
    }
}

/// No request is ever left waiting for a model without instances: parking,
/// waking, timing out and unregistering an instance all keep it so.
pub proof fn law_no_request_waits_forever(
    s: State,
    name: Seq<char>,
    max_depth: usize,
    id: u64,
    key: u64,
    now: u64,
)
    requires
        no_orphans(s),
    ensures
        no_orphans(s.parked(name, max_depth).0),
        no_orphans(s.woken(name, now).0),
        no_orphans(s.unparked(name, id)),
        no_orphans(s.unregistered(name, key)),
{
    let p = s.parked(name, max_depth).0;
    assert forall|n: Seq<char>| #[trigger] p.queue(n).len() > 0 implies p.list(n).len() > 0 by {
        assert(p.list(n) == s.list(n));
        if n != name {
            assert(p.queue(n) == s.queue(n));
        }
    }
    let w = s.woken(name, now).0;
    assert forall|n: Seq<char>| #[trigger] w.queue(n).len() > 0 implies w.list(n).len() > 0 by {
        law_least_ready(s.list(name), s.settings.models@[name].max_concurrent);
        assert(w.list(n).len() == s.list(n).len());
        if n != name {
            assert(w.queue(n) == s.queue(n));
        } else {
            assert(s.queue(n).len() > 0);
        }
    }
    let u = s.unparked(name, id);
    assert forall|n: Seq<char>| #[trigger] u.queue(n).len() > 0 implies u.list(n).len() > 0 by {
        assert(u.list(n) == s.list(n));
        if n != name {
            assert(u.queue(n) == s.queue(n));
        } else {
            lemma_without_len(s.queue(n), id);
            assert(s.queue(n).len() > 0);
        }
    }
    let r = s.unregistered(name, key);
    assert forall|n: Seq<char>| #[trigger] r.queue(n).len() > 0 implies r.list(n).len() > 0 by {
        if n != name {
            assert(r.queue(n) == s.queue(n));
            assert(r.list(n) == s.list(n));
        } else {
            assert(s.queue(n).len() > 0);
        }
    }
}

// ── Removal ─────────────────────────────────────────────────────────────────

/// Only a forced removal ends an instance with requests in flight. Otherwise
/// it stays registered with all its requests; where it drains, it merely takes
/// no more.
pub proof fn law_removal_interrupts_nothing(
    s: State,
    name: Seq<char>,
    key: u64,
    mode: RemovalMode,
    i: int,
)
    requires
        key_index(s.list(name), key) == Some(i),
        s.list(name)[i].in_flight > 0,
        mode != RemovalMode::Force,
    ensures
        s.removal(name, key, mode).1 != Removal::Remove,
        s.removal(name, key, mode).0.list(name).len() == s.list(name).len(),
        s.removal(name, key, mode).0.list(name)[i].in_flight == s.list(name)[i].in_flight,
        mode == RemovalMode::IfIdle ==> s.removal(name, key, mode).0 == s,
        mode == RemovalMode::Drain ==> s.removal(name, key, mode).0.list(name)[i] == retired(
            s.list(name)[i],
        ),
{
    lemma_key_index(s.list(name), key);
}

/// An instance is unregistered once: a second time changes nothing, so its
/// port and its keep-alive references are given back exactly once.
pub proof fn law_unregister_happens_once(s: State, name: Seq<char>, key: u64)
    requires
        s.sound(),
    ensures
        key_index(s.unregistered(name, key).list(name), key) is None,
        s.unregistered(name, key).unregistered(name, key) == s.unregistered(name, key),
        !s.unregistered(name, key).cleanup(name, key).removed,
{
    lemma_key_index(s.list(name), key);
    if let Some(i) = key_index(s.list(name), key) {
        let list = s.list(name);
        let rest = s.unregistered(name, key).list(name);
        assert(rest == list.remove(i));
        lemma_key_index(rest, key);
        if let Some(k) = key_index(rest, key) {
            let j = if k < i { k } else { k + 1 };
            assert(rest[k] == list[j]);
            if j < i {
                assert(list[j].key != list[i].key);
            } else {
                assert(list[i].key != list[j].key);
            }
        }
    }
}

/// Unregistering one instance leaves the others of the model as they are, even
/// where ids are equal, and leaves other models alone.
pub proof fn law_unregister_spares_others(
    s: State,
    name: Seq<char>,
    key: u64,
    other: Seq<char>,
    j: int,
)
    requires
        0 <= j < s.list(name).len(),
        s.list(name)[j].key != key,
        other != name,
    ensures
        s.unregistered(name, key).list(name).contains(s.list(name)[j]),
        s.unregistered(name, key).list(other) == s.list(other),
        s.unregistered(name, key).queue(other) == s.queue(other),
{
    lemma_key_index(s.list(name), key);
    let rest = s.unregistered(name, key).list(name);
    match key_index(s.list(name), key) {
        Some(i) => {
            let k = if j < i { j } else { j - 1 };
            assert(rest[k] == s.list(name)[j]);
        },
        None => {
            assert(rest[j] == s.list(name)[j]);
        },
    }
}

// ── Crashes ─────────────────────────────────────────────────────────────────

/// Crashes before readiness block a model at the limit and not before; a crash
/// after readiness never does.
pub proof fn law_crashes_block_at_the_limit(s: State, name: Seq<char>)
    requires
        !s.crash_counts.dom().contains(name),
        !s.blocked.contains(name),
    ensures
        CRASH_LIMIT == 3,
        !s.crash_noted(name).blocked.contains(name),
        !s.crash_noted(name).crash_noted(name).blocked.contains(name),
        s.crash_noted(name).crash_noted(name).crash_noted(name).blocked.contains(name),
{
}

/// A crash of a ready instance leaves blocks and crash counts alone, and a
/// crash of an instance that is being removed changes nothing at all.
pub proof fn law_ready_crash_is_not_counted(s: State, name: Seq<char>, key: u64, i: int)
    requires
        key_index(s.list(name), key) == Some(i),
    ensures
        s.list(name)[i].state == InstanceState::Ready ==> s.crashed(name, key).blocked == s.blocked
            && s.crashed(name, key).crash_counts == s.crash_counts,
        s.list(name)[i].state == InstanceState::Failed ==> s.crashed(name, key) == s,
{
}

// ── Retiring instances ──────────────────────────────────────────────────────

/// Retiring instances do not count toward the instance cap, so a replacement
/// can be spawned while they finish their requests.
pub proof fn law_retired_do_not_count(list: Seq<Instance>)
    ensures
        active_count(all_retired(list)) == 0,
    decreases list.len(),
{
    if list.len() > 0 {
        assert(all_retired(list).drop_last() =~= all_retired(list.drop_last()));
        law_retired_do_not_count(list.drop_last());
    }
}

/// Retiring instances still hold their devices: what they reserve is the same
/// as before.
pub proof fn law_retired_hold_their_devices(
    settings: Settings,
    name: Seq<char>,
    list: Seq<Instance>,
    slot: Seq<char>,
)
    ensures
        list_uses(settings, name, all_retired(list), slot) == list_uses(settings, name, list, slot),
    decreases list.len(),
{
    if list.len() > 0 {
        assert(all_retired(list).drop_last() =~= all_retired(list.drop_last()));
        law_retired_hold_their_devices(settings, name, list.drop_last(), slot);
    }
}

// ── Spawning and removal ────────────────────────────────────────────────────

/// Unregistering undoes a registration: the other instances are as they were,
/// the port is free, and the keep-alive references are balanced, whatever else
/// is in use.
pub proof fn law_removal_undoes_a_spawn(s: State, name: Seq<char>, i: Instance, now: u64)
    requires
        key_index(s.list(name), i.key) is None,
        s.keepalive matches Some(k) ==> no_empty_counts(k) && room_for(
            k,
            device_slots(s.settings, i.gpu_indices@).len(),
        ),
    ensures
        ({
            let kind = kind_of(s.settings, name);
            let t = s.registered(name, kind, i, now).unregistered(name, i.key);
            &&& t.list(name) == s.list(name)
            &&& t.keepalive == s.keepalive
            &&& t.ports.used == s.ports.used.remove(i.port)
            &&& forall|other: Seq<char>| other != name ==> #[trigger] t.list(other) == s.list(other)
        }),
{
    let kind = kind_of(s.settings, name);
    let r = s.registered(name, kind, i, now);
    let list = s.list(name);
    let n = list.len() as int;
    assert(r.list(name) == list.push(i));
    assert(list.push(i).drop_last() =~= list);
    assert(key_index(list.push(i), i.key) == Some(n));
    assert(list.push(i).remove(n) =~= list);
    if let Some(k) = s.keepalive {
        law_references_balance(k, device_slots(s.settings, i.gpu_indices@));
    }
}

proof fn lemma_digits_have_no_mark(n: nat, i: int)
    requires
        0 <= i < decimal(n).len(),
    ensures
        decimal(n)[i] != '#',
    decreases n,
{
    lemma_decimal_value(n);
    if n >= 10 {
        lemma_decimal_value(n / 10);
        if i < decimal(n).len() - 1 {
            assert(decimal(n).drop_last() =~= decimal(n / 10));
            lemma_digits_have_no_mark(n / 10, i);
            assert(decimal(n)[i] == decimal(n / 10)[i]);
        }
    }
}

proof fn lemma_tail_after_mark(front: Seq<char>, a: nat, other: Seq<char>, b: nat)
    requires
        front + "#"@ + decimal(a) == other + "#"@ + decimal(b),
    ensures
        decimal(b).len() <= decimal(a).len(),
{
    reveal_strlit("#");
    let s = front + "#"@ + decimal(a);
    let t = other + "#"@ + decimal(b);
    if decimal(a).len() < decimal(b).len() {
        let at_mark = front.len() as int;
        let j = at_mark - other.len() - 1;
        assert(s.len() == front.len() + 1 + decimal(a).len());
        assert(t.len() == other.len() + 1 + decimal(b).len());
        assert(s[at_mark] == '#');
        assert(t[at_mark] == decimal(b)[j]);
        lemma_digits_have_no_mark(b, j);
    }
}

/// Instances that are registered under different sequence numbers have
/// different ids, even where model and devices are the same.
pub proof fn law_instance_ids_differ(
    x: Instance,
    s: State,
    name: Seq<char>,
    cfg: ModelConfig,
    plan: SpawnPlan,
    now: u64,
    y: Instance,
    t: State,
    other: Seq<char>,
    other_cfg: ModelConfig,
    other_plan: SpawnPlan,
    later: u64,
)
    requires
        newly_registered(x, s, name, cfg, plan, now),
        newly_registered(y, t, other, other_cfg, other_plan, later),
        s.instance_seq != t.instance_seq,
    ensures
        x.id@ != y.id@,
{
    if x.id@ == y.id@ {
        reveal_strlit("#");
        let a = decimal(s.instance_seq as nat);
        let b = decimal(t.instance_seq as nat);
        let front = x.id@.take(x.id@.len() - a.len() - 1);
        let back = y.id@.take(y.id@.len() - b.len() - 1);
        assert(front + "#"@ + a =~= x.id@);
        assert(back + "#"@ + b =~= y.id@);
        lemma_tail_after_mark(front, s.instance_seq as nat, back, t.instance_seq as nat);
        lemma_tail_after_mark(back, t.instance_seq as nat, front, s.instance_seq as nat);
        assert(a =~= x.id@.skip(x.id@.len() - a.len()));
        assert(b =~= y.id@.skip(y.id@.len() - b.len()));
        lemma_decimal_injective(s.instance_seq as nat, t.instance_seq as nat);
    }
}

// ── Placement ───────────────────────────────────────────────────────────────

/// Spawning does not oversubscribe GPUs: once an instance is registered on a
/// placement for its model, what is reserved in each of its slots is within the
/// capacity, or, if the model declares no VRAM, is what it was.
pub proof fn law_spawning_does_not_oversubscribe(
    before: InstanceManager,
    after: InstanceManager,
    gpus: Seq<GpuMetrics>,
    cfg: ModelConfig,
    inst: Instance,
    now: u64,
    k: int,
)
    requires
        before.wf(),
        after.wf(),
        after@ == before@.registered(cfg.name@, cfg.kind(), inst, now),
        before.settings.models@.dom().contains(cfg.name@),
        before.settings.models@[cfg.name@] == cfg,
        distinct_slots(before.settings, cfg.kind()),
        is_placement(before.settings, before.instances, gpus, cfg, inst.gpu_indices@),
        0 <= k < inst.gpu_indices@.len(),
    ensures
        slot_in(before.settings, cfg.kind(), inst.gpu_indices@[k]) matches Some(slot) && capacity(
            before.settings,
            cfg.kind(),
            gpus,
            inst.gpu_indices@[k],
            slot,
        ) matches Some(cap) && {
            let held = slot_bytes(before.settings, before.instances.entries@, slot);
            let holds = slot_bytes(after.settings, after.instances.entries@, slot);
            &&& cfg.vram > 0 ==> holds <= cap
            &&& cfg.vram == 0 ==> holds == held
            &&& held <= cap ==> holds <= cap
        },
{
    let name = cfg.name@;
    let a = before.instances@;
    let b = after.instances@;
    assert(after@.instances == before@.instances.insert(name, before@.list(name).push(inst)));
    assert(lists(b).dom() =~= b.dom());
    assert(lists(a).dom() =~= a.dom());
    assert(joined(a, b, name, inst)) by {
        assert(b.dom() =~= a.dom().insert(name));
        assert(lists(b)[name] == b[name]@);
        if a.dom().contains(name) {
            assert(lists(a)[name] == a[name]@);
        }
        assert forall|other: Seq<char>| #[trigger] a.dom().contains(other) && other
            != name implies b[other]@ == a[other]@ by {
            assert(lists(b)[other] == b[other]@);
            assert(lists(a)[other] == a[other]@);
        }
    }
    law_no_oversubscription(before.settings, before.instances, gpus, cfg, inst, after.instances, k);
}

// ── What the operations do ──────────────────────────────────────────────────

/// Somebody who is parked is woken exactly where an instance of the model has a
/// slot free. The first in line gets it, on the least busy instance, which then
/// has one more request; the others move up.
pub proof fn law_waking_serves_the_first_in_line(s: State, name: Seq<char>, now: u64)
    requires
        s.settings.models@.dom().contains(name),
    ensures
        ({
            let max = s.settings.models@[name].max_concurrent;
            let list = s.list(name);
            let free = exists|j: int|
                0 <= j < list.len() && (#[trigger] list[j]).state == InstanceState::Ready
                    && list[j].in_flight < max;
            let (t, wake) = s.woken(name, now);
            &&& wake is Nobody <==> s.queue(name).len() == 0
            &&& wake is NoCapacity <==> s.queue(name).len() > 0 && !free
            &&& wake is Deliver <==> s.queue(name).len() > 0 && free
            &&& !(wake is Deliver) ==> t == s
            &&& wake matches Wake::Deliver { waiter, key } ==> {
                &&& waiter == s.queue(name)[0]
                &&& t.queue(name) == s.queue(name).subrange(1, s.queue(name).len() as int)
                &&& exists|i: int|
                    {
                        &&& 0 <= i < list.len()
                        &&& (#[trigger] list[i]).key == key
                        &&& list[i].state == InstanceState::Ready
                        &&& list[i].in_flight < max
                        &&& forall|j: int|
                            0 <= j < list.len() && (#[trigger] list[j]).state
                                == InstanceState::Ready ==> list[i].in_flight <= list[j].in_flight
                        &&& t.list(name) == list.update(
                            i,
                            Instance {
                                in_flight: (list[i].in_flight + 1) as usize,
                                last_active: now,
                                ..list[i]
                            },
                        )
                    }
            }
        }),
{
    let max = s.settings.models@[name].max_concurrent;
    let list = s.list(name);
    law_the_least_busy_instance_serves(s, name, max);
    if let Wake::Deliver { waiter, key } = s.woken(name, now).1 {
        let i = s.ready(name, max)->0;
        let t = s.woken(name, now).0;
        assert(s.queue(name).drop_first() =~= s.queue(name).subrange(
            1,
            s.queue(name).len() as int,
        ));
        assert(list[i].key == key);
        assert forall|j: int| 0 <= j < list.len() && (#[trigger] list[j]).state
            == InstanceState::Ready implies list[i].in_flight <= list[j].in_flight by {
            if list[j].in_flight < max {
            }
        }
        assert(t.list(name) =~= list.update(
            i,
            Instance {
                in_flight: (list[i].in_flight + 1) as usize,
                last_active: now,
                ..list[i]
            },
        ));
    }
}

/// A request parks behind all others of its model, unless the line is as long
/// as it may be, or every instance of the model is retiring or gone, so that
/// nothing could ever wake it. A refused request is in no line.
pub proof fn law_parking(s: State, name: Seq<char>, max_depth: usize, other: Seq<char>)
    requires
        other != name,
    ensures
        ({
            let (t, r) = s.parked(name, max_depth);
            let serving = exists|i: int|
                0 <= i < s.list(name).len() && (#[trigger] s.list(name)[i]).state
                    != InstanceState::Failed;
            &&& r == Err::<u64, EnqueueError>(EnqueueError::NoInstances) <==> !serving
            &&& r == Err::<u64, EnqueueError>(EnqueueError::QueueFull) <==> serving && s.queue(
                name,
            ).len() >= max_depth
            &&& r is Ok <==> serving && s.queue(name).len() < max_depth
            &&& r matches Ok(id) ==> id == s.next_queue_id && t.queue(name) == s.queue(name).push(id)
            &&& r is Err ==> t.queue(name) == s.queue(name)
            &&& t.queue(other) == s.queue(other)
            &&& t.instances == s.instances
            &&& t.next_queue_id != s.next_queue_id
        }),
{
    law_retiring_instances_do_not_count(s.list(name));
}

/// A request whose time is up leaves the line; nobody else does, and nobody
/// changes places.
pub proof fn law_leaving_the_line(queue: Seq<u64>, id: u64)
    ensures
        without(queue, id) == queue.filter(|x: u64| x != id),
    decreases queue.len(),
{
    reveal(Seq::filter);
    if queue.len() > 0 {
        law_leaving_the_line(queue.drop_last(), id);
    }
}

/// A slot that is given back makes one request less on the instance that it was
/// taken on, and nothing else.
pub proof fn law_giving_a_slot_back(s: State, name: Seq<char>, now: u64, i: int, other: Seq<char>)
    requires
        s.sound(),
        0 <= i < s.list(name).len(),
        other != name,
    ensures
        ({
            let list = s.list(name);
            let t = s.slot_released(name, list[i].key, now);
            &&& t.list(name).len() == list.len()
            &&& list[i].in_flight > 0 ==> t.list(name)[i].in_flight == list[i].in_flight - 1
            &&& list[i].in_flight == 0 ==> t.list(name)[i].in_flight == 0
            &&& t.list(name)[i].last_active == now
            &&& t.list(name)[i].state == list[i].state
            &&& forall|j: int| 0 <= j < list.len() && j != i ==> t.list(name)[j] == list[j]
            &&& t.list(other) == s.list(other)
            &&& t.queues == s.queues
        }),
{
    lemma_position(s, name, i);
}

/// An instance is found by its key.
proof fn lemma_position(s: State, name: Seq<char>, i: int)
    requires
        s.sound(),
        0 <= i < s.list(name).len(),
    ensures
        key_index(s.list(name), s.list(name)[i].key) == Some(i),
{
    let list = s.list(name);
    assert(s.instances.dom().contains(name));
    lemma_key_index(list, list[i].key);
    let k = key_index(list, list[i].key)->0;
    if k < i {
        assert(list[k].key != list[i].key);
    } else if i < k {
        assert(list[i].key != list[k].key);
    }
}

/// Setting the state of an instance changes that and nothing else.
pub proof fn law_setting_a_state(
    s: State,
    name: Seq<char>,
    state: InstanceState,
    i: int,
    other: Seq<char>,
)
    requires
        s.sound(),
        0 <= i < s.list(name).len(),
        other != name,
    ensures
        ({
            let t = s.with_state(name, s.list(name)[i].key, state);
            &&& t.list(name) == s.list(name).update(i, Instance { state, ..s.list(name)[i] })
            &&& t.list(other) == s.list(other)
            &&& t == (State { instances: t.instances, ..s })
        }),
{
    lemma_position(s, name, i);
}

/// The crashes before readiness of a model are counted, and it is blocked from
/// the third on; other models are not concerned.
pub proof fn law_third_crash_blocks(s: State, name: Seq<char>, other: Seq<char>)
    requires
        other != name,
    ensures
        ({
            let before: int = if s.crash_counts.dom().contains(name) {
                s.crash_counts[name] as int
            } else {
                0
            };
            let t = s.crash_noted(name);
            &&& before < usize::MAX ==> t.crash_counts.dom().contains(name)
                && t.crash_counts[name] == before + 1
            &&& t.blocked.contains(name) <==> s.blocked.contains(name) || before + 1 >= 3
            &&& t.blocked.contains(other) <==> s.blocked.contains(other)
            &&& t.instances == s.instances
        }),
{
}

/// Unregistering takes out the one instance, frees its port and no other, and
/// fails the parked requests exactly where it was the model's last instance.
pub proof fn law_unregistering(s: State, name: Seq<char>, i: int, port: u16)
    requires
        s.sound(),
        0 <= i < s.list(name).len(),
    ensures
        ({
            let key = s.list(name)[i].key;
            let t = s.unregistered(name, key);
            let c = s.cleanup(name, key);
            &&& c.removed
            &&& t.list(name) == s.list(name).remove(i)
            &&& t.ports.used.contains(port) <==> s.ports.used.contains(port) && port != s.list(
                name,
            )[i].port
            &&& s.list(name).len() == 1 ==> c.failed_waiters == s.queue(name) && t.queue(name)
                == Seq::<u64>::empty()
            &&& s.list(name).len() > 1 ==> c.failed_waiters == Seq::<u64>::empty() && t.queue(name)
                == s.queue(name)
        }),
{
    lemma_position(s, name, i);
    if s.list(name).len() == 1 && !s.queues.dom().contains(name) {
        assert(s.queue(name) =~= Seq::<u64>::empty());
    }
}

/// How a removal begins: a busy instance is kept if only idle ones are to go,
/// and drains if it may finish; an idle one goes at once, and a forced removal
/// spares none. Whatever is to go, at once or later, takes no more requests.
pub proof fn law_how_a_removal_begins(s: State, name: Seq<char>, mode: RemovalMode, i: int)
    requires
        s.sound(),
        0 <= i < s.list(name).len(),
    ensures
        ({
            let inst = s.list(name)[i];
            let (t, r) = s.removal(name, inst.key, mode);
            let busy = inst.in_flight > 0;
            &&& r == Removal::Kept <==> busy && mode == RemovalMode::IfIdle
            &&& r == Removal::Draining <==> busy && mode == RemovalMode::Drain
            &&& r == Removal::Remove <==> !busy || mode == RemovalMode::Force
            &&& r == Removal::Kept ==> t == s
            &&& r != Removal::Kept ==> t.list(name) == s.list(name).update(
                i,
                Instance { state: InstanceState::Failed, ..inst },
            )
        }),
{
    lemma_position(s, name, i);
}

/// A process that exits by itself takes its instance out of the registry, unless
/// a removal has it already. Before it was ready that counts as a crash; after
/// that it does not.
pub proof fn law_crashes(s: State, name: Seq<char>, i: int)
    requires
        s.sound(),
        0 <= i < s.list(name).len(),
    ensures
        ({
            let inst = s.list(name)[i];
            let t = s.crashed(name, inst.key);
            let before: int = if s.crash_counts.dom().contains(name) {
                s.crash_counts[name] as int
            } else {
                0
            };
            &&& inst.state == InstanceState::Failed ==> t == s
            &&& inst.state != InstanceState::Failed ==> t.list(name) == s.list(name).remove(i)
                && !(t.ports.used.contains(inst.port))
            &&& inst.state == InstanceState::Ready ==> t.crash_counts == s.crash_counts && t.blocked
                == s.blocked
            &&& inst.state == InstanceState::Loading && before < usize::MAX
                ==> t.crash_counts.dom().contains(name) && t.crash_counts[name] == before + 1
            &&& inst.state == InstanceState::Loading ==> (t.blocked.contains(name)
                <==> s.blocked.contains(name) || before + 1 >= 3)
        }),
{
    lemma_position(s, name, i);
    let inst = s.list(name)[i];
    let f = s.with_state(name, inst.key, InstanceState::Failed);
    assert(f.list(name) =~= s.list(name).update(i, Instance { state: InstanceState::Failed, ..inst }));
    lemma_update_sound(s, name, i, Instance { state: InstanceState::Failed, ..inst });
    if inst.state != InstanceState::Failed {
        lemma_position(f, name, i);
        assert(f.list(name).remove(i) =~= s.list(name).remove(i));
    }
}

/// A spawn that has become ready serves, if the instance still has the settings
/// of its model, and then earlier crashes are forgotten. Otherwise it is
/// discarded and takes no requests; that counts as a crash only where the
/// process has exited by itself.
pub proof fn law_how_a_spawn_ends(s: State, name: Seq<char>, outcome: ReadyOutcome, i: int)
    requires
        s.sound(),
        0 <= i < s.list(name).len(),
    ensures
        ({
            let inst = s.list(name)[i];
            let (t, end) = s.spawn_ended(name, inst.key, outcome);
            let current = s.settings.models@.dom().contains(name) && (
            inst.config_fingerprint matches Some(f) && is_fingerprint(
                f@,
                s.settings.cmd_aliases@,
                s.settings.models@[name],
            ));
            &&& end == SpawnEnd::Serving <==> outcome == ReadyOutcome::Ready && current
            &&& end is Discard ==> end == (SpawnEnd::Discard {
                crashed: outcome == ReadyOutcome::ChildExited,
            }) && t.list(name) == s.list(name).update(
                i,
                Instance { state: InstanceState::Failed, ..inst },
            ) && t.crash_counts == s.crash_counts
            &&& end == SpawnEnd::Serving ==> t.instances == s.instances
                && !t.crash_counts.dom().contains(name)
        }),
{
    lemma_position(s, name, i);
}

/// An instance that is registered is the model's last, is loading and has no
/// request yet; it has the plan's key, port and devices.
pub proof fn law_registering(
    s: State,
    name: Seq<char>,
    cfg: ModelConfig,
    plan: SpawnPlan,
    inst: Instance,
    now: u64,
    max_concurrent: usize,
    other: Seq<char>,
)
    requires
        newly_registered(inst, s, name, cfg, plan, now),
        other != name,
    ensures
        ({
            let t = s.registered(name, cfg.kind(), inst, now);
            &&& t.list(name) == s.list(name).push(inst)
            &&& t.list(other) == s.list(other)
            &&& t.queues == s.queues
            &&& t.ports == s.ports
            &&& inst.key == plan.key && inst.port == plan.port && inst.gpu_indices@
                == plan.gpu_indices@ && inst.model_name@ == name
            &&& inst.in_flight == 0
            &&& inst.state == InstanceState::Loading
            &&& !inst.takes_request(max_concurrent)
            &&& t.instance_seq != s.instance_seq
        }),
{
}

/// A model has as many instances as it may have where that many are not
/// retiring; retiring ones do not count.
pub proof fn law_instance_cap(s: State, name: Seq<char>, cfg: ModelConfig)
    requires
        cfg.max_instances > 0,
    ensures
        s.at_cap(name, cfg) <==> s.list(name).filter(
            |i: Instance| i.state != InstanceState::Failed,
        ).len() >= cfg.max_instances,
{
    law_retiring_instances_do_not_count(s.list(name));
}

/// Keep-alive is for Vulkan models: an instance of one refers to the slots of
/// its devices while it is registered, one of a CUDA model to none.
pub proof fn law_keepalive_is_for_vulkan(s: State, name: Seq<char>, i: Instance, now: u64)
    ensures
        s.registered(name, DeviceKind::Cuda, i, now).keepalive == s.keepalive,
        s.keepalive matches Some(k) ==> s.registered(name, DeviceKind::Vulkan, i, now).keepalive
            == Some(acquired_all(k, device_slots(s.settings, i.gpu_indices@))),
        i.gpu_indices@.len() == 1 && slot_in(s.settings, DeviceKind::Vulkan, i.gpu_indices@[0])
            is Some ==> (s.keepalive matches Some(k) ==> s.registered(
            name,
            DeviceKind::Vulkan,
            i,
            now,
        ).keepalive == Some(
            acquired(k, slot_in(s.settings, DeviceKind::Vulkan, i.gpu_indices@[0])->0),
        )),
        kind_of(s.settings, name) == DeviceKind::Cuda ==> s.let_go(name, i.gpu_indices@).keepalive
            == s.keepalive && s.let_go_actions(name, i.gpu_indices@) == Seq::<ActionView>::empty(),
        kind_of(s.settings, name) != DeviceKind::Cuda ==> (s.keepalive matches Some(k) ==> s.let_go(
            name,
            i.gpu_indices@,
        ).keepalive == Some(released_all(k, device_slots(s.settings, i.gpu_indices@)))),
{
    if i.gpu_indices@.len() == 1 {
        let d = i.gpu_indices@;
        assert(d.drop_last() =~= Seq::<usize>::empty());
        assert(device_slots(s.settings, d.drop_last()) =~= Seq::<Seq<char>>::empty());
        if let Some(slot) = slot_in(s.settings, DeviceKind::Vulkan, d[0]) {
            let one = device_slots(s.settings, d);
            assert(one =~= seq![slot]);
            assert(one.drop_last() =~= Seq::<Seq<char>>::empty());
            if let Some(k) = s.keepalive {
                assert(acquired_all(k, one.drop_last()) == k);
            }
        }
    }
}

// ── Load and activity ───────────────────────────────────────────────────────

/// The load of a model is what its instances have in flight and what is parked
/// for it.
pub proof fn law_load_of_a_model(s: State, name: Seq<char>, list: Seq<Instance>, i: Instance)
    ensures
        s.active(name) == in_flight_sum(s.list(name)) + s.queue(name).len(),
        in_flight_sum(Seq::empty()) == 0,
        in_flight_sum(list.push(i)) == in_flight_sum(list) + i.in_flight,
        s.instances.dom().contains(name) ==> s.list(name) == s.instances[name],
        !s.instances.dom().contains(name) ==> s.list(name).len() == 0,
        s.queues.dom().contains(name) ==> s.queue(name) == s.queues[name],
        !s.queues.dom().contains(name) ==> s.queue(name).len() == 0,
{
    assert(list.push(i).drop_last() =~= list);
}

/// A tick brings the metrics of one model up to date with its load and its
/// completions, and hands the step on to its averages. A model without metrics
/// begins with none completed. Nothing else changes.
pub proof fn law_ticking_a_model(
    s: State,
    name: Seq<char>,
    completions: u64,
    now: u64,
    other: Seq<char>,
)
    requires
        other != name,
        s.active(name) <= u128::MAX,
    ensures
        ({
            let t = s.ticked(name, completions, now);
            let m = t.metrics[name];
            &&& t == (State { metrics: t.metrics, ticks: t.ticks, ..s })
            &&& t.metrics.dom() == s.metrics.dom().insert(name)
            &&& s.metrics.dom().contains(other) ==> t.metrics[other] == s.metrics[other]
            &&& m.last_update == now
            &&& m.last_active == s.active(name)
            &&& s.metrics.dom().contains(name) && s.metrics[name].completions_total + completions
                <= u64::MAX ==> m.completions_total == s.metrics[name].completions_total
                + completions
            &&& !s.metrics.dom().contains(name) ==> m.completions_total == completions
                && m.last_activity == now && t.ticks == s.ticks
            &&& s.active(name) > 0 || completions > 0 ==> m.last_activity == now
            &&& s.metrics.dom().contains(name) && now > s.metrics[name].last_update ==> t.ticks
                == s.ticks.push(
                (
                    name,
                    Tick {
                        elapsed: (now - s.metrics[name].last_update) as u64,
                        active: s.metrics[name].last_active,
                        completions,
                    },
                ),
            )
            &&& s.metrics.dom().contains(name) && now <= s.metrics[name].last_update ==> t.ticks
                == s.ticks
        }),
{
}

/// All models are ticked one after the other, without completions. The intent to
/// spawn is activity too, but no tick.
pub proof fn law_activity(s: State, names: Seq<Seq<char>>, name: Seq<char>, now: u64)
    ensures
        s.ticked_all(Seq::empty(), now) == s,
        s.ticked_all(names.push(name), now) == s.ticked_all(names, now).ticked(name, 0, now),
        s.touched(name, now).metrics[name].last_activity == now,
        s.metrics.dom().contains(name) ==> s.touched(name, now).metrics[name] == (ModelMetrics {
            last_activity: now,
            ..s.metrics[name]
        }),
        !s.metrics.dom().contains(name) ==> s.touched(name, now).metrics[name].completions_total
            == 0,
        s.touched(name, now).ticks == s.ticks,
        s.touched(name, now).instances == s.instances,
        s.touched(name, now).queues == s.queues,
{
    assert(names.push(name).drop_last() =~= names);
}

/// The newest completions are kept, five of them, the newest first.
pub proof fn law_five_completions_are_kept<T>(list: Seq<T>, record: T)
    ensures
        list.len() < 5 ==> newest_first(list, record) == seq![record] + list,
        list.len() >= 5 ==> newest_first(list, record) == seq![record] + list.take(4),
{
    if list.len() >= 5 {
        assert((seq![record] + list).take(5) =~= seq![record] + list.take(4));
    }
}

/// A request finds a free slot at once if a ready instance has one: it takes it
/// on one that is the least busy, and only that instance changes. Without a
/// free slot nothing changes.
pub proof fn law_fast_path(s: State, name: Seq<char>, max_concurrent: usize, now: u64)
    ensures
        ({
            let list = s.list(name);
            let free = exists|j: int|
                0 <= j < list.len() && (#[trigger] list[j]).state == InstanceState::Ready
                    && list[j].in_flight < max_concurrent;
            let (t, slot) = s.fast_path(name, max_concurrent, now);
            &&& slot is Some <==> free
            &&& slot is None ==> t == s
            &&& slot matches Some(key) ==> exists|i: int|
                {
                    &&& 0 <= i < list.len()
                    &&& (#[trigger] list[i]).key == key
                    &&& list[i].state == InstanceState::Ready
                    &&& list[i].in_flight < max_concurrent
                    &&& forall|j: int|
                        0 <= j < list.len() && (#[trigger] list[j]).state == InstanceState::Ready
                            ==> list[i].in_flight <= list[j].in_flight
                    &&& t.list(name) == list.update(
                        i,
                        Instance {
                            in_flight: (list[i].in_flight + 1) as usize,
                            last_active: now,
                            ..list[i]
                        },
                    )
                }
            &&& t.queues == s.queues
        }),
{
    law_the_least_busy_instance_serves(s, name, max_concurrent);
    if let Some(i) = s.ready(name, max_concurrent) {
        let list = s.list(name);
        let t = s.fast_path(name, max_concurrent, now).0;
        assert(t.list(name) == list.update(i, list[i].acquired(now)));
        assert(list[i].key == s.fast_path(name, max_concurrent, now).1->0);
    }
}

/// A request that queues gets in line behind all that wait, and whoever is first
/// in line is served if an instance has a slot.
pub proof fn law_queueing(s: State, name: Seq<char>, max_depth: usize, now: u64)
    ensures
        ({
            let (t, r) = s.enqueued(name, max_depth, now);
            let (p, q) = s.parked(name, max_depth);
            &&& r is Ok <==> q is Ok
            &&& r is Err ==> r->Err_0 == q->Err_0 && t == p
            &&& r matches Ok(given) ==> given.0 == s.next_queue_id && (t, given.1) == p.woken(
                name,
                now,
            )
            &&& r matches Ok(given) ==> (given.1 matches Wake::Deliver { waiter, key } ==> waiter
                == if s.queue(name).len() > 0 {
                s.queue(name)[0]
            } else {
                s.next_queue_id
            })
        }),
        s.next_queue_id < u64::MAX ==> next_id(s.next_queue_id) == s.next_queue_id + 1,
        next_id(u64::MAX) == 0,
{
    let p = s.parked(name, max_depth).0;
    if s.parked(name, max_depth).1 is Ok {
        assert(p.queue(name) == s.queue(name).push(s.next_queue_id));
    }
}

/// Requests that wait for a model fail together once its last instance is gone,
/// and not before.
pub proof fn law_orphaned_requests(s: State, name: Seq<char>, other: Seq<char>)
    requires
        other != name,
    ensures
        s.list(name).len() == 0 ==> s.orphans(name) == s.queue(name) && s.drained(name).queue(
            name,
        ).len() == 0,
        s.list(name).len() > 0 ==> s.orphans(name).len() == 0 && s.drained(name) == s,
        s.drained(name).queue(other) == s.queue(other),
        s.drained(name).instances == s.instances,
{
}

/// An instance is registered as loading, with nothing in flight, under its
/// plan's port and devices. Its id tells its model, its devices and a number of
/// its own.
pub proof fn law_new_instances(
    i: Instance,
    s: State,
    name: Seq<char>,
    cfg: ModelConfig,
    plan: SpawnPlan,
    now: u64,
)
    requires
        newly_registered(i, s, name, cfg, plan, now),
    ensures
        i.key == plan.key,
        i.model_name@ == name,
        i.port == plan.port,
        i.gpu_indices@ == plan.gpu_indices@,
        i.state == InstanceState::Loading,
        i.in_flight == 0,
        i.last_active == now,
        plan.gpu_indices@.len() == 0 ==> i.id@ == name + "@"@ + "cpu"@ + "#"@ + decimal(
            s.instance_seq as nat,
        ),
        plan.gpu_indices@.len() > 0 ==> i.id@ == name + "@"@ + join(
            plan.gpu_indices@.map_values(|d: usize| decimal(d as nat)),
            ","@,
        ) + "#"@ + decimal(s.instance_seq as nat),
        s.is_current(name, i) <==> s.settings.models@.dom().contains(name) && is_fingerprint(
            i.config_fingerprint->0@,
            s.settings.cmd_aliases@,
            s.settings.models@[name],
        ),
{
    assert(decimals(plan.gpu_indices@) =~= plan.gpu_indices@.map_values(
        |d: usize| decimal(d as nat),
    ));
}

/// A port that is given back is free, and the others stay as they are.
pub proof fn law_freed_ports(s: State, port: u16, other: u16)
    requires
        other != port,
    ensures
        !s.port_freed(port).ports.used.contains(port),
        s.port_freed(port).ports.used.contains(other) <==> s.ports.used.contains(other),
        s.port_freed(port).ports.cursor == s.ports.cursor,
        s.port_freed(port).instances == s.instances,
{
}

/// The slots of devices, in order; a device without a slot has none.
pub proof fn law_slots_of_devices(s: Settings, indices: Seq<usize>, idx: usize)
    ensures
        device_slots(s, Seq::empty()) == Seq::<Seq<char>>::empty(),
        slot_in(s, DeviceKind::Vulkan, idx) is None ==> device_slots(s, indices.push(idx))
            == device_slots(s, indices),
        slot_in(s, DeviceKind::Vulkan, idx) matches Some(slot) ==> device_slots(
            s,
            indices.push(idx),
        ) == device_slots(s, indices).push(slot),
{
    assert(indices.push(idx).drop_last() =~= indices);
}

/// A request that gives up leaves its own queue, and no other.
pub proof fn law_giving_up(s: State, name: Seq<char>, id: u64, other: Seq<char>)
    requires
        other != name,
    ensures
        s.unparked(name, id).queue(name) == s.queue(name).filter(|x: u64| x != id),
        s.unparked(name, id).queue(other) == s.queue(other),
        s.unparked(name, id).instances == s.instances,
{
    law_leaving_the_line(s.queue(name), id);
    reveal(Seq::filter);
}

} // verus!

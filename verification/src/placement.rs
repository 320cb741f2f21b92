//! GPU placement: which devices a new instance is put on.
//!
//! Accounting is by PCI slot, so that device indices of different namespaces
//! can never stand for each other.

use vstd::prelude::*;
use vstd::relations::{sorted_by, total_ordering};
use vstd::seq_lib::lemma_sorted_unique;
use crate::backend::DeviceKind;
use crate::config::ModelConfig;
use crate::gpu::GpuMetrics;
use crate::instance::Instance;
use crate::names::{
    distinct_keys, entries_map, has_key, key_at, lemma_entry, lemma_remove_entry, NameMap,
};
use crate::settings::{find_index, lemma_lookup_at, lemma_lookup_none, lookup, Settings, MB};
use crate::text::same_text;

verus! {

// ── Devices and slots ───────────────────────────────────────────────────────

/// The device namespace of a model; a model that is not configured counts as
/// a Vulkan model.
pub open spec fn kind_of(s: Settings, model: Seq<char>) -> DeviceKind {
    if s.models@.dom().contains(model) {
        s.models@[model].kind()
    } else {
        DeviceKind::Vulkan
    }
}

/// The device table of a namespace.
pub open spec fn slot_table(s: Settings, kind: DeviceKind) -> Seq<(usize, String)> {
    if kind == DeviceKind::Cuda {
        s.cuda_slots@
    } else {
        s.vulkan_slots@
    }
}

/// The configured sizes of a namespace.
pub open spec fn size_table(s: Settings, kind: DeviceKind) -> Seq<(usize, u128)> {
    if kind == DeviceKind::Cuda {
        s.cuda_vram_static@
    } else {
        s.vram_limits@
    }
}

/// The PCI slot of a device in a namespace.
pub open spec fn slot_in(s: Settings, kind: DeviceKind, idx: usize) -> Option<Seq<char>> {
    match lookup(slot_table(s, kind), idx) {
        Some(slot) => Some(slot@),
        None => None,
    }
}

/// The PCI slot of a device that a model's instance occupies.
pub open spec fn slot_for(s: Settings, model: Seq<char>, idx: usize) -> Option<Seq<char>> {
    slot_in(s, kind_of(s, model), idx)
}

/// The VRAM that a model declares per occupied device, in bytes.
pub open spec fn model_bytes(s: Settings, model: Seq<char>) -> nat {
    if s.models@.dom().contains(model) {
        (s.models@[model].vram * MB) as nat
    } else {
        0
    }
}

// ── What is in use ──────────────────────────────────────────────────────────

/// How many of the devices are in the slot.
pub open spec fn uses(s: Settings, model: Seq<char>, devices: Seq<usize>, slot: Seq<char>) -> nat
    decreases devices.len(),
{
    if devices.len() == 0 {
        0
    } else {
        uses(s, model, devices.drop_last(), slot) + if slot_for(s, model, devices.last()) == Some(
            slot,
        ) {
            1nat
        } else {
            0
        }
    }
}

/// How often instances of one model occupy the slot.
pub open spec fn list_uses(
    s: Settings,
    model: Seq<char>,
    list: Seq<Instance>,
    slot: Seq<char>,
) -> nat
    decreases list.len(),
{
    if list.len() == 0 {
        0
    } else {
        list_uses(s, model, list.drop_last(), slot) + uses(
            s,
            model,
            list.last().gpu_indices@,
            slot,
        )
    }
}

/// How often any instance occupies the slot.
pub open spec fn slot_uses(s: Settings, entries: Seq<(String, Vec<Instance>)>, slot: Seq<char>) -> nat
    decreases entries.len(),
{
    if entries.len() == 0 {
        0
    } else {
        slot_uses(s, entries.drop_last(), slot) + list_uses(
            s,
            entries.last().0@,
            entries.last().1@,
            slot,
        )
    }
}

/// The VRAM reserved in the slot: each instance reserves its model's declared
/// VRAM on every device it occupies, draining instances included.
pub open spec fn slot_bytes(s: Settings, entries: Seq<(String, Vec<Instance>)>, slot: Seq<char>) -> nat
    decreases entries.len(),
{
    if entries.len() == 0 {
        0
    } else {
        slot_bytes(s, entries.drop_last(), slot) + list_uses(
            s,
            entries.last().0@,
            entries.last().1@,
            slot,
        ) * model_bytes(s, entries.last().0@)
    }
}

/// A number, or the largest that 64 bits hold.
pub open spec fn capped(n: nat) -> u64 {
    if n <= u64::MAX {
        n as u64
    } else {
        u64::MAX
    }
}

/// A number, or the largest that 128 bits hold.
pub open spec fn capped_wide(n: nat) -> u128 {
    if n <= u128::MAX {
        n as u128
    } else {
        u128::MAX
    }
}

struct Tally {
    count: u64,
    bytes: u128,
}

spec fn tally_is(t: Tally, n: nat, b: nat) -> bool {
    t.count == capped(n) && t.bytes == capped_wide(b)
}

fn add_use(t: &mut Tally, bytes: u128, Ghost(n): Ghost<nat>, Ghost(b): Ghost<nat>)
    requires
        tally_is(*old(t), n, b),
    ensures
        tally_is(*final(t), n + 1, b + bytes as nat),
{
    if t.count < u64::MAX {
        t.count += 1;
    }
    if t.bytes <= u128::MAX - bytes {
        t.bytes += bytes;
    } else {
        t.bytes = u128::MAX;
    }
}

/// Finds the device namespace of a model.
pub fn kind_of_model(s: &Settings, model: &str) -> (r: DeviceKind)
    requires
        s.models.wf(),
    ensures
        r == kind_of(*s, model@),
{
    match s.models.get(model) {
        Some(m) => m.device_kind(),
        None => DeviceKind::Vulkan,
    }
}

/// Finds the PCI slot of a device in a namespace.
pub fn find_slot(s: &Settings, kind: DeviceKind, idx: usize) -> (r: Option<&String>)
    ensures
        r is Some <==> slot_in(*s, kind, idx) is Some,
        r matches Some(t) ==> slot_in(*s, kind, idx) == Some(t@),
{
    if kind == DeviceKind::Cuda {
        find_index(&s.cuda_slots, idx)
    } else {
        find_index(&s.vulkan_slots, idx)
    }
}

fn in_slot(s: &Settings, kind: DeviceKind, idx: usize, slot: &str) -> (r: bool)
    ensures
        r == (slot_in(*s, kind, idx) == Some(slot@)),
{
    match find_slot(s, kind, idx) {
        Some(t) => same_text(t.as_str(), slot),
        None => false,
    }
}

fn bytes_of_model(s: &Settings, model: &str) -> (r: u128)
    requires
        s.models.wf(),
    ensures
        r == model_bytes(*s, model@),
{
    match s.models.get(model) {
        Some(m) => {
            assert(m.vram * MB <= u64::MAX * 1_048_576);
            m.vram as u128 * MB
        },
        None => 0,
    }
}

fn tally_devices(
    s: &Settings,
    model: &str,
    devices: &Vec<usize>,
    slot: &str,
    bytes: u128,
    t: &mut Tally,
    Ghost(n): Ghost<nat>,
    Ghost(b): Ghost<nat>,
)
    requires
        s.models.wf(),
        bytes == model_bytes(*s, model@),
        tally_is(*old(t), n, b),
    ensures
        tally_is(
            *final(t),
            n + uses(*s, model@, devices@, slot@),
            b + uses(*s, model@, devices@, slot@) * model_bytes(*s, model@),
        ),
{
    let kind = kind_of_model(s, model);
    let ghost per = model_bytes(*s, model@);
    assert(0 * per == 0);
    for i in 0..devices.len()
        invariant
            s.models.wf(),
            per == model_bytes(*s, model@),
            bytes == per,
            kind == kind_of(*s, model@),
            tally_is(
                *t,
                n + uses(*s, model@, devices@.take(i as int), slot@),
                b + uses(*s, model@, devices@.take(i as int), slot@) * per,
            ),
    {
        let ghost u = uses(*s, model@, devices@.take(i as int), slot@);
        assert(devices@.take(i + 1).drop_last() =~= devices@.take(i as int));
        assert(devices@.take(i + 1).last() == devices@[i as int]);
        if in_slot(s, kind, devices[i], slot) {
            add_use(t, bytes, Ghost(n + u), Ghost(b + u * per));
            assert((u + 1) * per == u * per + per) by (nonlinear_arith);
        }
    }
    assert(devices@.take(devices@.len() as int) =~= devices@);
}

fn tally_list(
    s: &Settings,
    model: &str,
    list: &Vec<Instance>,
    slot: &str,
    t: &mut Tally,
    Ghost(n): Ghost<nat>,
    Ghost(b): Ghost<nat>,
)
    requires
        s.models.wf(),
        tally_is(*old(t), n, b),
    ensures
        tally_is(
            *final(t),
            n + list_uses(*s, model@, list@, slot@),
            b + list_uses(*s, model@, list@, slot@) * model_bytes(*s, model@),
        ),
{
    let bytes = bytes_of_model(s, model);
    let ghost per = model_bytes(*s, model@);
    assert(0 * per == 0);
    for i in 0..list.len()
        invariant
            s.models.wf(),
            per == model_bytes(*s, model@),
            bytes == per,
            tally_is(
                *t,
                n + list_uses(*s, model@, list@.take(i as int), slot@),
                b + list_uses(*s, model@, list@.take(i as int), slot@) * per,
            ),
    {
        let ghost u = list_uses(*s, model@, list@.take(i as int), slot@);
        let ghost v = uses(*s, model@, list@[i as int].gpu_indices@, slot@);
        assert(list@.take(i + 1).drop_last() =~= list@.take(i as int));
        assert(list@.take(i + 1).last() == list@[i as int]);
        tally_devices(
            s,
            model,
            &list[i].gpu_indices,
            slot,
            bytes,
            t,
            Ghost(n + u),
            Ghost(b + u * per),
        );
        assert((u + v) * per == u * per + v * per) by (nonlinear_arith);
    }
    assert(list@.take(list@.len() as int) =~= list@);
}

fn tally_slot(s: &Settings, registry: &NameMap<Vec<Instance>>, slot: &str) -> (r: Tally)
    requires
        s.models.wf(),
    ensures
        tally_is(
            r,
            slot_uses(*s, registry.entries@, slot@),
            slot_bytes(*s, registry.entries@, slot@),
        ),
{
    let mut t = Tally { count: 0, bytes: 0 };
    let ghost all = registry.entries@;
    for i in 0..registry.entries.len()
        invariant
            s.models.wf(),
            all == registry.entries@,
            tally_is(
                t,
                slot_uses(*s, all.take(i as int), slot@),
                slot_bytes(*s, all.take(i as int), slot@),
            ),
    {
        let e = &registry.entries[i];
        assert(all.take(i + 1).drop_last() =~= all.take(i as int));
        assert(all.take(i + 1).last() == all[i as int]);
        tally_list(
            s,
            e.0.as_str(),
            &e.1,
            slot,
            &mut t,
            Ghost(slot_uses(*s, all.take(i as int), slot@)),
            Ghost(slot_bytes(*s, all.take(i as int), slot@)),
        );
    }
    assert(all.take(all.len() as int) =~= all);
    t
}

// ── Candidates ──────────────────────────────────────────────────────────────

/// The metrics of the card in a slot.
pub open spec fn metrics_at(gpus: Seq<GpuMetrics>, slot: Seq<char>) -> Option<u64>
    decreases gpus.len(),
{
    if gpus.len() == 0 {
        None
    } else if gpus[0].pci_slot@ == slot {
        Some(gpus[0].vram_total_bytes)
    } else {
        metrics_at(gpus.drop_first(), slot)
    }
}

/// The usable VRAM of a device in bytes: the reported total, capped by the
/// configured size; without metrics only a CUDA device has its configured size.
pub open spec fn capacity(
    s: Settings,
    kind: DeviceKind,
    gpus: Seq<GpuMetrics>,
    idx: usize,
    slot: Seq<char>,
) -> Option<u128> {
    match (metrics_at(gpus, slot), lookup(size_table(s, kind), idx)) {
        (Some(total), Some(size)) => Some(
            if size <= total {
                size
            } else {
                total as u128
            },
        ),
        (Some(total), None) => Some(total as u128),
        (None, Some(size)) => if kind == DeviceKind::Cuda {
            Some(size)
        } else {
            None
        },
        (None, None) => None,
    }
}

/// What is left of a capacity.
pub open spec fn free_bytes(cap: u128, used: nat) -> u128 {
    if used <= cap {
        (cap - used) as u128
    } else {
        0
    }
}

/// The instances of a model; none where it is not in the registry.
pub open spec fn registered_list(registry: Map<Seq<char>, Vec<Instance>>, name: Seq<char>) -> Seq<
    Instance,
> {
    if registry.dom().contains(name) {
        registry[name]@
    } else {
        Seq::empty()
    }
}

/// A device that could take the instance.
#[derive(Clone, Copy)]
pub struct Candidate {
    pub idx: usize,
    /// Free VRAM in bytes.
    pub free: u128,
    /// How many instances occupy its slot.
    pub load: u64,
}

/// The candidate that a device of the pool makes, if it makes one: it has a
/// slot, no instance of the same model is there, its capacity is known and
/// enough of it is free.
pub open spec fn candidate(
    s: Settings,
    registry: NameMap<Vec<Instance>>,
    gpus: Seq<GpuMetrics>,
    cfg: ModelConfig,
    idx: usize,
) -> Option<Candidate> {
    match slot_in(s, cfg.kind(), idx) {
        Some(slot) => {
            let own = registered_list(registry@, cfg.name@);
            match capacity(s, cfg.kind(), gpus, idx, slot) {
                Some(cap) => {
                    let free = free_bytes(cap, slot_bytes(s, registry.entries@, slot));
                    if list_uses(s, cfg.name@, own, slot) == 0 && cfg.vram * MB <= free {
                        Some(
                            Candidate {
                                idx,
                                free,
                                load: capped(slot_uses(s, registry.entries@, slot)),
                            },
                        )
                    } else {
                        None
                    }
                },
                None => None,
            }
        },
        None => None,
    }
}

/// The candidates among the first devices of the pool, in pool order. A device
/// that the pool names twice is one device.
pub open spec fn candidates(
    s: Settings,
    registry: NameMap<Vec<Instance>>,
    gpus: Seq<GpuMetrics>,
    cfg: ModelConfig,
    pool: Seq<usize>,
) -> Seq<Candidate>
    decreases pool.len(),
{
    if pool.len() == 0 {
        Seq::empty()
    } else {
        let front = candidates(s, registry, gpus, cfg, pool.drop_last());
        match candidate(s, registry, gpus, cfg, pool.last()) {
            Some(c) => if pool.drop_last().contains(pool.last()) {
                front
            } else {
                front.push(c)
            },
            None => front,
        }
    }
}

/// The order of preference: the least loaded device first, then the one with
/// the most free VRAM, then the lowest index.
pub open spec fn prefers(a: Candidate, b: Candidate) -> bool {
    ||| a.load < b.load
    ||| a.load == b.load && a.free > b.free
    ||| a.load == b.load && a.free == b.free && a.idx <= b.idx
}

/// `r` holds the candidates in order of preference.
pub open spec fn is_ranking(r: Seq<Candidate>, c: Seq<Candidate>) -> bool {
    r.to_multiset() == c.to_multiset() && forall|i: int, j: int|
        0 <= i < j < r.len() ==> prefers(r[i], r[j])
}

/// The indices of candidates.
pub open spec fn indices(c: Seq<Candidate>) -> Seq<usize> {
    c.map_values(|x: Candidate| x.idx)
}

/// `chosen` is the placement of a new instance: the preferred candidates, as
/// many as the model spans, or none where the pool cannot satisfy it.
pub open spec fn is_placement(
    s: Settings,
    registry: NameMap<Vec<Instance>>,
    gpus: Seq<GpuMetrics>,
    cfg: ModelConfig,
    chosen: Seq<usize>,
) -> bool {
    let found = candidates(s, registry, gpus, cfg, cfg.pool());
    if found.len() < cfg.gpus {
        chosen.len() == 0
    } else {
        exists|r: Seq<Candidate>|
            #[trigger] is_ranking(r, found) && chosen == indices(r.take(cfg.gpus as int))
    }
}

fn find_metrics(gpus: &Vec<GpuMetrics>, slot: &str) -> (r: Option<u64>)
    ensures
        r == metrics_at(gpus@, slot@),
{
    assert(gpus@.skip(0) =~= gpus@);
    for i in 0..gpus.len()
        invariant
            metrics_at(gpus@, slot@) == metrics_at(gpus@.skip(i as int), slot@),
    {
        assert(gpus@.skip(i as int).drop_first() =~= gpus@.skip(i + 1));
        assert(gpus@.skip(i as int)[0] == gpus@[i as int]);
        if same_text(gpus[i].pci_slot.as_str(), slot) {
            return Some(gpus[i].vram_total_bytes);
        }
    }
    assert(gpus@.skip(gpus@.len() as int).len() == 0);
    None
}

fn find_capacity(
    s: &Settings,
    kind: DeviceKind,
    gpus: &Vec<GpuMetrics>,
    idx: usize,
    slot: &str,
) -> (r: Option<u128>)
    ensures
        r == capacity(*s, kind, gpus@, idx, slot@),
{
    let size: Option<&u128> = if kind == DeviceKind::Cuda {
        find_index(&s.cuda_vram_static, idx)
    } else {
        find_index(&s.vram_limits, idx)
    };
    match find_metrics(gpus, slot) {
        Some(total) => match size {
            Some(size) => {
                if *size <= total as u128 {
                    Some(*size)
                } else {
                    Some(total as u128)
                }
            },
            None => Some(total as u128),
        },
        None => match size {
            Some(size) => {
                if kind == DeviceKind::Cuda {
                    Some(*size)
                } else {
                    None
                }
            },
            None => None,
        },
    }
}

fn occupied(
    s: &Settings,
    registry: &NameMap<Vec<Instance>>,
    model: &str,
    slot: &str,
) -> (r: bool)
    requires
        s.models.wf(),
        registry.wf(),
    ensures
        r == (registry@.dom().contains(model@) && list_uses(
            *s,
            model@,
            registry@[model@]@,
            slot@,
        ) > 0),
{
    match registry.get(model) {
        Some(list) => {
            let mut t = Tally { count: 0, bytes: 0 };
            tally_list(s, model, list, slot, &mut t, Ghost(0), Ghost(0));
            t.count > 0
        },
        None => false,
    }
}

fn make_candidate(
    s: &Settings,
    registry: &NameMap<Vec<Instance>>,
    gpus: &Vec<GpuMetrics>,
    cfg: &ModelConfig,
    idx: usize,
) -> (r: Option<Candidate>)
    requires
        s.models.wf(),
        registry.wf(),
    ensures
        r == candidate(*s, *registry, gpus@, *cfg, idx),
{
    let kind = cfg.device_kind();
    let slot = match find_slot(s, kind, idx) {
        Some(t) => t.as_str(),
        None => {
            return None;
        },
    };
    assert(list_uses(*s, cfg.name@, Seq::<Instance>::empty(), slot@) == 0);
    if occupied(s, registry, cfg.name.as_str(), slot) {
        return None;
    }
    let cap: u128 = match find_capacity(s, kind, gpus, idx, slot) {
        Some(c) => c,
        None => {
            return None;
        },
    };
    let t = tally_slot(s, registry, slot);
    let free: u128 = if t.bytes <= cap {
        cap - t.bytes
    } else {
        0
    };
    assert(cfg.vram * MB <= u64::MAX * 1_048_576);
    let need: u128 = cfg.vram as u128 * MB;
    if free < need {
        return None;
    }
    Some(Candidate { idx, free, load: t.count })
}

fn prefer(a: &Candidate, b: &Candidate) -> (r: bool)
    ensures
        r == prefers(*a, *b),
{
    a.load < b.load || (a.load == b.load && a.free > b.free) || (a.load == b.load && a.free
        == b.free && a.idx <= b.idx)
}

/// Sorts candidates by preference.
fn rank(c: &Vec<Candidate>) -> (r: Vec<Candidate>)
    ensures
        is_ranking(r@, c@),
{
    let mut out: Vec<Candidate> = Vec::new();
    assert(out@ =~= c@.take(0));
    for i in 0..c.len()
        invariant
            is_ranking(out@, c@.take(i as int)),
    {
        let x = c[i];
        let mut p: usize = out.len();
        while p > 0 && !prefer(&out[p - 1], &x)
            invariant
                p <= out@.len(),
                forall|j: int| p <= j < out@.len() ==> !prefers(out@[j], x),
            decreases p,
        {
            p -= 1;
        }
        let ghost before = out@;
        out.insert(p, x);
        proof {
            assert forall|a: int, b: int| 0 <= a < b < out@.len() implies prefers(
                out@[a],
                out@[b],
            ) by {
                if b < p {
                    assert(prefers(before[a], before[b]));
                } else if b == p {
                    if a < p - 1 {
                        assert(prefers(before[a], before[p - 1]));
                    }
                } else if a == p {
                    assert(!prefers(before[b - 1], x));
                } else if a < p {
                    assert(prefers(before[a], before[b - 1]));
                } else {
                    assert(prefers(before[a - 1], before[b - 1]));
                }
            }
            broadcast use vstd::seq_lib::group_to_multiset_ensures;
            before.to_multiset_ensures();
            assert(out@ =~= before.insert(p as int, x));
            assert(c@.take(i + 1) =~= c@.take(i as int).push(x));
        }
    }
    assert(c@.take(c@.len() as int) =~= c@);
    out
}

fn named_before(pool: &Vec<usize>, n: usize) -> (r: bool)
    requires
        n < pool@.len(),
    ensures
        r == pool@.take(n as int).contains(pool@[n as int]),
{
    for i in 0..n
        invariant
            n < pool@.len(),
            forall|j: int| 0 <= j < i ==> pool@[j] != pool@[n as int],
    {
        if pool[i] == pool[n] {
            assert(pool@.take(n as int)[i as int] == pool@[n as int]);
            return true;
        }
    }
    false
}

/// Picks the devices for a new instance from the model's pool. The result is
/// empty where the pool cannot satisfy the request; the caller then decides
/// between running without a device and refusing to spawn.
pub fn select_gpus_for_model(
    s: &Settings,
    registry: &NameMap<Vec<Instance>>,
    gpus: &Vec<GpuMetrics>,
    cfg: &ModelConfig,
) -> (r: Vec<usize>)
    requires
        s.models.wf(),
        registry.wf(),
    ensures
        is_placement(*s, *registry, gpus@, *cfg, r@),
{
    let is_cuda = cfg.device_kind() == DeviceKind::Cuda;
    let pool: &Vec<usize> = if is_cuda {
        &cfg.cuda_devices
    } else {
        &cfg.vulkan_devices
    };
    let mut found: Vec<Candidate> = Vec::new();
    for i in 0..pool.len()
        invariant
            s.models.wf(),
            registry.wf(),
            found@ == candidates(*s, *registry, gpus@, *cfg, pool@.take(i as int)),
    {
        assert(pool@.take(i + 1).drop_last() =~= pool@.take(i as int));
        assert(pool@.take(i + 1).last() == pool@[i as int]);
        if !named_before(pool, i) {
            if let Some(c) = make_candidate(s, registry, gpus, cfg, pool[i]) {
                found.push(c);
            }
        }
    }
    assert(pool@.take(pool@.len() as int) =~= cfg.pool());
    let mut chosen: Vec<usize> = Vec::new();
    if found.len() < cfg.gpus {
        return chosen;
    }
    let ranked = rank(&found);
    proof {
        broadcast use vstd::seq_lib::group_to_multiset_ensures;
        assert(ranked@.len() == ranked@.to_multiset().len());
        assert(found@.len() == found@.to_multiset().len());
    }
    for i in 0..cfg.gpus
        invariant
            cfg.gpus <= ranked@.len(),
            chosen@ == indices(ranked@.take(i as int)),
    {
        chosen.push(ranked[i].idx);
        assert(indices(ranked@.take(i + 1)) =~= indices(ranked@.take(i as int)).push(
            ranked@[i as int].idx,
        ));
    }
    chosen
}

// ── Laws ────────────────────────────────────────────────────────────────────

/// The placement is determined by the state: two placements are equal.
pub proof fn law_placement_is_unique(
    s: Settings,
    registry: NameMap<Vec<Instance>>,
    gpus: Seq<GpuMetrics>,
    cfg: ModelConfig,
    a: Seq<usize>,
    b: Seq<usize>,
)
    requires
        is_placement(s, registry, gpus, cfg, a),
        is_placement(s, registry, gpus, cfg, b),
    ensures
        a == b,
{
    let found = candidates(s, registry, gpus, cfg, cfg.pool());
    if found.len() < cfg.gpus {
        assert(a =~= b);
    } else {
        let n = cfg.gpus as int;
        let ra = choose|r: Seq<Candidate>|
            #[trigger] is_ranking(r, found) && a == indices(r.take(n));
        let rb = choose|r: Seq<Candidate>|
            #[trigger] is_ranking(r, found) && b == indices(r.take(n));
        let leq = |x: Candidate, y: Candidate| prefers(x, y);
        assert(sorted_by(ra, leq));
        assert(sorted_by(rb, leq));
        assert(total_ordering(leq));
        lemma_sorted_unique(ra, rb, leq);
    }
}

/// Every candidate comes from a device of the pool.
proof fn lemma_candidates_from_pool(
    s: Settings,
    registry: NameMap<Vec<Instance>>,
    gpus: Seq<GpuMetrics>,
    cfg: ModelConfig,
    pool: Seq<usize>,
)
    ensures
        forall|i: int|
            0 <= i < candidates(s, registry, gpus, cfg, pool).len() ==> {
                let c = #[trigger] candidates(s, registry, gpus, cfg, pool)[i];
                pool.contains(c.idx) && candidate(s, registry, gpus, cfg, c.idx) == Some(c)
            },
        forall|i: int, j: int|
            0 <= i < j < candidates(s, registry, gpus, cfg, pool).len()
                ==> #[trigger] candidates(s, registry, gpus, cfg, pool)[i].idx
                != #[trigger] candidates(s, registry, gpus, cfg, pool)[j].idx,
    decreases pool.len(),
{
    if pool.len() > 0 {
        let rest = pool.drop_last();
        lemma_candidates_from_pool(s, registry, gpus, cfg, rest);
        let front = candidates(s, registry, gpus, cfg, rest);
        let all = candidates(s, registry, gpus, cfg, pool);
        assert forall|i: int| 0 <= i < all.len() implies {
            let c = #[trigger] all[i];
            pool.contains(c.idx) && candidate(s, registry, gpus, cfg, c.idx) == Some(c)
        } by {
            if i < front.len() {
                assert(all[i] == front[i]);
                let k = choose|k: int| 0 <= k < rest.len() && rest[k] == front[i].idx;
                assert(pool[k] == front[i].idx);
            } else {
                assert(pool[pool.len() - 1] == all[i].idx);
            }
        }
        assert forall|i: int, j: int| 0 <= i < j < all.len() implies #[trigger] all[i].idx
            != #[trigger] all[j].idx by {
            assert(all[i] == front[i]);
            if j < front.len() {
                assert(all[j] == front[j]);
            } else {
                assert(rest.contains(front[i].idx));
            }
        }
    }
}

/// A ranking holds what was ranked.
proof fn lemma_ranking_members(r: Seq<Candidate>, found: Seq<Candidate>)
    requires
        is_ranking(r, found),
    ensures
        r.len() == found.len(),
        forall|i: int| 0 <= i < r.len() ==> found.contains(#[trigger] r[i]),
{
    broadcast use vstd::seq_lib::group_to_multiset_ensures;

    assert(r.len() == r.to_multiset().len());
    assert(found.len() == found.to_multiset().len());
    assert forall|i: int| 0 <= i < r.len() implies found.contains(#[trigger] r[i]) by {
        assert(r.contains(r[i]));
        assert(r.to_multiset().count(r[i]) > 0);
        assert(found.to_multiset().count(r[i]) > 0);
    }
}

/// A placement is empty or spans exactly as many devices as the model asks
/// for, all of them from its pool; none holds another instance of the model,
/// and on each the declared VRAM still fits beside what is reserved.
pub proof fn law_placement_fits(
    s: Settings,
    registry: NameMap<Vec<Instance>>,
    gpus: Seq<GpuMetrics>,
    cfg: ModelConfig,
    chosen: Seq<usize>,
)
    requires
        is_placement(s, registry, gpus, cfg, chosen),
    ensures
        chosen.len() == 0 || chosen.len() == cfg.gpus,
        forall|i: int|
            0 <= i < chosen.len() ==> {
                let idx = #[trigger] chosen[i];
                &&& cfg.pool().contains(idx)
                &&& slot_in(s, cfg.kind(), idx) matches Some(slot) && {
                    &&& registry@.dom().contains(cfg.name@) ==> list_uses(
                        s,
                        cfg.name@,
                        registry@[cfg.name@]@,
                        slot,
                    ) == 0
                    &&& capacity(s, cfg.kind(), gpus, idx, slot) matches Some(cap) && cfg.vram * MB
                        <= free_bytes(cap, slot_bytes(s, registry.entries@, slot))
                }
            },
{
    let found = candidates(s, registry, gpus, cfg, cfg.pool());
    if found.len() >= cfg.gpus {
        let n = cfg.gpus as int;
        let r = choose|r: Seq<Candidate>|
            #[trigger] is_ranking(r, found) && chosen == indices(r.take(n));
        lemma_ranking_members(r, found);
        lemma_candidates_from_pool(s, registry, gpus, cfg, cfg.pool());
        assert forall|i: int| 0 <= i < chosen.len() implies {
            let idx = #[trigger] chosen[i];
            &&& cfg.pool().contains(idx)
            &&& candidate(s, registry, gpus, cfg, idx) is Some
        } by {
            assert(chosen[i] == r[i].idx);
            assert(found.contains(r[i]));
            let k = choose|k: int| 0 <= k < found.len() && found[k] == r[i];
            assert(found[k].idx == chosen[i]);
        }
    }
}

/// Devices of a placement are distinct.
pub proof fn law_placement_is_distinct(
    s: Settings,
    registry: NameMap<Vec<Instance>>,
    gpus: Seq<GpuMetrics>,
    cfg: ModelConfig,
    chosen: Seq<usize>,
)
    requires
        is_placement(s, registry, gpus, cfg, chosen),
    ensures
        chosen.no_duplicates(),
{
    let found = candidates(s, registry, gpus, cfg, cfg.pool());
    if found.len() >= cfg.gpus {
        let n = cfg.gpus as int;
        let r = choose|r: Seq<Candidate>|
            #[trigger] is_ranking(r, found) && chosen == indices(r.take(n));
        lemma_ranking_members(r, found);
        lemma_candidates_from_pool(s, registry, gpus, cfg, cfg.pool());
        broadcast use vstd::seq_lib::group_to_multiset_ensures;
        assert(found.no_duplicates());
        found.lemma_multiset_has_no_duplicates();
        r.lemma_multiset_has_no_duplicates_conv();
        assert forall|i: int, j: int|
            0 <= i < chosen.len() && 0 <= j < chosen.len() && i != j implies chosen[i]
            != chosen[j] by {
            assert(r[i] != r[j]);
            assert(found.contains(r[i]) && found.contains(r[j]));
            let a = choose|k: int| 0 <= k < found.len() && found[k] == r[i];
            let b = choose|k: int| 0 <= k < found.len() && found[k] == r[j];
            if a < b {
                assert(found[a].idx != found[b].idx);
            } else {
                assert(found[b].idx != found[a].idx);
            }
        }
    }
}

/// Which slots devices are in, where the table names no slot twice.
pub open spec fn distinct_slots(s: Settings, kind: DeviceKind) -> bool {
    forall|a: usize, b: usize|
        #![trigger slot_in(s, kind, a), slot_in(s, kind, b)]
        a != b && slot_in(s, kind, a) is Some ==> slot_in(s, kind, a) != slot_in(s, kind, b)
}

proof fn lemma_uses_of_distinct(
    s: Settings,
    model: Seq<char>,
    devices: Seq<usize>,
    slot: Seq<char>,
)
    requires
        devices.no_duplicates(),
        distinct_slots(s, kind_of(s, model)),
    ensures
        uses(s, model, devices, slot) <= 1,
        uses(s, model, devices, slot) == 1 ==> exists|k: int|
            0 <= k < devices.len() && slot_for(s, model, #[trigger] devices[k]) == Some(slot),
    decreases devices.len(),
{
    if devices.len() > 0 {
        let rest = devices.drop_last();
        assert(rest.no_duplicates()) by {
            assert forall|a: int, b: int|
                0 <= a < rest.len() && 0 <= b < rest.len() && a != b implies rest[a]
                != rest[b] by {
                assert(devices[a] != devices[b]);
            }
        }
        lemma_uses_of_distinct(s, model, rest, slot);
        let last = devices.last();
        if slot_for(s, model, last) == Some(slot) {
            assert(devices[devices.len() - 1] == last);
            if uses(s, model, rest, slot) == 1 {
                let k = choose|k: int|
                    0 <= k < rest.len() && slot_for(s, model, #[trigger] rest[k]) == Some(slot);
                assert(devices[k] != devices[devices.len() - 1]);
                assert(slot_in(s, kind_of(s, model), rest[k]) == slot_in(
                    s,
                    kind_of(s, model),
                    last,
                ));
            }
        } else if uses(s, model, rest, slot) == 1 {
            let k = choose|k: int|
                0 <= k < rest.len() && slot_for(s, model, #[trigger] rest[k]) == Some(slot);
            assert(devices[k] == rest[k]);
        }
    }
}

/// What the instances of one model reserve in the slot, in bytes.
spec fn entry_bytes(s: Settings, entry: (String, Vec<Instance>), slot: Seq<char>) -> nat {
    list_uses(s, entry.0@, entry.1@, slot) * model_bytes(s, entry.0@)
}

proof fn lemma_bytes_without(
    s: Settings,
    entries: Seq<(String, Vec<Instance>)>,
    i: int,
    slot: Seq<char>,
)
    requires
        0 <= i < entries.len(),
    ensures
        slot_bytes(s, entries, slot) == slot_bytes(s, entries.remove(i), slot) + entry_bytes(
            s,
            entries[i],
            slot,
        ),
    decreases entries.len(),
{
    let rest = entries.remove(i);
    if i == entries.len() - 1 {
        assert(rest =~= entries.drop_last());
    } else {
        lemma_bytes_without(s, entries.drop_last(), i, slot);
        assert(rest.drop_last() =~= entries.drop_last().remove(i));
        assert(rest.last() == entries.last());
    }
}

/// Two registries hold the same instances of the same models.
spec fn same_lists(
    a: Map<Seq<char>, Vec<Instance>>,
    b: Map<Seq<char>, Vec<Instance>>,
) -> bool {
    &&& a.dom() == b.dom()
    &&& forall|name: Seq<char>| #[trigger] a.dom().contains(name) ==> a[name]@ == b[name]@
}

/// What is reserved does not depend on the order of the registry.
proof fn lemma_bytes_in_any_order(
    s: Settings,
    a: Seq<(String, Vec<Instance>)>,
    b: Seq<(String, Vec<Instance>)>,
    slot: Seq<char>,
)
    requires
        distinct_keys(a),
        distinct_keys(b),
        same_lists(entries_map(a), entries_map(b)),
    ensures
        slot_bytes(s, a, slot) == slot_bytes(s, b, slot),
    decreases a.len(),
{
    if a.len() > 0 {
        let name = a[0].0@;
        lemma_entry(a, 0);
        assert(has_key(b, name));
        let j = key_at(b, name);
        lemma_entry(b, j);
        lemma_remove_entry(a, 0);
        lemma_remove_entry(b, j);
        assert(entries_map(a.remove(0)).dom() =~= entries_map(b.remove(j)).dom());
        lemma_bytes_in_any_order(s, a.remove(0), b.remove(j), slot);
        lemma_bytes_without(s, a, 0, slot);
        lemma_bytes_without(s, b, j, slot);
    } else if b.len() > 0 {
        lemma_entry(b, 0);
        assert(entries_map(a).dom().contains(b[0].0@));
    }
}

/// `next` is the registry with one more instance of a model, which may be its
/// first.
pub open spec fn joined(
    registry: Map<Seq<char>, Vec<Instance>>,
    next: Map<Seq<char>, Vec<Instance>>,
    name: Seq<char>,
    inst: Instance,
) -> bool {
    &&& next.dom() == registry.dom().insert(name)
    &&& next[name]@ == registered_list(registry, name).push(inst)
    &&& forall|other: Seq<char>|
        #[trigger] registry.dom().contains(other) && other != name ==> next[other]@
            == registry[other]@
}

/// What an instance that joins reserves is added to what was reserved.
proof fn lemma_bytes_after_join(
    s: Settings,
    registry: NameMap<Vec<Instance>>,
    next: NameMap<Vec<Instance>>,
    name: Seq<char>,
    inst: Instance,
    slot: Seq<char>,
)
    requires
        registry.wf(),
        next.wf(),
        joined(registry@, next@, name, inst),
    ensures
        slot_bytes(s, next.entries@, slot) == slot_bytes(s, registry.entries@, slot) + uses(
            s,
            name,
            inst.gpu_indices@,
            slot,
        ) * model_bytes(s, name),
{
    let a = registry.entries@;
    let b = next.entries@;
    let own = registered_list(registry@, name);
    let m = model_bytes(s, name);
    let u = list_uses(s, name, own, slot);
    let v = uses(s, name, inst.gpu_indices@, slot);
    assert(own.push(inst).drop_last() =~= own);
    assert((u + v) * m == u * m + v * m) by (nonlinear_arith);
    assert(next@.dom().contains(name));
    let j = key_at(b, name);
    lemma_entry(b, j);
    lemma_remove_entry(b, j);
    lemma_bytes_without(s, b, j, slot);
    if registry@.dom().contains(name) {
        let i = key_at(a, name);
        lemma_entry(a, i);
        lemma_remove_entry(a, i);
        lemma_bytes_without(s, a, i, slot);
        assert(entries_map(a.remove(i)).dom() =~= entries_map(b.remove(j)).dom());
        lemma_bytes_in_any_order(s, a.remove(i), b.remove(j), slot);
    } else {
        assert(entries_map(a).dom() =~= entries_map(b.remove(j)).dom());
        lemma_bytes_in_any_order(s, a, b.remove(j), slot);
        assert(u * m == 0) by (nonlinear_arith)
            requires
                u == 0,
        ;
    }
}

/// GPUs are not oversubscribed: once an instance of the model stands on its
/// placement, be it the first or a later one, what is reserved in each of the
/// slots is within the capacity. An instance that declares no VRAM reserves
/// nothing, so where more than the capacity was reserved before, as after the
/// capacity was set lower, it stays as it was.
pub proof fn law_no_oversubscription(
    s: Settings,
    registry: NameMap<Vec<Instance>>,
    gpus: Seq<GpuMetrics>,
    cfg: ModelConfig,
    inst: Instance,
    next: NameMap<Vec<Instance>>,
    k: int,
)
    requires
        s.models@.dom().contains(cfg.name@),
        s.models@[cfg.name@] == cfg,
        is_placement(s, registry, gpus, cfg, inst.gpu_indices@),
        distinct_slots(s, cfg.kind()),
        registry.wf(),
        next.wf(),
        joined(registry@, next@, cfg.name@, inst),
        0 <= k < inst.gpu_indices@.len(),
    ensures
        slot_in(s, cfg.kind(), inst.gpu_indices@[k]) matches Some(slot) && capacity(
            s,
            cfg.kind(),
            gpus,
            inst.gpu_indices@[k],
            slot,
        ) matches Some(cap) && {
            let before = slot_bytes(s, registry.entries@, slot);
            let after = slot_bytes(s, next.entries@, slot);
            &&& cfg.vram > 0 ==> after <= cap
            &&& cfg.vram == 0 ==> after == before
            &&& before <= cap ==> after <= cap
        },
{
    let chosen = inst.gpu_indices@;
    law_placement_fits(s, registry, gpus, cfg, chosen);
    law_placement_is_distinct(s, registry, gpus, cfg, chosen);
    let idx = chosen[k];
    let slot = slot_in(s, cfg.kind(), idx)->0;
    lemma_bytes_after_join(s, registry, next, cfg.name@, inst, slot);
    lemma_uses_of_distinct(s, cfg.name@, chosen, slot);
    let u = uses(s, cfg.name@, chosen, slot);
    let m = model_bytes(s, cfg.name@);
    assert(u * m <= m) by (nonlinear_arith)
        requires
            u <= 1,
    ;
}

// ── What placement does ─────────────────────────────────────────────────────

/// A device of the pool that an instance of the model can be put on: it is in a
/// slot of known capacity, no instance of the model is there, and what is not
/// reserved in the slot is at least what the model declares.
pub open spec fn qualifies(
    s: Settings,
    registry: NameMap<Vec<Instance>>,
    gpus: Seq<GpuMetrics>,
    cfg: ModelConfig,
    idx: usize,
) -> bool {
    cfg.pool().contains(idx) && (slot_in(s, cfg.kind(), idx) matches Some(slot) && list_uses(
        s,
        cfg.name@,
        registered_list(registry@, cfg.name@),
        slot,
    ) == 0 && (capacity(s, cfg.kind(), gpus, idx, slot) matches Some(cap) && (cfg.vram == 0
        || slot_bytes(s, registry.entries@, slot) + cfg.vram * 1_048_576 <= cap)))
}

proof fn lemma_qualifies(
    s: Settings,
    registry: NameMap<Vec<Instance>>,
    gpus: Seq<GpuMetrics>,
    cfg: ModelConfig,
    idx: usize,
)
    requires
        cfg.pool().contains(idx),
    ensures
        qualifies(s, registry, gpus, cfg, idx) <==> candidate(s, registry, gpus, cfg, idx) is Some,
{
}

/// Every device of the pool that qualifies is among the candidates.
proof fn lemma_candidates_of_pool(
    s: Settings,
    registry: NameMap<Vec<Instance>>,
    gpus: Seq<GpuMetrics>,
    cfg: ModelConfig,
    pool: Seq<usize>,
    idx: usize,
)
    requires
        pool.contains(idx),
        candidate(s, registry, gpus, cfg, idx) is Some,
    ensures
        exists|k: int|
            0 <= k < candidates(s, registry, gpus, cfg, pool).len() && (#[trigger] candidates(
                s,
                registry,
                gpus,
                cfg,
                pool,
            )[k]) == candidate(s, registry, gpus, cfg, idx)->0,
    decreases pool.len(),
{
    let rest = pool.drop_last();
    let all = candidates(s, registry, gpus, cfg, pool);
    let front = candidates(s, registry, gpus, cfg, rest);
    let i = choose|i: int| 0 <= i < pool.len() && pool[i] == idx;
    if rest.contains(idx) {
        lemma_candidates_of_pool(s, registry, gpus, cfg, rest, idx);
        let k = choose|k: int|
            0 <= k < front.len() && (#[trigger] front[k]) == candidate(
                s,
                registry,
                gpus,
                cfg,
                idx,
            )->0;
        assert(all[k] == front[k]);
    } else {
        if i < rest.len() {
            assert(rest[i] == idx);
        }
        assert(pool.last() == idx);
        assert(all[front.len() as int] == candidate(s, registry, gpus, cfg, idx)->0);
    }
}

/// A placement is found exactly where enough devices of the pool qualify, and
/// it is made of these.
pub proof fn law_placement_is_found(
    s: Settings,
    registry: NameMap<Vec<Instance>>,
    gpus: Seq<GpuMetrics>,
    cfg: ModelConfig,
    chosen: Seq<usize>,
    enough: Seq<usize>,
)
    requires
        is_placement(s, registry, gpus, cfg, chosen),
    ensures
        chosen.len() == 0 || chosen.len() == cfg.gpus,
        chosen.no_duplicates(),
        forall|k: int|
            0 <= k < chosen.len() ==> qualifies(s, registry, gpus, cfg, #[trigger] chosen[k]),
        enough.no_duplicates() && enough.len() >= cfg.gpus && (forall|k: int|
            0 <= k < enough.len() ==> qualifies(s, registry, gpus, cfg, #[trigger] enough[k]))
            ==> chosen.len() == cfg.gpus,
{
    law_placement_is_distinct(s, registry, gpus, cfg, chosen);
    law_placement_fits(s, registry, gpus, cfg, chosen);
    let found = candidates(s, registry, gpus, cfg, cfg.pool());
    lemma_candidates_from_pool(s, registry, gpus, cfg, cfg.pool());
    if chosen.len() > 0 {
        let n = cfg.gpus as int;
        let r = choose|r: Seq<Candidate>|
            #[trigger] is_ranking(r, found) && chosen == indices(r.take(n));
        lemma_ranking_members(r, found);
        assert forall|k: int| 0 <= k < chosen.len() implies qualifies(
            s,
            registry,
            gpus,
            cfg,
            #[trigger] chosen[k],
        ) by {
            assert(chosen[k] == r[k].idx);
            assert(found.contains(r[k]));
            let j = choose|j: int| 0 <= j < found.len() && found[j] == r[k];
            assert(found[j].idx == chosen[k]);
            lemma_qualifies(s, registry, gpus, cfg, chosen[k]);
        }
    }
    if enough.no_duplicates() && enough.len() >= cfg.gpus && (forall|k: int|
        0 <= k < enough.len() ==> qualifies(s, registry, gpus, cfg, #[trigger] enough[k])) {
        let names = indices(found);
        assert forall|x: usize| #[trigger] enough.to_set().contains(x) implies names.to_set().contains(
            x,
        ) by {
            let k = choose|k: int| 0 <= k < enough.len() && enough[k] == x;
            assert(qualifies(s, registry, gpus, cfg, enough[k]));
            lemma_qualifies(s, registry, gpus, cfg, x);
            lemma_candidates_of_pool(s, registry, gpus, cfg, cfg.pool(), x);
            let j = choose|j: int|
                0 <= j < found.len() && (#[trigger] found[j]) == candidate(
                    s,
                    registry,
                    gpus,
                    cfg,
                    x,
                )->0;
            assert(names[j] == x);
        }
        enough.unique_seq_to_set();
        names.lemma_cardinality_of_set();
        assert(names.to_set().finite());
        vstd::set_lib::lemma_len_subset(enough.to_set(), names.to_set());
        assert(found.len() >= cfg.gpus);
        if chosen.len() == 0 {
            let n = cfg.gpus as int;
            let r = choose|r: Seq<Candidate>|
                #[trigger] is_ranking(r, found) && chosen == indices(r.take(n));
            lemma_ranking_members(r, found);
        }
    }
}

/// Of the devices that qualify, those with the least instances in their slot are
/// chosen; of these, those with the most VRAM left; of these, those with the
/// lowest index. So an empty device is never passed over for an occupied one.
pub proof fn law_placement_prefers_idle_devices(
    s: Settings,
    registry: NameMap<Vec<Instance>>,
    gpus: Seq<GpuMetrics>,
    cfg: ModelConfig,
    chosen: Seq<usize>,
    k: int,
    passed: usize,
)
    requires
        is_placement(s, registry, gpus, cfg, chosen),
        0 <= k < chosen.len(),
        qualifies(s, registry, gpus, cfg, passed),
        !chosen.contains(passed),
        slot_uses(s, registry.entries@, slot_in(s, cfg.kind(), passed)->0) < u64::MAX,
    ensures
        ({
            let mine = slot_in(s, cfg.kind(), chosen[k])->0;
            let other = slot_in(s, cfg.kind(), passed)->0;
            let my_uses = slot_uses(s, registry.entries@, mine);
            let other_uses = slot_uses(s, registry.entries@, other);
            let my_left = capacity(s, cfg.kind(), gpus, chosen[k], mine)->0 - slot_bytes(
                s,
                registry.entries@,
                mine,
            );
            let other_left = capacity(s, cfg.kind(), gpus, passed, other)->0 - slot_bytes(
                s,
                registry.entries@,
                other,
            );
            &&& my_uses <= other_uses
            &&& my_uses == other_uses && other_left > 0 ==> my_left >= other_left
            &&& my_uses == other_uses && my_left == other_left ==> chosen[k] < passed
        }),
{
    let found = candidates(s, registry, gpus, cfg, cfg.pool());
    lemma_candidates_from_pool(s, registry, gpus, cfg, cfg.pool());
    let n = cfg.gpus as int;
    let r = choose|r: Seq<Candidate>|
        #[trigger] is_ranking(r, found) && chosen == indices(r.take(n));
    lemma_ranking_members(r, found);
    assert(chosen[k] == r[k].idx);
    assert(found.contains(r[k]));
    let a = choose|a: int| 0 <= a < found.len() && found[a] == r[k];
    assert(found[a].idx == chosen[k]);
    lemma_qualifies(s, registry, gpus, cfg, passed);
    lemma_candidates_of_pool(s, registry, gpus, cfg, cfg.pool(), passed);
    let c = candidate(s, registry, gpus, cfg, passed)->0;
    let b = choose|b: int| 0 <= b < found.len() && (#[trigger] found[b]) == c;
    broadcast use vstd::seq_lib::group_to_multiset_ensures;
    assert(found.contains(c));
    assert(found.to_multiset().count(c) > 0);
    assert(r.to_multiset().count(c) > 0);
    assert(r.contains(c));
    let j = choose|j: int| 0 <= j < r.len() && r[j] == c;
    if j < n {
        assert(chosen[j] == passed);
    }
    assert(prefers(r[k], r[j]));
}

/// An instance that joins occupies the slots of its devices once more each, and
/// reserves there the VRAM that its model declares, in MB of 1048576 bytes;
/// elsewhere nothing changes. An empty registry occupies and reserves nothing.
pub proof fn law_what_an_instance_reserves(
    s: Settings,
    registry: NameMap<Vec<Instance>>,
    next: NameMap<Vec<Instance>>,
    cfg: ModelConfig,
    inst: Instance,
    slot: Seq<char>,
)
    requires
        s.models@.dom().contains(cfg.name@),
        s.models@[cfg.name@] == cfg,
        registry.wf(),
        next.wf(),
        joined(registry@, next@, cfg.name@, inst),
        inst.gpu_indices@.no_duplicates(),
        distinct_slots(s, cfg.kind()),
    ensures
        ({
            let there = exists|k: int|
                0 <= k < inst.gpu_indices@.len() && slot_in(
                    s,
                    cfg.kind(),
                    #[trigger] inst.gpu_indices@[k],
                ) == Some(slot);
            let bytes = slot_bytes(s, registry.entries@, slot);
            let count = slot_uses(s, registry.entries@, slot);
            &&& there ==> slot_bytes(s, next.entries@, slot) == bytes + cfg.vram * 1_048_576
                && slot_uses(s, next.entries@, slot) == count + 1
            &&& !there ==> slot_bytes(s, next.entries@, slot) == bytes && slot_uses(
                s,
                next.entries@,
                slot,
            ) == count
        }),
        slot_bytes(s, Seq::empty(), slot) == 0,
        slot_uses(s, Seq::empty(), slot) == 0,
{
    let u = uses(s, cfg.name@, inst.gpu_indices@, slot);
    lemma_bytes_after_join(s, registry, next, cfg.name@, inst, slot);
    lemma_uses_after_join(s, registry, next, cfg.name@, inst, slot);
    lemma_uses_of_distinct(s, cfg.name@, inst.gpu_indices@, slot);
    lemma_used_where_in_slot(s, cfg.name@, inst.gpu_indices@, slot);
    let m = model_bytes(s, cfg.name@);
    assert(u == 0 ==> u * m == 0) by (nonlinear_arith);
    assert(u == 1 ==> u * m == m) by (nonlinear_arith);
}

proof fn lemma_used_where_in_slot(
    s: Settings,
    model: Seq<char>,
    devices: Seq<usize>,
    slot: Seq<char>,
)
    ensures
        uses(s, model, devices, slot) == 0 ==> forall|k: int|
            0 <= k < devices.len() ==> slot_for(s, model, #[trigger] devices[k]) != Some(slot),
    decreases devices.len(),
{
    if devices.len() > 0 {
        let rest = devices.drop_last();
        lemma_used_where_in_slot(s, model, rest, slot);
        if uses(s, model, devices, slot) == 0 {
            assert forall|k: int| 0 <= k < devices.len() implies slot_for(
                s,
                model,
                #[trigger] devices[k],
            ) != Some(slot) by {
                if k < rest.len() {
                    assert(rest[k] == devices[k]);
                }
            }
        }
    }
}

proof fn lemma_uses_without(
    s: Settings,
    entries: Seq<(String, Vec<Instance>)>,
    i: int,
    slot: Seq<char>,
)
    requires
        0 <= i < entries.len(),
    ensures
        slot_uses(s, entries, slot) == slot_uses(s, entries.remove(i), slot) + list_uses(
            s,
            entries[i].0@,
            entries[i].1@,
            slot,
        ),
    decreases entries.len(),
{
    let rest = entries.remove(i);
    if i == entries.len() - 1 {
        assert(rest =~= entries.drop_last());
    } else {
        lemma_uses_without(s, entries.drop_last(), i, slot);
        assert(rest.drop_last() =~= entries.drop_last().remove(i));
        assert(rest.last() == entries.last());
    }
}

/// How often a slot is occupied does not depend on the order of the registry.
proof fn lemma_uses_in_any_order(
    s: Settings,
    a: Seq<(String, Vec<Instance>)>,
    b: Seq<(String, Vec<Instance>)>,
    slot: Seq<char>,
)
    requires
        distinct_keys(a),
        distinct_keys(b),
        same_lists(entries_map(a), entries_map(b)),
    ensures
        slot_uses(s, a, slot) == slot_uses(s, b, slot),
    decreases a.len(),
{
    if a.len() > 0 {
        let name = a[0].0@;
        lemma_entry(a, 0);
        assert(has_key(b, name));
        let j = key_at(b, name);
        lemma_entry(b, j);
        lemma_remove_entry(a, 0);
        lemma_remove_entry(b, j);
        assert(entries_map(a.remove(0)).dom() =~= entries_map(b.remove(j)).dom());
        lemma_uses_in_any_order(s, a.remove(0), b.remove(j), slot);
        lemma_uses_without(s, a, 0, slot);
        lemma_uses_without(s, b, j, slot);
    } else if b.len() > 0 {
        lemma_entry(b, 0);
        assert(entries_map(a).dom().contains(b[0].0@));
    }
}

/// The devices of an instance that joins are occupied once more.
proof fn lemma_uses_after_join(
    s: Settings,
    registry: NameMap<Vec<Instance>>,
    next: NameMap<Vec<Instance>>,
    name: Seq<char>,
    inst: Instance,
    slot: Seq<char>,
)
    requires
        registry.wf(),
        next.wf(),
        joined(registry@, next@, name, inst),
    ensures
        slot_uses(s, next.entries@, slot) == slot_uses(s, registry.entries@, slot) + uses(
            s,
            name,
            inst.gpu_indices@,
            slot,
        ),
{
    let a = registry.entries@;
    let b = next.entries@;
    let own = registered_list(registry@, name);
    assert(own.push(inst).drop_last() =~= own);
    assert(list_uses(s, name, own.push(inst), slot) == list_uses(s, name, own, slot) + uses(
        s,
        name,
        inst.gpu_indices@,
        slot,
    ));
    assert(next@.dom().contains(name));
    let j = key_at(b, name);
    lemma_entry(b, j);
    lemma_remove_entry(b, j);
    lemma_uses_without(s, b, j, slot);
    if registry@.dom().contains(name) {
        let i = key_at(a, name);
        lemma_entry(a, i);
        lemma_remove_entry(a, i);
        lemma_uses_without(s, a, i, slot);
        assert(entries_map(a.remove(i)).dom() =~= entries_map(b.remove(j)).dom());
        lemma_uses_in_any_order(s, a.remove(i), b.remove(j), slot);
    } else {
        assert(entries_map(a).dom() =~= entries_map(b.remove(j)).dom());
        lemma_uses_in_any_order(s, a, b.remove(j), slot);
    }
}

/// The capacity of a device is never more than what its card reports nor than
/// what is configured for it, and is one of the two. Without a report only a
/// CUDA device has a capacity.
pub proof fn law_capacity_is_the_lesser(
    s: Settings,
    gpus: Seq<GpuMetrics>,
    idx: usize,
    slot: Seq<char>,
    g: int,
    p: int,
)
    ensures
        // Reported by the first card in the slot.
        0 <= g < gpus.len() && gpus[g].pci_slot@ == slot && (forall|j: int|
            0 <= j < g ==> (#[trigger] gpus[j]).pci_slot@ != slot) ==> {
            let total = gpus[g].vram_total_bytes;
            &&& capacity(s, DeviceKind::Cuda, gpus, idx, slot) matches Some(c) && c <= total
            &&& capacity(s, DeviceKind::Vulkan, gpus, idx, slot) matches Some(c) && c <= total
            &&& (0 <= p < s.cuda_vram_static@.len() && s.cuda_vram_static@[p].0 == idx && (
            forall|j: int| 0 <= j < p ==> (#[trigger] s.cuda_vram_static@[j]).0 != idx) ==> (
            capacity(s, DeviceKind::Cuda, gpus, idx, slot) matches Some(c) && c
                <= s.cuda_vram_static@[p].1 && (c == total || c == s.cuda_vram_static@[p].1)))
            &&& (0 <= p < s.vram_limits@.len() && s.vram_limits@[p].0 == idx && (forall|j: int|
                0 <= j < p ==> (#[trigger] s.vram_limits@[j]).0 != idx) ==> (capacity(
                s,
                DeviceKind::Vulkan,
                gpus,
                idx,
                slot,
            ) matches Some(c) && c <= s.vram_limits@[p].1 && (c == total || c
                == s.vram_limits@[p].1)))
            &&& ((forall|j: int|
                0 <= j < s.cuda_vram_static@.len() ==> (#[trigger] s.cuda_vram_static@[j]).0 != idx)
                ==> capacity(s, DeviceKind::Cuda, gpus, idx, slot) == Some(total as u128))
            &&& ((forall|j: int|
                0 <= j < s.vram_limits@.len() ==> (#[trigger] s.vram_limits@[j]).0 != idx)
                ==> capacity(s, DeviceKind::Vulkan, gpus, idx, slot) == Some(total as u128))
        },
        // Reported by none.
        (forall|j: int| 0 <= j < gpus.len() ==> (#[trigger] gpus[j]).pci_slot@ != slot) ==> {
            &&& capacity(s, DeviceKind::Vulkan, gpus, idx, slot) is None
            &&& (0 <= p < s.cuda_vram_static@.len() && s.cuda_vram_static@[p].0 == idx && (
            forall|j: int| 0 <= j < p ==> (#[trigger] s.cuda_vram_static@[j]).0 != idx)
                ==> capacity(s, DeviceKind::Cuda, gpus, idx, slot) == Some(
                s.cuda_vram_static@[p].1,
            ))
            &&& ((forall|j: int|
                0 <= j < s.cuda_vram_static@.len() ==> (#[trigger] s.cuda_vram_static@[j]).0 != idx)
                ==> capacity(s, DeviceKind::Cuda, gpus, idx, slot) is None)
        },
{
    lemma_metrics_at(gpus, slot, g);
    if 0 <= p < s.cuda_vram_static@.len() && s.cuda_vram_static@[p].0 == idx && (forall|j: int|
        0 <= j < p ==> (#[trigger] s.cuda_vram_static@[j]).0 != idx) {
        lemma_lookup_at(s.cuda_vram_static@, idx, p);
    }
    if 0 <= p < s.vram_limits@.len() && s.vram_limits@[p].0 == idx && (forall|j: int|
        0 <= j < p ==> (#[trigger] s.vram_limits@[j]).0 != idx) {
        lemma_lookup_at(s.vram_limits@, idx, p);
    }
    if forall|j: int|
        0 <= j < s.cuda_vram_static@.len() ==> (#[trigger] s.cuda_vram_static@[j]).0 != idx {
        lemma_lookup_none(s.cuda_vram_static@, idx);
    }
    if forall|j: int| 0 <= j < s.vram_limits@.len() ==> (#[trigger] s.vram_limits@[j]).0 != idx {
        lemma_lookup_none(s.vram_limits@, idx);
    }
}

proof fn lemma_metrics_at(gpus: Seq<GpuMetrics>, slot: Seq<char>, g: int)
    ensures
        0 <= g < gpus.len() && gpus[g].pci_slot@ == slot && (forall|j: int|
            0 <= j < g ==> (#[trigger] gpus[j]).pci_slot@ != slot) ==> metrics_at(gpus, slot)
            == Some(gpus[g].vram_total_bytes),
        (forall|j: int| 0 <= j < gpus.len() ==> (#[trigger] gpus[j]).pci_slot@ != slot)
            ==> metrics_at(gpus, slot) is None,
    decreases gpus.len(),
{
    if gpus.len() > 0 {
        let rest = gpus.drop_first();
        lemma_metrics_at(rest, slot, g - 1);
        assert(forall|j: int| 0 <= j < rest.len() ==> rest[j] == gpus[j + 1]);
        if 0 < g < gpus.len() && gpus[g].pci_slot@ == slot && (forall|j: int|
            0 <= j < g ==> (#[trigger] gpus[j]).pci_slot@ != slot) {
            assert forall|j: int| 0 <= j < g - 1 implies (#[trigger] rest[j]).pci_slot@ != slot by {
                assert(gpus[j + 1].pci_slot@ != slot);
            }
            assert(rest[g - 1] == gpus[g]);
            assert(gpus[0].pci_slot@ != slot);
        }
        if forall|j: int| 0 <= j < gpus.len() ==> (#[trigger] gpus[j]).pci_slot@ != slot {
            assert forall|j: int| 0 <= j < rest.len() implies (#[trigger] rest[j]).pci_slot@
                != slot by {
                assert(gpus[j + 1].pci_slot@ != slot);
            }
            assert(gpus[0].pci_slot@ != slot);
        }
    }
}

/// A CUDA device has the slot that the CUDA table gives it, a Vulkan device that
/// of the Vulkan table; indices of the two do not stand for each other.
pub proof fn law_namespaces_are_apart(s: Settings, idx: usize, p: int)
    ensures
        0 <= p < s.cuda_slots@.len() && s.cuda_slots@[p].0 == idx && (forall|j: int|
            0 <= j < p ==> (#[trigger] s.cuda_slots@[j]).0 != idx) ==> slot_in(
            s,
            DeviceKind::Cuda,
            idx,
        ) == Some(s.cuda_slots@[p].1@),
        0 <= p < s.vulkan_slots@.len() && s.vulkan_slots@[p].0 == idx && (forall|j: int|
            0 <= j < p ==> (#[trigger] s.vulkan_slots@[j]).0 != idx) ==> slot_in(
            s,
            DeviceKind::Vulkan,
            idx,
        ) == Some(s.vulkan_slots@[p].1@),
        (forall|j: int| 0 <= j < s.cuda_slots@.len() ==> (#[trigger] s.cuda_slots@[j]).0 != idx)
            ==> slot_in(s, DeviceKind::Cuda, idx) is None,
        (forall|j: int| 0 <= j < s.vulkan_slots@.len() ==> (#[trigger] s.vulkan_slots@[j]).0 != idx)
            ==> slot_in(s, DeviceKind::Vulkan, idx) is None,
{
    if 0 <= p < s.cuda_slots@.len() && s.cuda_slots@[p].0 == idx && (forall|j: int|
        0 <= j < p ==> (#[trigger] s.cuda_slots@[j]).0 != idx) {
        lemma_lookup_at(s.cuda_slots@, idx, p);
    }
    if 0 <= p < s.vulkan_slots@.len() && s.vulkan_slots@[p].0 == idx && (forall|j: int|
        0 <= j < p ==> (#[trigger] s.vulkan_slots@[j]).0 != idx) {
        lemma_lookup_at(s.vulkan_slots@, idx, p);
    }
    if forall|j: int| 0 <= j < s.cuda_slots@.len() ==> (#[trigger] s.cuda_slots@[j]).0 != idx {
        lemma_lookup_none(s.cuda_slots@, idx);
    }
    if forall|j: int| 0 <= j < s.vulkan_slots@.len() ==> (#[trigger] s.vulkan_slots@[j]).0 != idx {
        lemma_lookup_none(s.vulkan_slots@, idx);
    }
}

/// Instances of a model are in a slot exactly where one of them, whatever its
/// state, has a device there.
pub proof fn law_where_a_model_is(
    s: Settings,
    model: Seq<char>,
    list: Seq<Instance>,
    slot: Seq<char>,
)
    ensures
        list_uses(s, model, list, slot) == 0 <==> forall|i: int, k: int|
            0 <= i < list.len() && 0 <= k < list[i].gpu_indices@.len() ==> slot_for(
                s,
                model,
                #[trigger] list[i].gpu_indices@[k],
            ) != Some(slot),
    decreases list.len(),
{
    if list.len() > 0 {
        let front = list.drop_last();
        let last = list.last().gpu_indices@;
        law_where_a_model_is(s, model, front, slot);
        lemma_used_where_in_slot(s, model, last, slot);
        if list_uses(s, model, list, slot) == 0 {
            assert forall|i: int, k: int|
                0 <= i < list.len() && 0 <= k < list[i].gpu_indices@.len() implies slot_for(
                s,
                model,
                #[trigger] list[i].gpu_indices@[k],
            ) != Some(slot) by {
                if i < front.len() {
                    assert(front[i].gpu_indices@[k] == list[i].gpu_indices@[k]);
                } else {
                    assert(last[k] == list[i].gpu_indices@[k]);
                }
            }
        } else if forall|i: int, k: int|
            0 <= i < list.len() && 0 <= k < list[i].gpu_indices@.len() ==> slot_for(
                s,
                model,
                #[trigger] list[i].gpu_indices@[k],
            ) != Some(slot) {
            assert forall|i: int, k: int|
                0 <= i < front.len() && 0 <= k < front[i].gpu_indices@.len() implies slot_for(
                s,
                model,
                #[trigger] front[i].gpu_indices@[k],
            ) != Some(slot) by {
                assert(list[i].gpu_indices@[k] == front[i].gpu_indices@[k]);
            }
            assert forall|k: int| 0 <= k < last.len() implies slot_for(
                s,
                model,
                #[trigger] last[k],
            ) != Some(slot) by {
                assert(list[list.len() - 1].gpu_indices@[k] == last[k]);
            }
            lemma_unused(s, model, last, slot);
        }
    }
}

proof fn lemma_unused(s: Settings, model: Seq<char>, devices: Seq<usize>, slot: Seq<char>)
    requires
        forall|k: int|
            0 <= k < devices.len() ==> slot_for(s, model, #[trigger] devices[k]) != Some(slot),
    ensures
        uses(s, model, devices, slot) == 0,
    decreases devices.len(),
{
    if devices.len() > 0 {
        let rest = devices.drop_last();
        assert forall|k: int| 0 <= k < rest.len() implies slot_for(s, model, #[trigger] rest[k])
            != Some(slot) by {
            assert(devices[k] == rest[k]);
        }
        assert(devices[devices.len() - 1] == devices.last());
        lemma_unused(s, model, rest, slot);
    }
}

/// A model is placed on CUDA devices exactly where it names any, and otherwise
/// on Vulkan devices; its pool is the list that it names.
pub proof fn law_which_pool(cfg: ModelConfig, s: Settings, idx: usize)
    ensures
        cfg.cuda_devices@.len() > 0 ==> cfg.kind() == DeviceKind::Cuda && cfg.pool()
            == cfg.cuda_devices@,
        cfg.cuda_devices@.len() == 0 ==> cfg.kind() == DeviceKind::Vulkan && cfg.pool()
            == cfg.vulkan_devices@,
        s.models@.dom().contains(cfg.name@) && s.models@[cfg.name@] == cfg ==> slot_for(
            s,
            cfg.name@,
            idx,
        ) == slot_in(s, cfg.kind(), idx),
        !s.models@.dom().contains(cfg.name@) ==> slot_for(s, cfg.name@, idx) == slot_in(
            s,
            DeviceKind::Vulkan,
            idx,
        ),
{
}

/// The devices of a placement stand in the order in which they are preferred:
/// those with the least instances in their slot first, then those with the most
/// VRAM left, then those with the lowest index.
pub proof fn law_placement_is_in_order(
    s: Settings,
    registry: NameMap<Vec<Instance>>,
    gpus: Seq<GpuMetrics>,
    cfg: ModelConfig,
    chosen: Seq<usize>,
    i: int,
    j: int,
)
    requires
        is_placement(s, registry, gpus, cfg, chosen),
        0 <= i < j < chosen.len(),
        slot_uses(s, registry.entries@, slot_in(s, cfg.kind(), chosen[j])->0) < u64::MAX,
    ensures
        ({
            let first = slot_in(s, cfg.kind(), chosen[i])->0;
            let second = slot_in(s, cfg.kind(), chosen[j])->0;
            let first_uses = slot_uses(s, registry.entries@, first);
            let second_uses = slot_uses(s, registry.entries@, second);
            let first_left = capacity(s, cfg.kind(), gpus, chosen[i], first)->0 - slot_bytes(
                s,
                registry.entries@,
                first,
            );
            let second_left = capacity(s, cfg.kind(), gpus, chosen[j], second)->0 - slot_bytes(
                s,
                registry.entries@,
                second,
            );
            &&& first_uses <= second_uses
            &&& first_uses == second_uses && second_left > 0 ==> first_left >= second_left
            &&& first_uses == second_uses && first_left == second_left ==> chosen[i] < chosen[j]
        }),
{
    law_placement_is_distinct(s, registry, gpus, cfg, chosen);
    let found = candidates(s, registry, gpus, cfg, cfg.pool());
    lemma_candidates_from_pool(s, registry, gpus, cfg, cfg.pool());
    let n = cfg.gpus as int;
    let r = choose|r: Seq<Candidate>|
        #[trigger] is_ranking(r, found) && chosen == indices(r.take(n));
    lemma_ranking_members(r, found);
    assert(chosen[i] == r[i].idx && chosen[j] == r[j].idx);
    assert(found.contains(r[i]) && found.contains(r[j]));
    let a = choose|a: int| 0 <= a < found.len() && found[a] == r[i];
    let b = choose|b: int| 0 <= b < found.len() && found[b] == r[j];
    assert(found[a].idx == chosen[i] && found[b].idx == chosen[j]);
    assert(prefers(r[i], r[j]));
}

} // verus!

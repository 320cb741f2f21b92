//! The part of the configuration that scheduling works with.

use vstd::prelude::*;
use crate::config::{index_in, Config, CudaDeviceConfig, DevicesConfig, ModelConfig};
use crate::names::NameMap;

verus! {

/// Bytes in one MB as the configuration counts them.
pub const MB: u128 = 1_048_576;

/// Model definitions and device tables. Sizes are in bytes.
pub struct Settings {
    /// Per-model configuration, by model name.
    pub models: NameMap<ModelConfig>,
    /// Named fragments for model commands, in order of application.
    pub cmd_aliases: Vec<(String, String)>,
    /// Vulkan device index → PCI slot.
    pub vulkan_slots: Vec<(usize, String)>,
    /// Vulkan device index → VRAM limit.
    pub vram_limits: Vec<(usize, u128)>,
    /// CUDA device index → PCI slot.
    pub cuda_slots: Vec<(usize, String)>,
    /// CUDA device index → static VRAM total: a cap, and the fallback total
    /// where no metrics are there.
    pub cuda_vram_static: Vec<(usize, u128)>,
    /// Seconds between loading-indicator dots; 0 disables them.
    pub loading_dots_interval_secs: u64,
}

/// The value of an index in a table; the first entry counts.
pub open spec fn lookup<V>(table: Seq<(usize, V)>, idx: usize) -> Option<V>
    decreases table.len(),
{
    if table.len() == 0 {
        None
    } else if table[0].0 == idx {
        Some(table[0].1)
    } else {
        lookup(table.drop_first(), idx)
    }
}

/// A lookup gives the first entry with the index.
pub proof fn lemma_lookup_at<V>(table: Seq<(usize, V)>, idx: usize, p: int)
    requires
        0 <= p < table.len(),
        table[p].0 == idx,
        forall|j: int| 0 <= j < p ==> (#[trigger] table[j]).0 != idx,
    ensures
        lookup(table, idx) == Some(table[p].1),
    decreases table.len(),
{
    if p > 0 {
        let rest = table.drop_first();
        assert forall|j: int| 0 <= j < p - 1 implies (#[trigger] rest[j]).0 != idx by {
            assert(table[j + 1].0 != idx);
        }
        lemma_lookup_at(rest, idx, p - 1);
        assert(table[0].0 != idx);
    }
}

/// A lookup of an index that is not there gives nothing.
pub proof fn lemma_lookup_none<V>(table: Seq<(usize, V)>, idx: usize)
    requires
        forall|j: int| 0 <= j < table.len() ==> (#[trigger] table[j]).0 != idx,
    ensures
        lookup(table, idx) is None,
    decreases table.len(),
{
    if table.len() > 0 {
        let rest = table.drop_first();
        assert forall|j: int| 0 <= j < rest.len() implies (#[trigger] rest[j]).0 != idx by {
            assert(table[j + 1].0 != idx);
        }
        lemma_lookup_none(rest, idx);
        assert(table[0].0 != idx);
    }
}

/// Finds the value of an index.
pub fn find_index<V>(table: &Vec<(usize, V)>, idx: usize) -> (r: Option<&V>)
    ensures
        r is Some <==> lookup(table@, idx) is Some,
        r matches Some(v) ==> lookup(table@, idx) == Some(*v),
{
    match index_in(table, idx) {
        Some(p) => {
            proof {
                lemma_lookup_at(table@, idx, p as int);
            }
            Some(&table[p].1)
        },
        None => {
            proof {
                lemma_lookup_none(table@, idx);
            }
            None
        },
    }
}

// ── From the configuration ──────────────────────────────────────────────────

/// The models by name; a later model takes the place of an earlier one.
pub open spec fn model_table(models: Seq<ModelConfig>) -> Map<Seq<char>, ModelConfig>
    decreases models.len(),
{
    if models.len() == 0 {
        Map::empty()
    } else {
        model_table(models.drop_last()).insert(models.last().name@, models.last())
    }
}

/// Every model is in the table, where names are distinct.
pub proof fn lemma_model_table(models: Seq<ModelConfig>)
    ensures
        forall|name: Seq<char>|
            #[trigger] model_table(models).dom().contains(name) <==> (exists|i: int|
                0 <= i < models.len() && (#[trigger] models[i]).name@ == name),
        forall|name: Seq<char>|
            #[trigger] model_table(models).dom().contains(name) ==> model_table(models)[name].name@
                == name,
    decreases models.len(),
{
    if models.len() > 0 {
        let front = models.drop_last();
        lemma_model_table(front);
        assert forall|name: Seq<char>|
            #[trigger] model_table(models).dom().contains(name) <==> (exists|i: int|
                0 <= i < models.len() && (#[trigger] models[i]).name@ == name) by {
            if model_table(front).dom().contains(name) {
                let i = choose|i: int| 0 <= i < front.len() && (#[trigger] front[i]).name@ == name;
                assert(models[i].name@ == name);
            }
            if exists|i: int| 0 <= i < models.len() && (#[trigger] models[i]).name@ == name {
                let i = choose|i: int|
                    0 <= i < models.len() && (#[trigger] models[i]).name@ == name;
                if i < front.len() {
                    assert(front[i].name@ == name);
                }
            }
        }
    }
}

/// The PCI slots of the CUDA devices, by index.
pub open spec fn cuda_slot_texts(cuda: Seq<(usize, CudaDeviceConfig)>) -> Seq<(usize, Seq<char>)> {
    cuda.map_values(|e: (usize, CudaDeviceConfig)| (e.0, e.1.pci@))
}

/// The static VRAM totals of the first `n` CUDA devices, in bytes.
pub open spec fn cuda_totals(cuda: Seq<(usize, CudaDeviceConfig)>, n: int) -> Seq<(usize, u128)>
    decreases n,
{
    if n <= 0 {
        Seq::empty()
    } else {
        match cuda[n - 1].1.vram_mb {
            Some(mb) => cuda_totals(cuda, n - 1).push((cuda[n - 1].0, (mb * MB) as u128)),
            None => cuda_totals(cuda, n - 1),
        }
    }
}

/// A table of strings as texts.
pub open spec fn slot_texts(table: Seq<(usize, String)>) -> Seq<(usize, Seq<char>)> {
    table.map_values(|e: (usize, String)| (e.0, e.1@))
}

/// Extracts the PCI slots and the static VRAM totals of the CUDA devices.
pub fn cuda_device_maps(devices: &Option<DevicesConfig>) -> (r: (
    Vec<(usize, String)>,
    Vec<(usize, u128)>,
))
    ensures
        devices matches Some(d) ==> slot_texts(r.0@) == cuda_slot_texts(d.cuda@) && r.1@
            == cuda_totals(d.cuda@, d.cuda@.len() as int),
        devices is None ==> r.0@.len() == 0 && r.1@.len() == 0,
{
    let mut slots: Vec<(usize, String)> = Vec::new();
    let mut totals: Vec<(usize, u128)> = Vec::new();
    if let Some(d) = devices {
        for i in 0..d.cuda.len()
            invariant
                slot_texts(slots@) == cuda_slot_texts(d.cuda@.take(i as int)),
                totals@ == cuda_totals(d.cuda@, i as int),
        {
            let ghost before = slots@;
            let e = &d.cuda[i];
            slots.push((e.0, e.1.pci.clone()));
            assert(slot_texts(slots@) =~= slot_texts(before).push((e.0, e.1.pci@)));
            assert(cuda_slot_texts(d.cuda@.take(i + 1)) =~= cuda_slot_texts(
                d.cuda@.take(i as int),
            ).push((e.0, e.1.pci@)));
            if let Some(mb) = e.1.vram_mb {
                assert(mb * MB <= u64::MAX * 1_048_576);
                totals.push((e.0, mb as u128 * MB));
            }
        }
        assert(d.cuda@.take(d.cuda@.len() as int) =~= d.cuda@);
    }
    (slots, totals)
}

/// Limits in bytes.
pub open spec fn limits_bytes(limits: Seq<(usize, u64)>) -> Seq<(usize, u128)> {
    limits.map_values(|e: (usize, u64)| (e.0, (e.1 * MB) as u128))
}

fn limits_in_bytes(limits: &Vec<(usize, u64)>) -> (r: Vec<(usize, u128)>)
    ensures
        r@ == limits_bytes(limits@),
{
    let mut out: Vec<(usize, u128)> = Vec::new();
    for i in 0..limits.len()
        invariant
            out@ == limits_bytes(limits@.take(i as int)),
    {
        let e = limits[i];
        assert(e.1 * MB <= u64::MAX * 1_048_576);
        out.push((e.0, e.1 as u128 * MB));
        assert(limits_bytes(limits@.take(i + 1)) =~= limits_bytes(limits@.take(i as int)).push(
            (e.0, (e.1 * MB) as u128),
        ));
    }
    assert(limits@.take(limits@.len() as int) =~= limits@);
    out
}

/// The settings of a configuration.
pub open spec fn settings_of(s: Settings, config: Config) -> bool {
    &&& s.models.wf()
    &&& s.models@ == model_table(config.models@)
    &&& s.cmd_aliases == config.cmd_aliases
    &&& s.loading_dots_interval_secs == (match config.server.loading_dots {
        Some(n) => n,
        None => 0,
    })
    &&& match config.devices {
        Some(d) => {
            &&& s.vulkan_slots == d.vulkan
            &&& s.vram_limits@ == limits_bytes(d.vram_limit_mb@)
            &&& slot_texts(s.cuda_slots@) == cuda_slot_texts(d.cuda@)
            &&& s.cuda_vram_static@ == cuda_totals(d.cuda@, d.cuda@.len() as int)
        },
        None => {
            &&& s.vulkan_slots@.len() == 0
            &&& s.vram_limits@.len() == 0
            &&& s.cuda_slots@.len() == 0
            &&& s.cuda_vram_static@.len() == 0
        },
    }
}

fn table_of(models: Vec<ModelConfig>) -> (r: NameMap<ModelConfig>)
    ensures
        r.wf(),
        r@ == model_table(models@),
{
    let ghost all = models@;
    let mut rest = models;
    let total: usize = rest.len();
    let mut out: NameMap<ModelConfig> = NameMap::new();
    let mut done: usize = 0;
    assert(all.skip(0) =~= all);
    assert(all.take(0) =~= Seq::<ModelConfig>::empty());
    while rest.len() > 0
        invariant
            out.wf(),
            done + rest@.len() == all.len(),
            rest@ == all.skip(done as int),
            out@ == model_table(all.take(done as int)),
            total == all.len(),
        decreases rest@.len(),
    {
        let m = rest.remove(0);
        let name = m.name.clone();
        out.insert(name.as_str(), m);
        proof {
            assert(all.take(done + 1).drop_last() =~= all.take(done as int));
            assert(all.take(done + 1).last() == m);
            assert(rest@ =~= all.skip(done + 1));
        }
        done += 1;
    }
    assert(all.take(done as int) =~= all);
    out
}

/// Takes the settings out of a configuration.
pub fn settings_from(config: Config) -> (r: Settings)
    ensures
        settings_of(r, config),
{
    let (cuda_slots, cuda_vram_static) = cuda_device_maps(&config.devices);
    let loading_dots_interval_secs: u64 = match config.server.loading_dots {
        Some(n) => n,
        None => 0,
    };
    let Config { server, apikeys_file, cmd_aliases, models, aliases, devices, keep_alive } = config;
    let models = table_of(models);
    match devices {
        Some(d) => {
            let vram_limits = limits_in_bytes(&d.vram_limit_mb);
            Settings {
                models,
                cmd_aliases,
                vulkan_slots: d.vulkan,
                vram_limits,
                cuda_slots,
                cuda_vram_static,
                loading_dots_interval_secs,
            }
        },
        None => Settings {
            models,
            cmd_aliases,
            vulkan_slots: Vec::new(),
            vram_limits: Vec::new(),
            cuda_slots,
            cuda_vram_static,
            loading_dots_interval_secs,
        },
    }
}

// ── Laws ────────────────────────────────────────────────────────────────────

proof fn lemma_model_in_table(models: Seq<ModelConfig>, i: int)
    requires
        0 <= i < models.len(),
        forall|j: int| i < j < models.len() ==> (#[trigger] models[j]).name@ != models[i].name@,
    ensures
        model_table(models).dom().contains(models[i].name@),
        model_table(models)[models[i].name@] == models[i],
    decreases models.len(),
{
    if i < models.len() - 1 {
        let front = models.drop_last();
        assert(models[models.len() - 1].name@ != models[i].name@);
        assert forall|j: int| i < j < front.len() implies (#[trigger] front[j]).name@
            != front[i].name@ by {
            assert(models[j].name@ != models[i].name@);
        }
        lemma_model_in_table(front, i);
    }
}

proof fn lemma_total_listed(cuda: Seq<(usize, CudaDeviceConfig)>, n: int, i: int)
    requires
        0 <= i < n <= cuda.len(),
        cuda[i].1.vram_mb is Some,
    ensures
        cuda_totals(cuda, n).contains(
            (cuda[i].0, (cuda[i].1.vram_mb->0 * 1_048_576) as u128),
        ),
    decreases n,
{
    let e = (cuda[i].0, (cuda[i].1.vram_mb->0 * 1_048_576) as u128);
    let all = cuda_totals(cuda, n);
    if i == n - 1 {
        assert(all.last() == e);
        assert(all[all.len() - 1] == e);
    } else {
        lemma_total_listed(cuda, n - 1, i);
        let front = cuda_totals(cuda, n - 1);
        let k = choose|k: int| 0 <= k < front.len() && front[k] == e;
        assert(all[k] == e);
    }
}

/// The settings in use are those of the configuration: its models by name, its
/// fragments, its device tables, and its sizes in bytes, of which an MB has
/// 1048576.
pub proof fn law_settings_are_the_configurations(s: Settings, config: Config, i: int)
    requires
        settings_of(s, config),
    ensures
        0 <= i < config.models@.len() && (forall|j: int|
            i < j < config.models@.len() ==> (#[trigger] config.models@[j]).name@
                != config.models@[i].name@) ==> s.models@.dom().contains(config.models@[i].name@)
            && s.models@[config.models@[i].name@] == config.models@[i],
        s.cmd_aliases == config.cmd_aliases,
        config.server.loading_dots is None ==> s.loading_dots_interval_secs == 0,
        config.server.loading_dots matches Some(n) ==> s.loading_dots_interval_secs == n,
        config.devices matches Some(d) ==> {
            &&& s.vulkan_slots == d.vulkan
            &&& s.cuda_slots@.len() == d.cuda@.len()
            &&& 0 <= i < d.cuda@.len() ==> s.cuda_slots@[i].0 == d.cuda@[i].0 && s.cuda_slots@[i].1@
                == d.cuda@[i].1.pci@
            &&& s.vram_limits@.len() == d.vram_limit_mb@.len()
            &&& 0 <= i < d.vram_limit_mb@.len() ==> s.vram_limits@[i].0 == d.vram_limit_mb@[i].0
                && s.vram_limits@[i].1 == d.vram_limit_mb@[i].1 * 1_048_576
            &&& (0 <= i < d.cuda@.len() && d.cuda@[i].1.vram_mb is Some
                ==> s.cuda_vram_static@.contains(
                (d.cuda@[i].0, (d.cuda@[i].1.vram_mb->0 * 1_048_576) as u128),
            ))
        },
{
    if 0 <= i < config.models@.len() && (forall|j: int|
        i < j < config.models@.len() ==> (#[trigger] config.models@[j]).name@
            != config.models@[i].name@) {
        lemma_model_in_table(config.models@, i);
    }
    if let Some(d) = config.devices {
        assert(slot_texts(s.cuda_slots@).len() == s.cuda_slots@.len());
        if 0 <= i < d.cuda@.len() {
            assert(slot_texts(s.cuda_slots@)[i] == cuda_slot_texts(d.cuda@)[i]);
            if d.cuda@[i].1.vram_mb is Some {
                lemma_total_listed(d.cuda@, d.cuda@.len() as int, i);
            }
        }
    }
}

/// The static totals are those of the CUDA devices that have one, in order and
/// in bytes.
pub proof fn law_static_totals(
    cuda: Seq<(usize, CudaDeviceConfig)>,
    e: (usize, CudaDeviceConfig),
)
    ensures
        cuda_totals(Seq::empty(), 0) == Seq::<(usize, u128)>::empty(),
        cuda_totals(cuda.push(e), cuda.len() as int + 1) == match e.1.vram_mb {
            Some(mb) => cuda_totals(cuda, cuda.len() as int).push(
                (e.0, (mb * 1_048_576) as u128),
            ),
            None => cuda_totals(cuda, cuda.len() as int),
        },
{
    lemma_totals_of_prefix(cuda, e, cuda.len() as int);
}

proof fn lemma_totals_of_prefix(
    cuda: Seq<(usize, CudaDeviceConfig)>,
    e: (usize, CudaDeviceConfig),
    n: int,
)
    requires
        n <= cuda.len(),
    ensures
        cuda_totals(cuda.push(e), n) == cuda_totals(cuda, n),
    decreases n,
{
    if n > 0 {
        lemma_totals_of_prefix(cuda, e, n - 1);
    }
}

/// Without a device section there are no devices and no limits, and no model is
/// known that the configuration does not name.
pub proof fn law_settings_hold_nothing_else(s: Settings, config: Config, name: Seq<char>)
    requires
        settings_of(s, config),
    ensures
        config.devices is None ==> s.vulkan_slots@.len() == 0 && s.vram_limits@.len() == 0
            && s.cuda_slots@.len() == 0 && s.cuda_vram_static@.len() == 0,
        config.devices matches Some(d) ==> s.cuda_vram_static@ == cuda_totals(
            d.cuda@,
            d.cuda@.len() as int,
        ),
        s.models@.dom().contains(name) ==> s.models@[name].name@ == name && config.models@.map_values(
            |m: ModelConfig| m.name@,
        ).contains(name),
{
    lemma_model_table(config.models@);
    if s.models@.dom().contains(name) {
        let models = config.models@;
        assert(model_table(models).dom().contains(name));
        let i = choose|i: int| 0 <= i < models.len() && (#[trigger] models[i]).name@ == name;
        assert(models.map_values(|m: ModelConfig| m.name@)[i] == name);
    }
}

} // verus!

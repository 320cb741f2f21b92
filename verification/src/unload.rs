//! Unloading models, reaping drained instances, and shutdown.

use vstd::prelude::*;
use crate::config::{has_model, names_model, Config};
use crate::instance::{Instance, InstanceState};
use crate::keepalive::{action_views, running, stops_exactly, KeepAliveAction, KeepAliveView};
use crate::names::distinct_keys;
use crate::scheduler::{
    at, entry_names, keys_sound, law_least_ready, lemma_lists_insert, lists, InstanceManager, State,
};
use crate::text::texts;

verus! {

// ── Lists ───────────────────────────────────────────────────────────────────

/// The instance, retired: it takes no more requests.
pub open spec fn retired(i: Instance) -> Instance {
    Instance { state: InstanceState::Failed, ..i }
}

/// All instances of a list, retired.
pub open spec fn all_retired(list: Seq<Instance>) -> Seq<Instance> {
    list.map_values(|i: Instance| retired(i))
}

/// The keys of the idle instances.
pub open spec fn idle_keys(list: Seq<Instance>) -> Seq<u64>
    decreases list.len(),
{
    if list.len() == 0 {
        Seq::empty()
    } else if list.last().in_flight == 0 {
        idle_keys(list.drop_last()).push(list.last().key)
    } else {
        idle_keys(list.drop_last())
    }
}

/// How many instances are busy.
pub open spec fn busy_count(list: Seq<Instance>) -> nat
    decreases list.len(),
{
    if list.len() == 0 {
        0
    } else {
        busy_count(list.drop_last()) + if list.last().in_flight > 0 {
            1nat
        } else {
            0
        }
    }
}

/// The keys of the instances that have drained.
pub open spec fn drained_keys(list: Seq<Instance>) -> Seq<u64>
    decreases list.len(),
{
    if list.len() == 0 {
        Seq::empty()
    } else if list.last().state == InstanceState::Failed && list.last().in_flight == 0 {
        drained_keys(list.drop_last()).push(list.last().key)
    } else {
        drained_keys(list.drop_last())
    }
}

/// Retires a list; gives the keys of the idle instances and the number of
/// busy ones.
fn retire_all(list: &mut Vec<Instance>) -> (r: (Vec<u64>, usize))
    ensures
        final(list)@ == all_retired(old(list)@),
        r.0@ == idle_keys(old(list)@),
        r.1 == busy_count(old(list)@),
{
    let ghost before = list@;
    let mut idle: Vec<u64> = Vec::new();
    let mut busy: usize = 0;
    let n: usize = list.len();
    assert(before.take(0) =~= Seq::<Instance>::empty());
    for i in 0..n
        invariant
            n == before.len(),
            list@.len() == n,
            forall|j: int| 0 <= j < i ==> list@[j] == retired(#[trigger] before[j]),
            forall|j: int| i <= j < n ==> list@[j] == #[trigger] before[j],
            idle@ == idle_keys(before.take(i as int)),
            busy == busy_count(before.take(i as int)),
            busy <= i,
    {
        proof {
            assert(before.take(i + 1).drop_last() =~= before.take(i as int));
            assert(before.take(i + 1).last() == before[i as int]);
        }
        assert(list@[i as int] == before[i as int]);
        if list[i].in_flight > 0 {
            busy += 1;
        } else {
            idle.push(list[i].key);
        }
        list[i].state = InstanceState::Failed;
    }
    assert(before.take(n as int) =~= before);
    assert(list@ =~= all_retired(before));
    (idle, busy)
}

// ── Unloading ───────────────────────────────────────────────────────────────

impl State {
    /// All instances of a model retire.
    pub open spec fn unloaded(self, name: Seq<char>) -> State {
        if self.instances.dom().contains(name) {
            self.with_list(name, all_retired(self.instances[name]))
        } else {
            self
        }
    }

    /// All instances of several models retire.
    pub open spec fn unloaded_all(self, names: Seq<Seq<char>>) -> State
        decreases names.len(),
    {
        if names.len() == 0 {
            self
        } else {
            self.unloaded_all(names.drop_last()).unloaded(names.last())
        }
    }
}

/// Retiring changes no key.
pub proof fn lemma_unloaded_sound(s: State, name: Seq<char>)
    requires
        s.sound(),
    ensures
        s.unloaded(name).sound(),
{
    if s.instances.dom().contains(name) {
        let list = s.instances[name];
        let next = all_retired(list);
        assert(keys_sound(list, s.next_key));
        assert forall|a: int| 0 <= a < next.len() implies (#[trigger] next[a]).key < s.next_key by {
            assert(next[a].key == list[a].key);
        }
        assert forall|a: int, b: int| 0 <= a < b < next.len() implies (#[trigger] next[a]).key != (
        #[trigger] next[b]).key by {
            assert(next[a].key == list[a].key);
            assert(next[b].key == list[b].key);
        }
        assert(keys_sound(next, s.next_key));
    }
}

impl InstanceManager {
    /// Begins to unload all instances of a model. All of them stop taking
    /// requests. The idle ones, whose keys are returned, are to be shut down
    /// and unregistered; the busy ones, whose number is returned, are reaped
    /// once their requests have completed.
    pub fn unload_model(&mut self, model_name: &str) -> (r: (Vec<u64>, usize))
        requires
            old(self).wf(),
        ensures
            final(self).wf(),
            final(self)@ == old(self)@.unloaded(model_name@),
            r.0@ == idle_keys(old(self)@.list(model_name@)),
            r.1 == busy_count(old(self)@.list(model_name@)),
            entry_names(final(self).instances.entries@) == entry_names(
                old(self).instances.entries@,
            ),
    {
        proof {
            lemma_unloaded_sound(self@, model_name@);
        }
        match self.instances.position(model_name) {
            Some(p) => {
                let ghost before = self.instances.entries@;
                let ghost map = self.instances@;
                let r = retire_all(&mut self.instances.entries[p].1);
                proof {
                    crate::names::lemma_set_value(before, p as int, self.instances.entries@);
                    lemma_lists_insert(map, model_name@, self.instances.entries@[p as int].1);
                }
                assert(entry_names(self.instances.entries@) =~= entry_names(before));
                assert(self@ =~= old(self)@.unloaded(model_name@));
                r
            },
            None => (Vec::new(), 0),
        }
    }

    /// The draining instances of a model whose requests have completed. They
    /// are to be shut down and unregistered.
    pub fn reap_drained(&self, model_name: &str) -> (r: Vec<u64>)
        requires
            self.wf(),
        ensures
            r@ == drained_keys(self@.list(model_name@)),
    {
        let mut out: Vec<u64> = Vec::new();
        if let Some(list) = self.instances.get(model_name) {
            assert(list@.take(0) =~= Seq::<Instance>::empty());
            for i in 0..list.len()
                invariant
                    out@ == drained_keys(list@.take(i as int)),
            {
                proof {
                    assert(list@.take(i + 1).drop_last() =~= list@.take(i as int));
                    assert(list@.take(i + 1).last() == list@[i as int]);
                }
                if list[i].state == InstanceState::Failed && list[i].in_flight == 0 {
                    out.push(list[i].key);
                }
            }
            assert(list@.take(list@.len() as int) =~= list@);
        }
        out
    }

    /// How many instances each model has.
    pub fn instance_counts(&self) -> (r: Vec<(String, usize)>)
        ensures
            r@.len() == self.instances.entries@.len(),
            forall|i: int|
                0 <= i < r@.len() ==> (#[trigger] r@[i]).0@ == self.instances.entries@[i].0@
                    && r@[i].1 == self.instances.entries@[i].1@.len(),
    {
        let mut out: Vec<(String, usize)> = Vec::new();
        for i in 0..self.instances.entries.len()
            invariant
                out@.len() == i,
                forall|j: int|
                    0 <= j < i ==> (#[trigger] out@[j]).0@ == self.instances.entries@[j].0@
                        && out@[j].1 == self.instances.entries@[j].1@.len(),
        {
            let e = &self.instances.entries[i];
            out.push((e.0.clone(), e.1.len()));
        }
        out
    }
}

// ── Models that are no longer configured ────────────────────────────────────

/// The names of which no model is configured.
pub open spec fn unconfigured(names: Seq<Seq<char>>, config: Config) -> Seq<Seq<char>>
    decreases names.len(),
{
    if names.len() == 0 {
        Seq::empty()
    } else if names_model(config.models@, names.last()) {
        unconfigured(names.drop_last(), config)
    } else {
        unconfigured(names.drop_last(), config).push(names.last())
    }
}

/// The idle instances of several models, each with its model's name.
pub open spec fn idle_of(instances: Map<Seq<char>, Seq<Instance>>, names: Seq<Seq<char>>) -> Seq<
    (Seq<char>, u64),
>
    decreases names.len(),
{
    if names.len() == 0 {
        Seq::empty()
    } else {
        idle_of(instances, names.drop_last()) + tagged(
            names.last(),
            idle_keys(at(instances, names.last())),
        )
    }
}

/// Keys with the name of their model.
pub open spec fn tagged(name: Seq<char>, keys: Seq<u64>) -> Seq<(Seq<char>, u64)> {
    keys.map_values(|k: u64| (name, k))
}

/// Names and keys in terms of texts.
pub open spec fn tag_views(tags: Seq<(String, u64)>) -> Seq<(Seq<char>, u64)> {
    tags.map_values(|t: (String, u64)| (t.0@, t.1))
}

fn tag_keys(out: &mut Vec<(String, u64)>, name: &str, keys: &Vec<u64>)
    ensures
        tag_views(final(out)@) == tag_views(old(out)@) + tagged(name@, keys@),
{
    let ghost before = out@;
    assert(tag_views(out@) =~= tag_views(before) + tagged(name@, keys@.take(0)));
    for i in 0..keys.len()
        invariant
            tag_views(out@) == tag_views(before) + tagged(name@, keys@.take(i as int)),
    {
        let ghost last = out@;
        out.push((name.to_owned(), keys[i]));
        assert(tag_views(out@) =~= tag_views(last).push((name@, keys@[i as int])));
        assert(tagged(name@, keys@.take(i + 1)) =~= tagged(name@, keys@.take(i as int)).push(
            (name@, keys@[i as int]),
        ));
    }
    assert(keys@.take(keys@.len() as int) =~= keys@);
}

/// Unloading leaves the lists of other models alone.
pub proof fn lemma_unloaded_all_others(s: State, names: Seq<Seq<char>>, name: Seq<char>)
    requires
        !names.contains(name),
    ensures
        s.unloaded_all(names).list(name) == s.list(name),
    decreases names.len(),
{
    if names.len() > 0 {
        assert(names[names.len() - 1] == names.last());
        assert(!names.drop_last().contains(name)) by {
            if names.drop_last().contains(name) {
                let i = choose|i: int|
                    0 <= i < names.drop_last().len() && names.drop_last()[i] == name;
                assert(names[i] == name);
            }
        }
        lemma_unloaded_all_others(s, names.drop_last(), name);
    }
}

/// The names of a table are distinct.
proof fn lemma_names_differ<V>(entries: Seq<(String, V)>, j: int, i: int)
    requires
        distinct_keys(entries),
        0 <= j < i < entry_names(entries).len(),
    ensures
        entry_names(entries)[j] != entry_names(entries)[i],
{
    assert(entries[j].0@ != entries[i].0@);
}

/// What is passed over was in the list.
proof fn lemma_unconfigured_members(names: Seq<Seq<char>>, config: Config, name: Seq<char>)
    requires
        unconfigured(names, config).contains(name),
    ensures
        names.contains(name),
    decreases names.len(),
{
    if names.len() > 0 {
        if name == names.last() {
            assert(names[names.len() - 1] == name);
        } else {
            let u = unconfigured(names, config);
            let i = choose|i: int| 0 <= i < u.len() && u[i] == name;
            let v = unconfigured(names.drop_last(), config);
            if names_model(config.models@, names.last()) {
                assert(v[i] == name);
            } else {
                assert(i < v.len());
                assert(v[i] == name);
            }
            lemma_unconfigured_members(names.drop_last(), config, name);
            let j = choose|j: int| 0 <= j < names.drop_last().len() && names.drop_last()[j] == name;
            assert(names[j] == name);
        }
    }
}

impl InstanceManager {
    /// Begins to unload the models that a new configuration no longer has.
    /// The idle instances, which are returned, are to be shut down and
    /// unregistered before the configuration is put in place.
    pub fn unload_removed(&mut self, config: &Config) -> (r: Vec<(String, u64)>)
        requires
            old(self).wf(),
        ensures
            final(self).wf(),
            final(self)@ == old(self)@.unloaded_all(
                unconfigured(entry_names(old(self).instances.entries@), *config),
            ),
            tag_views(r@) == idle_of(
                old(self)@.instances,
                unconfigured(entry_names(old(self).instances.entries@), *config),
            ),
    {
        let names = self.listed_models();
        let ghost all = texts(names@);
        let mut out: Vec<(String, u64)> = Vec::new();
        assert(all.take(0) =~= Seq::<Seq<char>>::empty());
        assert(tag_views(out@) =~= Seq::<(Seq<char>, u64)>::empty());
        let total: usize = config.models.len();
        assert(config.models@.take(total as int) =~= config.models@);
        for i in 0..names.len()
            invariant
                self.wf(),
                all == texts(names@),
                all == entry_names(old(self).instances.entries@),
                old(self).instances.wf(),
                total == config.models@.len(),
                config.models@.take(total as int) == config.models@,
                self@ == old(self)@.unloaded_all(unconfigured(all.take(i as int), *config)),
                tag_views(out@) == idle_of(
                    old(self)@.instances,
                    unconfigured(all.take(i as int), *config),
                ),
        {
            proof {
                assert(all.take(i + 1).drop_last() =~= all.take(i as int));
                assert(all.take(i + 1).last() == names@[i as int]@);
            }
            if !has_model(&config.models, total, names[i].as_str()) {
                let ghost u = unconfigured(all.take(i as int), *config);
                proof {
                    let name = names@[i as int]@;
                    if u.contains(name) {
                        lemma_unconfigured_members(all.take(i as int), *config, name);
                        let j = choose|j: int|
                            0 <= j < all.take(i as int).len() && all.take(i as int)[j] == name;
                        lemma_names_differ(old(self).instances.entries@, j, i as int);
                    }
                    lemma_unloaded_all_others(old(self)@, u, name);
                    assert(u.push(name).drop_last() =~= u);
                    assert(u.push(name).last() == name);
                }
                let (idle, _busy) = self.unload_model(names[i].as_str());
                tag_keys(&mut out, names[i].as_str(), &idle);
            }
        }
        assert(all.take(all.len() as int) =~= all);
        out
    }
}

// ── Shutdown ────────────────────────────────────────────────────────────────

/// All keys of a list.
pub open spec fn all_keys(list: Seq<Instance>) -> Seq<u64> {
    list.map_values(|i: Instance| i.key)
}

/// All instances of several models, each with its model's name.
pub open spec fn members_of(instances: Map<Seq<char>, Seq<Instance>>, names: Seq<Seq<char>>) -> Seq<
    (Seq<char>, u64),
>
    decreases names.len(),
{
    if names.len() == 0 {
        Seq::empty()
    } else {
        members_of(instances, names.drop_last()) + tagged(
            names.last(),
            all_keys(at(instances, names.last())),
        )
    }
}

impl InstanceManager {
    fn keys_of(&self, model_name: &str) -> (r: Vec<u64>)
        requires
            self.wf(),
        ensures
            r@ == all_keys(self@.list(model_name@)),
    {
        let mut out: Vec<u64> = Vec::new();
        if let Some(list) = self.instances.get(model_name) {
            for i in 0..list.len()
                invariant
                    out@ == all_keys(list@.take(i as int)),
            {
                out.push(list[i].key);
                assert(all_keys(list@.take(i + 1)) =~= all_keys(list@.take(i as int)).push(
                    list@[i as int].key,
                ));
            }
            assert(list@.take(list@.len() as int) =~= list@);
        }
        assert(out@ =~= all_keys(self@.list(model_name@)));
        out
    }

    /// Begins the shutdown. Every instance, busy or not, stops taking requests
    /// and is to be shut down and unregistered; all of them are returned.
    pub fn shutdown_all(&mut self) -> (r: Vec<(String, u64)>)
        requires
            old(self).wf(),
        ensures
            final(self).wf(),
            final(self)@ == old(self)@.unloaded_all(entry_names(old(self).instances.entries@)),
            tag_views(r@) == members_of(
                old(self)@.instances,
                entry_names(old(self).instances.entries@),
            ),
    {
        let names = self.listed_models();
        let ghost all = texts(names@);
        let mut out: Vec<(String, u64)> = Vec::new();
        assert(all.take(0) =~= Seq::<Seq<char>>::empty());
        assert(tag_views(out@) =~= Seq::<(Seq<char>, u64)>::empty());
        for i in 0..names.len()
            invariant
                self.wf(),
                all == texts(names@),
                all == entry_names(old(self).instances.entries@),
                old(self).instances.wf(),
                self@ == old(self)@.unloaded_all(all.take(i as int)),
                tag_views(out@) == members_of(old(self)@.instances, all.take(i as int)),
        {
            proof {
                assert(all.take(i + 1).drop_last() =~= all.take(i as int));
                assert(all.take(i + 1).last() == names@[i as int]@);
                let name = names@[i as int]@;
                if all.take(i as int).contains(name) {
                    let j = choose|j: int|
                        0 <= j < all.take(i as int).len() && all.take(i as int)[j] == name;
                    lemma_names_differ(old(self).instances.entries@, j, i as int);
                }
                lemma_unloaded_all_others(old(self)@, all.take(i as int), name);
            }
            let keys = self.keys_of(names[i].as_str());
            let (_idle, _busy) = self.unload_model(names[i].as_str());
            tag_keys(&mut out, names[i].as_str(), &keys);
        }
        assert(all.take(all.len() as int) =~= all);
        out
    }

    /// Ends all keep-alive tasks, once the instances are shut down.
    pub fn stop_keepalive(&mut self) -> (r: Vec<KeepAliveAction>)
        requires
            old(self).wf(),
        ensures
            final(self).wf(),
            final(self)@ == (State {
                keepalive: match old(self)@.keepalive {
                    Some(k) => Some(KeepAliveView { counts: Map::empty(), ..k }),
                    None => None,
                },
                ..old(self)@
            }),
            match old(self)@.keepalive {
                Some(k) => stops_exactly(action_views(r@), running(k)),
                None => r@.len() == 0,
            },
    {
        let mut out: Vec<KeepAliveAction> = Vec::new();
        if let Some(k) = self.keepalive.as_mut() {
            out = k.stop_all();
        }
        out
    }
}

// ── Laws ────────────────────────────────────────────────────────────────────

/// Once a model is being unloaded, no request is routed to it any more, and
/// the requests that are in flight stay in flight.
pub proof fn law_unloaded_model_takes_no_request(
    s: State,
    name: Seq<char>,
    max_concurrent: usize,
    i: int,
)
    requires
        0 <= i < s.list(name).len(),
    ensures
        s.unloaded(name).ready(name, max_concurrent) is None,
        s.unloaded(name).list(name).len() == s.list(name).len(),
        s.unloaded(name).list(name)[i] == retired(s.list(name)[i]),
        s.unloaded(name).list(name)[i].in_flight == s.list(name)[i].in_flight,
{
    law_least_ready(s.unloaded(name).list(name), max_concurrent);
}

/// Every instance of a list is either removed at once or left to drain.
pub proof fn law_unload_accounts_for_all(list: Seq<Instance>)
    ensures
        idle_keys(list).len() + busy_count(list) == list.len(),
    decreases list.len(),
{
    if list.len() > 0 {
        law_unload_accounts_for_all(list.drop_last());
    }
}

/// Of the instances of a model that is unloaded, those without requests in
/// flight are removed at once; the others are left to drain.
pub proof fn law_idle_ones_are_removed(list: Seq<Instance>)
    ensures
        idle_keys(list) == list.filter(|i: Instance| i.in_flight == 0).map_values(
            |i: Instance| i.key,
        ),
        busy_count(list) == list.filter(|i: Instance| i.in_flight > 0).len(),
    decreases list.len(),
{
    reveal(Seq::filter);
    if list.len() > 0 {
        law_idle_ones_are_removed(list.drop_last());
        let front = list.drop_last().filter(|i: Instance| i.in_flight == 0);
        assert(front.push(list.last()).map_values(|i: Instance| i.key) =~= front.map_values(
            |i: Instance| i.key,
        ).push(list.last().key));
    } else {
        assert(list.filter(|i: Instance| i.in_flight == 0).map_values(|i: Instance| i.key)
            =~= Seq::<u64>::empty());
    }
}

/// What has drained is an instance that takes no requests and has none in
/// flight any more, and every such instance has.
pub proof fn law_drained(list: Seq<Instance>)
    ensures
        drained_keys(list) == list.filter(
            |i: Instance| i.state == InstanceState::Failed && i.in_flight == 0,
        ).map_values(|i: Instance| i.key),
    decreases list.len(),
{
    reveal(Seq::filter);
    let p = |i: Instance| i.state == InstanceState::Failed && i.in_flight == 0;
    if list.len() > 0 {
        law_drained(list.drop_last());
        let front = list.drop_last().filter(p);
        assert(front.push(list.last()).map_values(|i: Instance| i.key) =~= front.map_values(
            |i: Instance| i.key,
        ).push(list.last().key));
    } else {
        assert(list.filter(p).map_values(|i: Instance| i.key) =~= Seq::<u64>::empty());
    }
}

/// Unloading retires every instance of the model, busy or not, without touching
/// its requests, and leaves other models, the queues and everything else alone.
pub proof fn law_unloading_retires_all(s: State, name: Seq<char>, other: Seq<char>)
    requires
        other != name,
    ensures
        s.unloaded(name).list(name).len() == s.list(name).len(),
        forall|i: int|
            0 <= i < s.list(name).len() ==> (#[trigger] s.unloaded(name).list(name)[i]) == (Instance {
                state: InstanceState::Failed,
                ..s.list(name)[i]
            }),
        s.unloaded(name).list(other) == s.list(other),
        s.unloaded(name) == (State { instances: s.unloaded(name).instances, ..s }),
{
}

/// The models that go with a reload are those of which the new configuration
/// has none by that name.
pub proof fn law_removed_models(names: Seq<Seq<char>>, config: Config, name: Seq<char>)
    ensures
        unconfigured(names, config).contains(name) <==> names.contains(name) && forall|i: int|
            0 <= i < config.models@.len() ==> (#[trigger] config.models@[i]).name@ != name,
    decreases names.len(),
{
    if names.len() > 0 {
        let front = names.drop_last();
        law_removed_models(front, config, name);
        let u = unconfigured(names, config);
        let v = unconfigured(front, config);
        assert(names =~= front.push(names.last()));
        assert(names.contains(name) <==> front.contains(name) || names.last() == name) by {
            if names.contains(name) {
                let i = choose|i: int| 0 <= i < names.len() && names[i] == name;
                if i < front.len() {
                    assert(front[i] == name);
                }
            }
            if front.contains(name) {
                let i = choose|i: int| 0 <= i < front.len() && front[i] == name;
                assert(names[i] == name);
            }
            if names.last() == name {
                assert(names[names.len() - 1] == name);
            }
        }
        if !names_model(config.models@, names.last()) {
            assert(u == v.push(names.last()));
            assert(u.contains(name) <==> v.contains(name) || names.last() == name) by {
                if u.contains(name) {
                    let i = choose|i: int| 0 <= i < u.len() && u[i] == name;
                    if i < v.len() {
                        assert(v[i] == name);
                    }
                }
                if v.contains(name) {
                    let i = choose|i: int| 0 <= i < v.len() && v[i] == name;
                    assert(u[i] == name);
                }
                if names.last() == name {
                    assert(u[u.len() - 1] == name);
                }
            }
        }
    }
}

/// Several models are unloaded one after the other.
pub proof fn law_unloading_several(
    s: State,
    names: Seq<Seq<char>>,
    name: Seq<char>,
    instances: Map<Seq<char>, Seq<Instance>>,
)
    ensures
        s.unloaded_all(Seq::empty()) == s,
        s.unloaded_all(names.push(name)) == s.unloaded_all(names).unloaded(name),
        idle_of(instances, Seq::empty()) == Seq::<(Seq<char>, u64)>::empty(),
        idle_of(instances, names.push(name)) == idle_of(instances, names) + idle_keys(
            at(instances, name),
        ).map_values(|k: u64| (name, k)),
        members_of(instances, Seq::empty()) == Seq::<(Seq<char>, u64)>::empty(),
        members_of(instances, names.push(name)) == members_of(instances, names) + at(
            instances,
            name,
        ).map_values(|i: Instance| (name, i.key)),
{
    assert(names.push(name).drop_last() =~= names);
    assert(tagged(name, idle_keys(at(instances, name))) =~= idle_keys(
        at(instances, name),
    ).map_values(|k: u64| (name, k)));
    assert(tagged(name, all_keys(at(instances, name))) =~= at(instances, name).map_values(
        |i: Instance| (name, i.key),
    ));
}

} // verus!

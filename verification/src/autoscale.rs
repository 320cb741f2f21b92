//! Autoscaling: reaping, idle eviction, and load-based scaling of one model.

use vstd::prelude::*;
use crate::acquire::{capacity_of, serve_capacity};
use crate::config::ModelConfig;
use crate::instance::{
    elapsed_secs, law_idle_time, secs_since, Instance, InstanceState, NANOS_PER_SEC,
};
use crate::scheduler::{key_index, lemma_key_index, InstanceManager, State};
use crate::spawning::SPAWN_TIMEOUT;
use crate::unload::{drained_keys, law_drained};

verus! {

// ── Which instances ─────────────────────────────────────────────────────────

/// An instance is stuck in loading, far beyond the time that a spawn takes.
pub open spec fn stranded(i: Instance, now: u64) -> bool {
    i.state == InstanceState::Loading && now - i.last_active > 2 * SPAWN_TIMEOUT * NANOS_PER_SEC
}

/// An instance is to be reaped: drained or stranded.
pub open spec fn reapable(i: Instance, now: u64) -> bool {
    (i.state == InstanceState::Failed && i.in_flight == 0) || stranded(i, now)
}

/// The keys of the stranded instances.
pub open spec fn stranded_keys(list: Seq<Instance>, now: u64) -> Seq<u64>
    decreases list.len(),
{
    if list.len() == 0 {
        Seq::empty()
    } else if stranded(list.last(), now) {
        stranded_keys(list.drop_last(), now).push(list.last().key)
    } else {
        stranded_keys(list.drop_last(), now)
    }
}

/// How many instances are left after reaping.
pub open spec fn staying_count(list: Seq<Instance>, now: u64) -> nat
    decreases list.len(),
{
    if list.len() == 0 {
        0
    } else {
        staying_count(list.drop_last(), now) + if reapable(list.last(), now) {
            0nat
        } else {
            1nat
        }
    }
}

/// The keys of the instances whose idle time is up, in order.
pub open spec fn expired_keys(list: Seq<Instance>, ttl: u64, now: u64) -> Seq<u64>
    decreases list.len(),
{
    if list.len() == 0 {
        Seq::empty()
    } else if list.last().idle_expired(ttl, now) {
        expired_keys(list.drop_last(), ttl, now).push(list.last().key)
    } else {
        expired_keys(list.drop_last(), ttl, now)
    }
}

/// The first instance without requests among those that are left.
pub open spec fn first_idle(list: Seq<Instance>, now: u64) -> Option<int>
    decreases list.len(),
{
    if list.len() == 0 {
        None
    } else {
        match first_idle(list.drop_last(), now) {
            Some(i) => Some(i),
            None => if list.last().in_flight == 0 && !reapable(list.last(), now) {
                Some(list.len() - 1)
            } else {
                None
            },
        }
    }
}

fn is_stranded(i: &Instance, now: u64) -> (r: bool)
    ensures
        r == stranded(*i, now),
{
    i.state == InstanceState::Loading && now > i.last_active && now - i.last_active > 2
        * SPAWN_TIMEOUT * NANOS_PER_SEC
}

fn is_reapable(i: &Instance, now: u64) -> (r: bool)
    ensures
        r == reapable(*i, now),
{
    (i.state == InstanceState::Failed && i.in_flight == 0) || is_stranded(i, now)
}

/// What is found in one pass over a list.
struct Survey {
    stranded: Vec<u64>,
    staying: usize,
    expired: Vec<u64>,
    idle: Option<usize>,
}

fn survey(list: &Vec<Instance>, ttl: u64, now: u64) -> (r: Survey)
    ensures
        r.stranded@ == stranded_keys(list@, now),
        r.staying == staying_count(list@, now),
        r.expired@ == expired_keys(list@, ttl, now),
        r.idle is Some <==> first_idle(list@, now) is Some,
        r.idle matches Some(i) ==> first_idle(list@, now) == Some(i as int) && i < list@.len(),
{
    let mut stranded: Vec<u64> = Vec::new();
    let mut staying: usize = 0;
    let mut expired: Vec<u64> = Vec::new();
    let mut idle: Option<usize> = None;
    assert(list@.take(0) =~= Seq::<Instance>::empty());
    for i in 0..list.len()
        invariant
            stranded@ == stranded_keys(list@.take(i as int), now),
            staying == staying_count(list@.take(i as int), now),
            staying <= i,
            expired@ == expired_keys(list@.take(i as int), ttl, now),
            idle is Some <==> first_idle(list@.take(i as int), now) is Some,
            idle matches Some(k) ==> first_idle(list@.take(i as int), now) == Some(k as int) && k < i,
    {
        proof {
            assert(list@.take(i + 1).drop_last() =~= list@.take(i as int));
            assert(list@.take(i + 1).last() == list@[i as int]);
        }
        if is_stranded(&list[i], now) {
            stranded.push(list[i].key);
        }
        let stays = !is_reapable(&list[i], now);
        if stays {
            staying += 1;
        }
        if list[i].is_idle_expired(ttl, now) {
            expired.push(list[i].key);
        }
        if idle.is_none() && stays && list[i].in_flight == 0 {
            idle = Some(i);
        }
    }
    assert(list@.take(list@.len() as int) =~= list@);
    Survey { stranded, staying, expired, idle }
}

// ── Decision ────────────────────────────────────────────────────────────────

/// What is done with a model.
pub enum ScaleStep {
    Nothing,
    /// These instances have been idle for too long: shut them down and
    /// unregister them.
    Evict(Vec<u64>),
    /// Start a spawn.
    ScaleUp,
    /// Shut this instance down and unregister it.
    ScaleDown(u64),
}

/// The same, as mathematical values.
pub enum ScaleView {
    Nothing,
    Evict(Seq<u64>),
    ScaleUp,
    ScaleDown(u64),
}

impl View for ScaleStep {
    type V = ScaleView;

    open spec fn view(&self) -> ScaleView {
        match self {
            ScaleStep::Nothing => ScaleView::Nothing,
            ScaleStep::Evict(keys) => ScaleView::Evict(keys@),
            ScaleStep::ScaleUp => ScaleView::ScaleUp,
            ScaleStep::ScaleDown(key) => ScaleView::ScaleDown(*key),
        }
    }
}

/// The first `n` members, or all where there are fewer.
pub open spec fn at_most(keys: Seq<u64>, n: int) -> Seq<u64> {
    if keys.len() <= n {
        keys
    } else {
        keys.take(n)
    }
}

/// The autoscaling of a model is on.
pub open spec fn scales(cfg: ModelConfig) -> bool {
    cfg.autoscale matches Some(a) && a.enabled
}

impl State {
    /// The last scale action of a model was too recent for another one.
    pub open spec fn cooling(self, name: Seq<char>, cfg: ModelConfig, now: u64) -> bool {
        scales(cfg) && self.last_scale_action.dom().contains(name) && elapsed_secs(
            self.last_scale_action[name],
            now,
        ) < cfg.autoscale->0.cooldown_secs
    }

    /// What is done with a model: the last instance is despawned once its
    /// idle time is up; without autoscaling, surplus idle instances go;
    /// otherwise the load decides, within the cooldown and the limits. `high`
    /// and `low` tell how the load compares with the thresholds.
    pub open spec fn scale_step(
        self,
        name: Seq<char>,
        cfg: ModelConfig,
        high: bool,
        low: bool,
        now: u64,
    ) -> ScaleView {
        let list = self.list(name);
        let n = staying_count(list, now);
        let expired = expired_keys(list, cfg.idle_ttl, now);
        if n == 0 || !self.metrics.dom().contains(name) {
            ScaleView::Nothing
        } else if n == 1 && expired.len() > 0 {
            ScaleView::Evict(expired)
        } else if !scales(cfg) {
            ScaleView::Evict(at_most(expired, n - 1))
        } else if self.cooling(name, cfg, now) {
            ScaleView::Nothing
        } else if n < cfg.max_instances && high {
            if self.spawning.contains(name) {
                ScaleView::Nothing
            } else {
                ScaleView::ScaleUp
            }
        } else if n > 1 && low {
            match first_idle(list, now) {
                Some(i) => ScaleView::ScaleDown(list[i].key),
                None => ScaleView::Nothing,
            }
        } else {
            ScaleView::Nothing
        }
    }

    /// Several instances stop taking requests.
    pub open spec fn retire_keys(self, name: Seq<char>, keys: Seq<u64>) -> State
        decreases keys.len(),
    {
        if keys.len() == 0 {
            self
        } else {
            self.retire_keys(name, keys.drop_last()).with_state(
                name,
                keys.last(),
                InstanceState::Failed,
            )
        }
    }

    /// The state after a step.
    pub open spec fn scaled(self, name: Seq<char>, step: ScaleView, now: u64) -> State {
        match step {
            ScaleView::Nothing => self,
            ScaleView::Evict(keys) => self.retire_keys(name, keys),
            ScaleView::ScaleUp => State {
                spawning: self.spawning.insert(name),
                last_scale_action: self.last_scale_action.insert(name, now),
                ..self
            },
            ScaleView::ScaleDown(key) => State {
                last_scale_action: self.last_scale_action.insert(name, now),
                ..self.with_state(name, key, InstanceState::Failed)
            },
        }
    }
}

/// What is to be done with a model: first the instances to be reaped are shut
/// down and unregistered, then the step is carried out.
pub struct ScalePlan {
    pub reap: Vec<u64>,
    pub step: ScaleStep,
}

fn cut(keys: Vec<u64>, n: usize) -> (r: Vec<u64>)
    ensures
        r@ == at_most(keys@, n as int),
{
    let mut out = keys;
    if out.len() > n {
        out.truncate(n);
    }
    out
}

impl InstanceManager {
    fn fail_keys(&mut self, model_name: &str, keys: &Vec<u64>)
        requires
            old(self).wf(),
        ensures
            final(self).wf(),
            final(self)@ == old(self)@.retire_keys(model_name@, keys@),
    {
        assert(keys@.take(0) =~= Seq::<u64>::empty());
        for i in 0..keys.len()
            invariant
                self.wf(),
                self@ == old(self)@.retire_keys(model_name@, keys@.take(i as int)),
        {
            proof {
                assert(keys@.take(i + 1).drop_last() =~= keys@.take(i as int));
                assert(keys@.take(i + 1).last() == keys@[i as int]);
            }
            self.set_state(model_name, keys[i], InstanceState::Failed);
        }
        assert(keys@.take(keys@.len() as int) =~= keys@);
    }

    fn is_cooling(&self, model_name: &str, cooldown_secs: u64, now: u64) -> (r: bool)
        requires
            self.wf(),
        ensures
            r == (self@.last_scale_action.dom().contains(model_name@) && elapsed_secs(
                self@.last_scale_action[model_name@],
                now,
            ) < cooldown_secs),
    {
        match self.last_scale_action.get(model_name) {
            Some(t) => secs_since(*t, now) < cooldown_secs,
            None => false,
        }
    }

    /// Decides a step. The loads are only asked for where they matter.
    fn decide<F: Fn(u64, u128) -> bool, G: Fn(u64, u128) -> bool>(
        &self,
        model_name: &str,
        cfg: &ModelConfig,
        seen: Survey,
        load_above: F,
        load_below: G,
        now: u64,
    ) -> (r: ScaleStep)
        requires
            self.wf(),
            seen.staying == staying_count(self@.list(model_name@), now),
            seen.expired@ == expired_keys(self@.list(model_name@), cfg.idle_ttl, now),
            seen.idle is Some <==> first_idle(self@.list(model_name@), now) is Some,
            seen.idle matches Some(i) ==> first_idle(self@.list(model_name@), now) == Some(i as int)
                && i < self@.list(model_name@).len(),
            forall|bits: u64, capacity: u128| call_requires(load_above, (bits, capacity)),
            forall|bits: u64, capacity: u128| call_requires(load_below, (bits, capacity)),
        ensures
            exists|high: bool, low: bool|
                r@ == #[trigger] self@.scale_step(model_name@, *cfg, high, low, now) && loads_fit(
                    self@,
                    model_name@,
                    *cfg,
                    load_above,
                    load_below,
                    high,
                    low,
                    now,
                ),
    {
        let n: usize = seen.staying;
        let ghost s = self@;
        let ghost name = model_name@;
        if n == 0 || !self.model_metrics.contains(model_name) {
            proof {
                assert(ScaleStep::Nothing@ == s.scale_step(name, *cfg, true, true, now));
            }
            return ScaleStep::Nothing;
        }
        if n == 1 && seen.expired.len() > 0 {
            let step = ScaleStep::Evict(seen.expired);
            assert(step@ == s.scale_step(name, *cfg, true, true, now));
            return step;
        }
        let a = match cfg.autoscale {
            Some(a) => a,
            None => {
                let step = ScaleStep::Evict(cut(seen.expired, n - 1));
                assert(step@ == s.scale_step(name, *cfg, true, true, now));
                return step;
            },
        };
        if !a.enabled {
            let step = ScaleStep::Evict(cut(seen.expired, n - 1));
            assert(step@ == s.scale_step(name, *cfg, true, true, now));
            return step;
        }
        if self.is_cooling(model_name, a.cooldown_secs, now) {
            assert(ScaleStep::Nothing@ == s.scale_step(name, *cfg, true, true, now));
            return ScaleStep::Nothing;
        }
        if n < cfg.max_instances {
            let capacity: u128 = serve_capacity(cfg, n);
            if load_above(a.scale_up_at, capacity) {
                let step = if self.spawns_in_flight.contains(model_name) {
                    ScaleStep::Nothing
                } else {
                    ScaleStep::ScaleUp
                };
                assert(step@ == s.scale_step(name, *cfg, true, true, now));
                return step;
            }
        }
        if n > 1 {
            let capacity: u128 = serve_capacity(cfg, n - 1);
            if load_below(a.scale_down_at, capacity) {
                let step = match seen.idle {
                    Some(i) => match self.instances.get(model_name) {
                        Some(list) => ScaleStep::ScaleDown(list[i].key),
                        None => ScaleStep::Nothing,
                    },
                    None => ScaleStep::Nothing,
                };
                assert(step@ == s.scale_step(name, *cfg, false, true, now));
                return step;
            }
        }
        assert(ScaleStep::Nothing@ == s.scale_step(name, *cfg, false, false, now));
        ScaleStep::Nothing
    }

    /// Evaluates the scaling of one model. `load_above` compares the 5-minute
    /// load average, `load_below` the 15-minute one, with a threshold (the
    /// bits of a fraction) times a capacity.
    pub fn evaluate_autoscale<F: Fn(u64, u128) -> bool, G: Fn(u64, u128) -> bool>(
        &mut self,
        model_name: &str,
        load_above: F,
        load_below: G,
        now: u64,
    ) -> (r: ScalePlan)
        requires
            old(self).wf(),
            forall|bits: u64, capacity: u128| call_requires(load_above, (bits, capacity)),
            forall|bits: u64, capacity: u128| call_requires(load_below, (bits, capacity)),
        ensures
            final(self).wf(),
            !old(self)@.settings.models@.dom().contains(model_name@) ==> r.reap@.len() == 0 && r.step@
                == ScaleView::Nothing && final(self)@ == old(self)@,
            old(self)@.settings.models@.dom().contains(model_name@) ==> {
                let cfg = old(self)@.settings.models@[model_name@];
                &&& r.reap@ == drained_keys(old(self)@.list(model_name@)) + stranded_keys(
                    old(self)@.list(model_name@),
                    now,
                )
                &&& exists|high: bool, low: bool|
                    r.step@ == #[trigger] old(self)@.scale_step(model_name@, cfg, high, low, now)
                        && loads_fit(
                        old(self)@,
                        model_name@,
                        cfg,
                        load_above,
                        load_below,
                        high,
                        low,
                        now,
                    )
                &&& r.step@ is ScaleUp ==> old(self)@.list(model_name@).len() - r.reap@.len()
                    < cfg.max_instances && call_ensures(
                    load_above,
                    (
                        cfg.autoscale->0.scale_up_at,
                        (cfg.max_concurrent * (old(self)@.list(model_name@).len()
                            - r.reap@.len())) as u128,
                    ),
                    true,
                )
                &&& r.step@ is ScaleDown ==> old(self)@.list(model_name@).len() - r.reap@.len() > 1
                    && call_ensures(
                    load_below,
                    (
                        cfg.autoscale->0.scale_down_at,
                        (cfg.max_concurrent * (old(self)@.list(model_name@).len() - r.reap@.len()
                            - 1)) as u128,
                    ),
                    true,
                )
                &&& final(self)@ == old(self)@.retire_keys(model_name@, r.reap@).scaled(
                    model_name@,
                    r.step@,
                    now,
                )
            },
    {
        let ttl: u64 = match self.settings.models.get(model_name) {
            Some(cfg) => cfg.idle_ttl,
            None => {
                return ScalePlan { reap: Vec::new(), step: ScaleStep::Nothing };
            },
        };
        let mut reap = self.reap_drained(model_name);
        let mut seen = match self.instances.get(model_name) {
            Some(list) => survey(list, ttl, now),
            None => Survey {
                stranded: Vec::new(),
                staying: 0,
                expired: Vec::new(),
                idle: None,
            },
        };
        let ghost drained = reap@;
        let ghost stuck = seen.stranded@;
        reap.append(&mut seen.stranded);
        assert(reap@ =~= drained + stuck);
        assert(stuck =~= stranded_keys(self@.list(model_name@), now));
        assert(seen.expired@ =~= expired_keys(self@.list(model_name@), ttl, now));
        let step = match self.settings.models.get(model_name) {
            Some(cfg) => self.decide(model_name, cfg, seen, load_above, load_below, now),
            None => ScaleStep::Nothing,
        };
        proof {
            if old(self)@.settings.models@.dom().contains(model_name@) {
                let cfg = old(self)@.settings.models@[model_name@];
                let (high, low) = choose|high: bool, low: bool|
                    step@ == #[trigger] old(self)@.scale_step(model_name@, cfg, high, low, now)
                        && loads_fit(
                        old(self)@,
                        model_name@,
                        cfg,
                        load_above,
                        load_below,
                        high,
                        low,
                        now,
                    );
                law_scaling_follows_the_load(
                    old(self)@,
                    model_name@,
                    cfg,
                    load_above,
                    load_below,
                    high,
                    low,
                    now,
                );
            }
        }
        self.fail_keys(model_name, &reap);
        let ghost s = self@;
        match &step {
            ScaleStep::Nothing => {},
            ScaleStep::Evict(keys) => {
                self.fail_keys(model_name, keys);
            },
            ScaleStep::ScaleUp => {
                let _ = self.ensure_spawn(model_name);
                self.last_scale_action.insert(model_name, now);
            },
            ScaleStep::ScaleDown(key) => {
                self.set_state(model_name, *key, InstanceState::Failed);
                self.last_scale_action.insert(model_name, now);
            },
        }
        assert(self@ =~= s.scaled(model_name@, step@, now));
        ScalePlan { reap, step }
    }
}

/// `high` and `low` are what the loads were found to be, where they matter.
pub open spec fn loads_fit<F: Fn(u64, u128) -> bool, G: Fn(u64, u128) -> bool>(
    s: State,
    name: Seq<char>,
    cfg: ModelConfig,
    load_above: F,
    load_below: G,
    high: bool,
    low: bool,
    now: u64,
) -> bool {
    let n = staying_count(s.list(name), now);
    let undecided = n > 0 && s.metrics.dom().contains(name) && !(n == 1 && expired_keys(
        s.list(name),
        cfg.idle_ttl,
        now,
    ).len() > 0) && scales(cfg) && !s.cooling(name, cfg, now);
    &&& undecided && n < cfg.max_instances ==> call_ensures(
        load_above,
        (cfg.autoscale->0.scale_up_at, capacity_of(cfg, n)),
        high,
    )
    &&& undecided && !(n < cfg.max_instances && high) && n > 1 ==> call_ensures(
        load_below,
        (cfg.autoscale->0.scale_down_at, capacity_of(cfg, (n - 1) as nat)),
        low,
    )
}

// ── Laws ────────────────────────────────────────────────────────────────────

/// A key belongs to an instance of the list that has no request in flight.
pub open spec fn names_idle(list: Seq<Instance>, key: u64) -> bool {
    exists|i: int| 0 <= i < list.len() && (#[trigger] list[i]).key == key && list[i].in_flight == 0
}

proof fn lemma_expired_idle(list: Seq<Instance>, ttl: u64, now: u64, k: int)
    requires
        0 <= k < expired_keys(list, ttl, now).len(),
    ensures
        names_idle(list, expired_keys(list, ttl, now)[k]),
    decreases list.len(),
{
    if list.len() > 0 {
        let front = list.drop_last();
        let key = expired_keys(list, ttl, now)[k];
        if k < expired_keys(front, ttl, now).len() {
            lemma_expired_idle(front, ttl, now, k);
            let i = choose|i: int|
                0 <= i < front.len() && (#[trigger] front[i]).key == key && front[i].in_flight == 0;
            assert(list[i].key == key);
        } else {
            assert(list[list.len() - 1].key == key);
        }
    }
}

proof fn lemma_first_idle(list: Seq<Instance>, now: u64)
    ensures
        first_idle(list, now) matches Some(i) ==> 0 <= i < list.len() && list[i].in_flight == 0,
    decreases list.len(),
{
    if list.len() > 0 {
        lemma_first_idle(list.drop_last(), now);
    }
}

/// Scaling never interrupts a request: whatever the load, only instances
/// without requests in flight are evicted or scaled down.
pub proof fn law_scaling_spares_busy_instances(
    s: State,
    name: Seq<char>,
    cfg: ModelConfig,
    high: bool,
    low: bool,
    now: u64,
)
    ensures
        s.scale_step(name, cfg, high, low, now) matches ScaleView::Evict(keys) ==> forall|k: int|
            0 <= k < keys.len() ==> names_idle(s.list(name), #[trigger] keys[k]),
        s.scale_step(name, cfg, high, low, now) matches ScaleView::ScaleDown(key) ==> names_idle(
            s.list(name),
            key,
        ),
{
    let list = s.list(name);
    match s.scale_step(name, cfg, high, low, now) {
        ScaleView::Evict(keys) => {
            assert forall|k: int| 0 <= k < keys.len() implies names_idle(list, #[trigger] keys[k]) by {
                assert(keys[k] == expired_keys(list, cfg.idle_ttl, now)[k]);
                lemma_expired_idle(list, cfg.idle_ttl, now, k);
            }
        },
        ScaleView::ScaleDown(key) => {
            lemma_first_idle(list, now);
            let i = first_idle(list, now)->0;
            assert(list[i].key == key);
        },
        _ => {},
    }
}

/// Where more than one instance is left, one stays: only the last instance of
/// a model can be despawned to none, and only because its idle time is up.
pub proof fn law_scaling_leaves_one(
    s: State,
    name: Seq<char>,
    cfg: ModelConfig,
    high: bool,
    low: bool,
    now: u64,
)
    ensures
        staying_count(s.list(name), now) > 1 ==> (s.scale_step(
            name,
            cfg,
            high,
            low,
            now,
        ) matches ScaleView::Evict(keys) ==> keys.len() < staying_count(s.list(name), now)),
        s.scale_step(name, cfg, high, low, now) is ScaleDown ==> staying_count(s.list(name), now)
            > 1,
{
}

/// Within the cooldown no scale action takes place, a model is never scaled
/// past its limit, and no second spawn is started while one is in flight.
pub proof fn law_scale_actions_are_bounded(
    s: State,
    name: Seq<char>,
    cfg: ModelConfig,
    high: bool,
    low: bool,
    now: u64,
)
    ensures
        s.cooling(name, cfg, now) ==> !(s.scale_step(name, cfg, high, low, now) is ScaleUp)
            && !(s.scale_step(name, cfg, high, low, now) is ScaleDown),
        s.scale_step(name, cfg, high, low, now) is ScaleUp ==> staying_count(s.list(name), now)
            < cfg.max_instances && !s.spawning.contains(name),
{
}

proof fn lemma_loading_not_expired(list: Seq<Instance>, ttl: u64, now: u64)
    requires
        forall|i: int| 0 <= i < list.len() ==> (#[trigger] list[i]).state == InstanceState::Loading,
    ensures
        expired_keys(list, ttl, now).len() == 0,
    decreases list.len(),
{
    if list.len() > 0 {
        let front = list.drop_last();
        assert forall|i: int| 0 <= i < front.len() implies (#[trigger] front[i]).state
            == InstanceState::Loading by {
            assert(front[i] == list[i]);
        }
        assert(list[list.len() - 1].state == InstanceState::Loading);
        lemma_loading_not_expired(front, ttl, now);
    }
}

/// Instances that are still loading are never evicted for being idle.
pub proof fn law_loading_instances_are_not_evicted(
    s: State,
    name: Seq<char>,
    cfg: ModelConfig,
    high: bool,
    low: bool,
    now: u64,
)
    requires
        forall|i: int|
            0 <= i < s.list(name).len() ==> (#[trigger] s.list(name)[i]).state
                == InstanceState::Loading,
    ensures
        s.scale_step(name, cfg, high, low, now) matches ScaleView::Evict(keys) ==> keys.len() == 0,
{
    lemma_loading_not_expired(s.list(name), cfg.idle_ttl, now);
}

/// What is reaped: instances that take no more requests and have none in
/// flight, and those that have been loading for over four minutes. All others
/// stay, and only ready ones without requests whose time is up count as idle.
pub proof fn law_what_is_reaped(list: Seq<Instance>, ttl: u64, now: u64)
    ensures
        drained_keys(list) == list.filter(
            |i: Instance| i.state == InstanceState::Failed && i.in_flight == 0,
        ).map_values(|i: Instance| i.key),
        stranded_keys(list, now) == list.filter(
            |i: Instance|
                i.state == InstanceState::Loading && now - i.last_active > 240_000_000_000,
        ).map_values(|i: Instance| i.key),
        staying_count(list, now) == list.filter(
            |i: Instance|
                !(i.state == InstanceState::Failed && i.in_flight == 0) && !(i.state
                    == InstanceState::Loading && now - i.last_active > 240_000_000_000),
        ).len(),
        staying_count(list, now) + drained_keys(list).len() + stranded_keys(list, now).len()
            == list.len(),
        expired_keys(list, ttl, now) == list.filter(
            |i: Instance|
                i.state == InstanceState::Ready && i.in_flight == 0 && (ttl == 0 || now
                    - i.last_active >= ttl * 1_000_000_000),
        ).map_values(|i: Instance| i.key),
    decreases list.len(),
{
    reveal(Seq::filter);
    law_drained(list);
    let stuck = |i: Instance|
        i.state == InstanceState::Loading && now - i.last_active > 240_000_000_000;
    let old = |i: Instance|
        i.state == InstanceState::Ready && i.in_flight == 0 && (ttl == 0 || now - i.last_active
            >= ttl * 1_000_000_000);
    let key = |i: Instance| i.key;
    if list.len() > 0 {
        let front = list.drop_last();
        law_what_is_reaped(front, ttl, now);
        law_idle_time(list.last(), ttl, now);
        assert(front.filter(stuck).push(list.last()).map_values(key) =~= front.filter(
            stuck,
        ).map_values(key).push(list.last().key));
        assert(front.filter(old).push(list.last()).map_values(key) =~= front.filter(old).map_values(
            key,
        ).push(list.last().key));
    } else {
        assert(list.filter(stuck).map_values(key) =~= Seq::<u64>::empty());
        assert(list.filter(old).map_values(key) =~= Seq::<u64>::empty());
    }
}

/// The instance that is scaled down is the first that stays and has no request
/// in flight; there is none only where every staying instance is busy.
pub proof fn law_which_is_scaled_down(list: Seq<Instance>, now: u64)
    ensures
        first_idle(list, now) matches Some(k) ==> 0 <= k < list.len() && list[k].in_flight == 0
            && list[k].state != InstanceState::Failed && !(list[k].state == InstanceState::Loading
            && now - list[k].last_active > 240_000_000_000) && (forall|j: int|
            0 <= j < k ==> (#[trigger] list[j]).in_flight > 0 || list[j].state
                == InstanceState::Failed || (list[j].state == InstanceState::Loading && now
                - list[j].last_active > 240_000_000_000)),
        first_idle(list, now) is None ==> forall|j: int|
            0 <= j < list.len() ==> (#[trigger] list[j]).in_flight > 0 || list[j].state
                == InstanceState::Failed || (list[j].state == InstanceState::Loading && now
                - list[j].last_active > 240_000_000_000),
    decreases list.len(),
{
    if list.len() > 0 {
        let front = list.drop_last();
        law_which_is_scaled_down(front, now);
        assert forall|j: int| 0 <= j < front.len() implies #[trigger] list[j] == front[j] by {}
    }
}

/// When a model is scaled. One instance whose idle time is up goes, so that a
/// model without requests is despawned to none. Without autoscaling, idle ones
/// go too, but for one. With it, the model grows by one instance where the load
/// is high and it has less than it may have, and shrinks by an idle one where
/// the load is low and it has more than one, but not within the cooldown of the
/// last such step, and no second spawn is started while one is in flight.
pub proof fn law_when_a_model_scales(
    s: State,
    name: Seq<char>,
    cfg: ModelConfig,
    high: bool,
    low: bool,
    now: u64,
)
    requires
        s.metrics.dom().contains(name),
    ensures
        ({
            let list = s.list(name);
            let n = list.len() - drained_keys(list).len() - stranded_keys(list, now).len();
            let expired = expired_keys(list, cfg.idle_ttl, now);
            let on = cfg.autoscale is Some && cfg.autoscale->0.enabled;
            let cooling = s.last_scale_action.dom().contains(name) && now
                - s.last_scale_action[name] < cfg.autoscale->0.cooldown_secs * 1_000_000_000
                && cfg.autoscale->0.cooldown_secs > 0;
            let step = s.scale_step(name, cfg, high, low, now);
            let idle = exists|j: int|
                0 <= j < list.len() && (#[trigger] list[j]).in_flight == 0 && list[j].state
                    != InstanceState::Failed && !(list[j].state == InstanceState::Loading && now
                    - list[j].last_active > 240_000_000_000);
            &&& n == 0 ==> step is Nothing
            &&& n == 1 && expired.len() > 0 ==> step == ScaleView::Evict(expired)
            &&& n == 1 && expired.len() == 0 && !on ==> step == ScaleView::Evict(Seq::empty())
            &&& n > 1 && !on ==> (step matches ScaleView::Evict(keys) && keys.is_prefix_of(expired)
                && keys.len() < n && (keys == expired || keys.len() == n - 1))
            &&& step is ScaleUp <==> n > 0 && !(n == 1 && expired.len() > 0) && on && !cooling && n
                < cfg.max_instances && high && !s.spawning.contains(name)
            &&& step is ScaleDown <==> n > 1 && on && !cooling && !(n < cfg.max_instances && high)
                && low && idle
            &&& step matches ScaleView::ScaleDown(key) ==> (exists|j: int|
                0 <= j < list.len() && (#[trigger] list[j]).key == key && list[j].in_flight == 0
                    && list[j].state != InstanceState::Failed)
        }),
{
    let list = s.list(name);
    law_what_is_reaped(list, cfg.idle_ttl, now);
    law_which_is_scaled_down(list, now);
    let expired = expired_keys(list, cfg.idle_ttl, now);
    let n = staying_count(list, now);
    if n == 1 && expired.len() == 0 && !scales(cfg) {
        assert(expired =~= Seq::<u64>::empty());
    }
    if n > 0 {
        assert(at_most(expired, n - 1).is_prefix_of(expired));
    }
}

/// A model is scaled up because the load was found to be above its threshold
/// for that, times what the instances that are left can serve at once; and
/// down because it was found to be below its other threshold, times what one
/// instance less can serve.
pub proof fn law_scaling_follows_the_load<F: Fn(u64, u128) -> bool, G: Fn(u64, u128) -> bool>(
    s: State,
    name: Seq<char>,
    cfg: ModelConfig,
    load_above: F,
    load_below: G,
    high: bool,
    low: bool,
    now: u64,
)
    requires
        loads_fit(s, name, cfg, load_above, load_below, high, low, now),
    ensures
        ({
            let list = s.list(name);
            let n = list.len() - drained_keys(list).len() - stranded_keys(list, now).len();
            let step = s.scale_step(name, cfg, high, low, now);
            &&& step is ScaleUp ==> n < cfg.max_instances && call_ensures(
                load_above,
                (cfg.autoscale->0.scale_up_at, (cfg.max_concurrent * n) as u128),
                true,
            )
            &&& step is ScaleDown ==> n > 1 && call_ensures(
                load_below,
                (cfg.autoscale->0.scale_down_at, (cfg.max_concurrent * (n - 1)) as u128),
                true,
            )
        }),
{
    law_what_is_reaped(s.list(name), cfg.idle_ttl, now);
}

/// What a step leaves behind. Instances that are evicted or scaled down take no
/// more requests; a scale-up is noted as a spawn under way. A scale-up and a
/// scale-down begin the cooldown, and an eviction does not.
pub proof fn law_what_a_step_changes(
    s: State,
    name: Seq<char>,
    keys: Seq<u64>,
    key: u64,
    now: u64,
    i: int,
)
    requires
        s.sound(),
        0 <= i < s.list(name).len(),
    ensures
        s.scaled(name, ScaleView::Nothing, now) == s,
        s.scaled(name, ScaleView::ScaleUp, now) == (State {
            spawning: s.spawning.insert(name),
            last_scale_action: s.last_scale_action.insert(name, now),
            ..s
        }),
        s.scaled(name, ScaleView::ScaleDown(key), now).last_scale_action
            == s.last_scale_action.insert(name, now),
        s.scaled(name, ScaleView::ScaleDown(key), now).spawning == s.spawning,
        s.scaled(name, ScaleView::ScaleDown(key), now).list(name)[i] == if s.list(name)[i].key
            == key {
            Instance { state: InstanceState::Failed, ..s.list(name)[i] }
        } else {
            s.list(name)[i]
        },
        s.scaled(name, ScaleView::Evict(keys), now).last_scale_action == s.last_scale_action,
        s.scaled(name, ScaleView::Evict(keys), now).spawning == s.spawning,
        s.scaled(name, ScaleView::Evict(keys), now).list(name).len() == s.list(name).len(),
        s.scaled(name, ScaleView::Evict(keys), now).list(name)[i] == if keys.contains(
            s.list(name)[i].key,
        ) {
            Instance { state: InstanceState::Failed, ..s.list(name)[i] }
        } else {
            s.list(name)[i]
        },
{
    lemma_key_index(s.list(name), key);
    lemma_retired_members(s, name, keys, i);
}

/// Retiring several instances marks these and no others.
proof fn lemma_retired_members(s: State, name: Seq<char>, keys: Seq<u64>, i: int)
    requires
        s.sound(),
        0 <= i < s.list(name).len(),
    ensures
        ({
            let t = s.retire_keys(name, keys);
            &&& t == (State { instances: t.instances, ..s })
            &&& t.list(name).len() == s.list(name).len()
            &&& forall|j: int|
                0 <= j < s.list(name).len() ==> (#[trigger] t.list(name)[j]).key == s.list(
                    name,
                )[j].key
            &&& t.list(name)[i] == if keys.contains(s.list(name)[i].key) {
                Instance { state: InstanceState::Failed, ..s.list(name)[i] }
            } else {
                s.list(name)[i]
            }
        }),
    decreases keys.len(),
{
    if keys.len() > 0 {
        let front = keys.drop_last();
        let key = keys.last();
        lemma_retired_members(s, name, front, i);
        let u = s.retire_keys(name, front);
        let t = s.retire_keys(name, keys);
        lemma_key_index(u.list(name), key);
        let mine = s.list(name)[i].key;
        assert(u.list(name)[i].key == mine);
        assert(keys.contains(mine) <==> front.contains(mine) || mine == key) by {
            if front.contains(mine) {
                let k = front.index_of(mine);
                assert(keys[k] == mine);
            }
            if mine == key {
                assert(keys[keys.len() - 1] == mine);
            }
            if keys.contains(mine) && mine != key {
                let k = keys.index_of(mine);
                assert(front[k] == mine);
            }
        }
        if let Some(p) = key_index(u.list(name), key) {
            if mine == key && p != i {
                assert(s.list(name)[p].key == key);
                assert(s.list(name)[i].key == key);
            }
        } else {
            assert(mine != key);
        }
    } else {
        assert(s == (State { instances: s.instances, ..s }));
    }
}

} // verus!

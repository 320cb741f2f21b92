//! What the endpoints decide: routing, the requests that are forwarded, and
//! what is recorded of the replies.

use vstd::prelude::*;
use crate::config::{AliasConfig, AliasPolicy, Config, MakeRoomMode, ModelConfig};
use crate::json::option_text;
use crate::numbers::{decimal, to_decimal};
use crate::scheduler::{at, InstanceManager, State};
use crate::server::{ApiError, ApiProblem};
use crate::text::{cat3, same_text, texts};
use crate::types::{
    copy_records, record_views, AdminResponse, AliasInfo, ModelEntry, ModelInfo, ModelsResponse,
};

verus! {

// ── Names ───────────────────────────────────────────────────────────────────

/// The first alias with a name.
pub open spec fn alias_named(aliases: Seq<AliasConfig>, name: Seq<char>) -> Option<AliasConfig>
    decreases aliases.len(),
{
    if aliases.len() == 0 {
        None
    } else {
        match alias_named(aliases.drop_last(), name) {
            Some(a) => Some(a),
            None => if aliases.last().name@ == name {
                Some(aliases.last())
            } else {
                None
            },
        }
    }
}

/// The first model with a name.
pub open spec fn model_named(models: Seq<ModelConfig>, name: Seq<char>) -> Option<ModelConfig>
    decreases models.len(),
{
    if models.len() == 0 {
        None
    } else {
        match model_named(models.drop_last(), name) {
            Some(m) => Some(m),
            None => if models.last().name@ == name {
                Some(models.last())
            } else {
                None
            },
        }
    }
}

fn find_alias<'a>(aliases: &'a Vec<AliasConfig>, name: &str) -> (r: Option<&'a AliasConfig>)
    ensures
        r is Some <==> alias_named(aliases@, name@) is Some,
        r matches Some(a) ==> alias_named(aliases@, name@) == Some(*a),
{
    let mut found: Option<&'a AliasConfig> = None;
    assert(aliases@.take(0) =~= Seq::<AliasConfig>::empty());
    for i in 0..aliases.len()
        invariant
            found is Some <==> alias_named(aliases@.take(i as int), name@) is Some,
            found matches Some(a) ==> alias_named(aliases@.take(i as int), name@) == Some(*a),
    {
        proof {
            assert(aliases@.take(i + 1).drop_last() =~= aliases@.take(i as int));
            assert(aliases@.take(i + 1).last() == aliases@[i as int]);
        }
        if found.is_none() && same_text(aliases[i].name.as_str(), name) {
            found = Some(&aliases[i]);
        }
    }
    assert(aliases@.take(aliases@.len() as int) =~= aliases@);
    found
}

fn find_model<'a>(models: &'a Vec<ModelConfig>, name: &str) -> (r: Option<&'a ModelConfig>)
    ensures
        r is Some <==> model_named(models@, name@) is Some,
        r matches Some(m) ==> model_named(models@, name@) == Some(*m),
{
    let mut found: Option<&'a ModelConfig> = None;
    assert(models@.take(0) =~= Seq::<ModelConfig>::empty());
    for i in 0..models.len()
        invariant
            found is Some <==> model_named(models@.take(i as int), name@) is Some,
            found matches Some(m) ==> model_named(models@.take(i as int), name@) == Some(*m),
    {
        proof {
            assert(models@.take(i + 1).drop_last() =~= models@.take(i as int));
            assert(models@.take(i + 1).last() == models@[i as int]);
        }
        if found.is_none() && same_text(models[i].name.as_str(), name) {
            found = Some(&models[i]);
        }
    }
    assert(models@.take(models@.len() as int) =~= models@);
    found
}

fn copy_texts(v: &Vec<String>) -> (r: Vec<String>)
    ensures
        texts(r@) == texts(v@),
{
    let mut out: Vec<String> = Vec::new();
    for i in 0..v.len()
        invariant
            texts(out@) == texts(v@.take(i as int)),
    {
        let ghost before = out@;
        out.push(v[i].clone());
        assert(texts(out@) =~= texts(before).push(v@[i as int]@));
        assert(texts(v@.take(i + 1)) =~= texts(v@.take(i as int)).push(v@[i as int]@));
    }
    assert(v@.take(v@.len() as int) =~= v@);
    out
}

/// Resolves a requested model name. An alias resolves to its targets, in
/// order, and its eviction settings; any other name stands for itself, and
/// never evicts.
pub fn resolve_alias(aliases: &Vec<AliasConfig>, requested_model: &str) -> (r: (
    Vec<String>,
    AliasPolicy,
    MakeRoomMode,
    u64,
))
    ensures
        match alias_named(aliases@, requested_model@) {
            Some(a) => texts(r.0@) == texts(a.targets@) && r.1 == a.policy && r.2 == a.make_room
                && r.3 == a.drain_timeout,
            None => texts(r.0@) == seq![requested_model@] && r.1 == AliasPolicy::PreferLoaded && r.2
                == MakeRoomMode::Never && r.3 == 0,
        },
{
    match find_alias(aliases, requested_model) {
        Some(a) => (copy_texts(&a.targets), a.policy, a.make_room, a.drain_timeout),
        None => {
            let mut only: Vec<String> = Vec::new();
            only.push(requested_model.to_owned());
            assert(texts(only@) =~= seq![requested_model@]);
            (only, AliasPolicy::PreferLoaded, MakeRoomMode::Never, 0)
        },
    }
}

/// The model that a request is routed to: the first target of an alias, or
/// the name itself.
pub open spec fn routed_name(aliases: Seq<AliasConfig>, requested: Seq<char>) -> Seq<char> {
    match alias_named(aliases, requested) {
        Some(a) => if a.targets@.len() > 0 {
            a.targets@[0]@
        } else {
            Seq::empty()
        },
        None => requested,
    }
}

// ── Routes ──────────────────────────────────────────────────────────────────

/// Where a request goes.
#[derive(Debug)]
pub struct Route {
    /// The resolved model name, which is forwarded to the backend.
    pub model_name: String,
    /// The name that the client sent.
    pub request_model: String,
    /// The debug log of the model.
    pub debug_log: Option<String>,
    /// Longest gap in a stream, in seconds; 0 for none.
    pub idle_timeout: u64,
    /// Longest time of an exchange, in seconds; 0 for none.
    pub total_timeout: u64,
}

/// `r` is the route of a request.
pub open spec fn is_route(r: Route, config: Config, requested: Seq<char>) -> bool {
    let name = routed_name(config.aliases@, requested);
    &&& r.model_name@ == name
    &&& r.request_model@ == requested
    &&& model_named(config.models@, name) matches Some(m)
    &&& option_text(r.debug_log) == option_text(m.debug_log)
    &&& r.idle_timeout == config.server.backend_idle_timeout_secs
    &&& r.total_timeout == config.server.backend_total_timeout_secs
}

fn copy_option(t: &Option<String>) -> (r: Option<String>)
    ensures
        option_text(r) == option_text(*t),
{
    match t {
        Some(s) => Some(s.clone()),
        None => None,
    }
}

/// Routes a request by the model that it names.
pub fn route(config: &Config, requested: &str) -> (r: Result<Route, ApiError>)
    ensures
        match model_named(config.models@, routed_name(config.aliases@, requested@)) {
            Some(_) => r matches Ok(to) && is_route(to, *config, requested@),
            None => r matches Err(e) && e@ == ApiProblem::ModelNotFound(
                routed_name(config.aliases@, requested@),
            ),
        },
{
    let (candidates, _policy, _make_room, _drain) = resolve_alias(&config.aliases, requested);
    let model_name = if candidates.len() > 0 {
        assert(texts(candidates@)[0] == candidates@[0]@);
        candidates[0].clone()
    } else {
        "".to_owned()
    };
    proof {
        if candidates@.len() == 0 {
            reveal_strlit("");
            assert(texts(candidates@).len() == 0);
            assert(model_name@ =~= Seq::<char>::empty());
        }
        match alias_named(config.aliases@, requested@) {
            Some(a) => {
                assert(texts(a.targets@).len() == a.targets@.len());
                if a.targets@.len() > 0 {
                    assert(texts(a.targets@)[0] == a.targets@[0]@);
                }
            },
            None => {},
        }
        assert(model_name@ == routed_name(config.aliases@, requested@));
    }
    match find_model(&config.models, model_name.as_str()) {
        Some(m) => Ok(
            Route {
                model_name,
                request_model: requested.to_owned(),
                debug_log: copy_option(&m.debug_log),
                idle_timeout: config.server.backend_idle_timeout_secs,
                total_timeout: config.server.backend_total_timeout_secs,
            },
        ),
        None => Err(ApiError::ModelNotFound(model_name)),
    }
}

/// Checks that a model is configured, for an operator's action on it.
pub fn known_model(config: &Config, name: &str) -> (r: Result<(), ApiError>)
    ensures
        match model_named(config.models@, name@) {
            Some(_) => r is Ok,
            None => r matches Err(e) && e@ == ApiProblem::ModelNotFound(name@),
        },
{
    match find_model(&config.models, name) {
        Some(_) => Ok(()),
        None => Err(ApiError::ModelNotFound(name.to_owned())),
    }
}

// ── Lists ───────────────────────────────────────────────────────────────────

/// The context length that an alias has: that of its first target.
pub open spec fn alias_context(models: Seq<ModelConfig>, a: AliasConfig) -> Option<usize> {
    if a.targets@.len() == 0 {
        None
    } else {
        match model_named(models, a.targets@[0]@) {
            Some(m) => Some(m.context_length),
            None => None,
        }
    }
}

/// An entry in the list of models.
pub open spec fn lists_as(
    e: ModelEntry,
    id: Seq<char>,
    context_length: Option<usize>,
    created: i64,
) -> bool {
    &&& e.id@ == id
    &&& e.object@ == "model"@
    &&& e.created == created
    &&& e.owned_by@ == "llm-orch"@
    &&& e.context_length == context_length
}

fn entry(id: &String, context_length: Option<usize>, created: i64) -> (r: ModelEntry)
    ensures
        lists_as(r, id@, context_length, created),
{
    ModelEntry {
        id: id.clone(),
        object: "model".to_owned(),
        created,
        owned_by: "llm-orch".to_owned(),
        context_length,
    }
}

/// Lists the models and then the aliases, which appear as models too.
pub fn list_models(config: &Config, created: i64) -> (r: ModelsResponse)
    ensures
        r.object@ == "list"@,
        r.data@.len() == config.models@.len() + config.aliases@.len(),
        forall|i: int|
            0 <= i < config.models@.len() ==> lists_as(
                #[trigger] r.data@[i],
                config.models@[i].name@,
                Some(config.models@[i].context_length),
                created,
            ),
        forall|i: int|
            0 <= i < config.aliases@.len() ==> lists_as(
                #[trigger] r.data@[config.models@.len() + i],
                config.aliases@[i].name@,
                alias_context(config.models@, config.aliases@[i]),
                created,
            ),
{
    let mut data: Vec<ModelEntry> = Vec::new();
    let n: usize = config.models.len();
    for i in 0..n
        invariant
            n == config.models@.len(),
            data@.len() == i,
            forall|j: int|
                0 <= j < i ==> lists_as(
                    #[trigger] data@[j],
                    config.models@[j].name@,
                    Some(config.models@[j].context_length),
                    created,
                ),
    {
        let m = &config.models[i];
        data.push(entry(&m.name, Some(m.context_length), created));
    }
    for i in 0..config.aliases.len()
        invariant
            n == config.models@.len(),
            data@.len() == n + i,
            forall|j: int|
                0 <= j < n ==> lists_as(
                    #[trigger] data@[j],
                    config.models@[j].name@,
                    Some(config.models@[j].context_length),
                    created,
                ),
            forall|j: int|
                0 <= j < i ==> lists_as(
                    #[trigger] data@[n + j],
                    config.aliases@[j].name@,
                    alias_context(config.models@, config.aliases@[j]),
                    created,
                ),
    {
        let a = &config.aliases[i];
        let context: Option<usize> = if a.targets.len() > 0 {
            match find_model(&config.models, a.targets[0].as_str()) {
                Some(m) => Some(m.context_length),
                None => None,
            }
        } else {
            None
        };
        data.push(entry(&a.name, context, created));
    }
    ModelsResponse { object: "list".to_owned(), data }
}

/// Lists the aliases with their targets.
pub fn alias_infos(config: &Config) -> (r: Vec<AliasInfo>)
    ensures
        r@.len() == config.aliases@.len(),
        forall|i: int|
            0 <= i < r@.len() ==> (#[trigger] r@[i]).name@ == config.aliases@[i].name@ && texts(
                r@[i].targets@,
            ) == texts(config.aliases@[i].targets@),
{
    let mut out: Vec<AliasInfo> = Vec::new();
    for i in 0..config.aliases.len()
        invariant
            out@.len() == i,
            forall|j: int|
                0 <= j < i ==> (#[trigger] out@[j]).name@ == config.aliases@[j].name@ && texts(
                    out@[j].targets@,
                ) == texts(config.aliases@[j].targets@),
    {
        let a = &config.aliases[i];
        out.push(AliasInfo { name: a.name.clone(), targets: copy_texts(&a.targets) });
    }
    out
}

/// `r` is what is known of a model at run time.
pub open spec fn describes_model(r: ModelInfo, s: State, m: ModelConfig) -> bool {
    let name = m.name@;
    &&& r.name@ == name
    &&& r.context_length == m.context_length
    &&& r.instance_count == s.list(name).len()
    &&& r.max_instances == m.max_instances
    &&& r.queue_depth_used == s.queue(name).len()
    &&& r.queue_depth_max == m.queue_depth
    &&& r.blocked == s.blocked.contains(name)
    &&& r.completions_total == (if s.metrics.dom().contains(name) {
        s.metrics[name].completions_total
    } else {
        0
    })
    &&& record_views(r.recent_completions@) == record_views(at(s.recent, name))
}

/// Describes a model at run time.
pub fn model_info(manager: &InstanceManager, m: &ModelConfig) -> (r: ModelInfo)
    requires
        manager.wf(),
    ensures
        describes_model(r, manager@, *m),
{
    let name = m.name.as_str();
    let instance_count: usize = match manager.instances.get(name) {
        Some(list) => list.len(),
        None => 0,
    };
    let completions_total: u64 = match manager.model_metrics.get(name) {
        Some(metrics) => metrics.completions_total,
        None => 0,
    };
    let recent_completions = match manager.recent_completions.get(name) {
        Some(list) => copy_records(list),
        None => Vec::new(),
    };
    assert(record_views(recent_completions@) =~= record_views(at(manager@.recent, name@)));
    ModelInfo {
        name: m.name.clone(),
        context_length: m.context_length,
        instance_count,
        max_instances: m.max_instances,
        queue_depth_used: manager.queue_depth(name),
        queue_depth_max: m.queue_depth,
        blocked: manager.is_blocked(name),
        completions_total,
        recent_completions,
    }
}

/// Describes all configured models at run time, in the order of the
/// configuration.
pub fn info_endpoint(manager: &InstanceManager, config: &Config) -> (r: Vec<ModelInfo>)
    requires
        manager.wf(),
    ensures
        r@.len() == config.models@.len(),
        forall|i: int|
            0 <= i < r@.len() ==> describes_model(#[trigger] r@[i], manager@, config.models@[i]),
{
    let mut out: Vec<ModelInfo> = Vec::new();
    for i in 0..config.models.len()
        invariant
            manager.wf(),
            out@.len() == i,
            forall|j: int|
                0 <= j < i ==> describes_model(#[trigger] out@[j], manager@, config.models@[j]),
    {
        out.push(model_info(manager, &config.models[i]));
    }
    out
}

// ── Operator's actions ──────────────────────────────────────────────────────

fn ok_response(message: String) -> (r: AdminResponse)
    ensures
        r.status@ == "ok"@,
        r.message == message,
{
    AdminResponse { status: "ok".to_owned(), message }
}

/// What an operator is told after a load.
pub fn admin_load(model: &str) -> (r: AdminResponse)
    ensures
        r.status@ == "ok"@,
        r.message@ == "model '"@ + model@ + "' loaded (instance spawned or already running)"@,
{
    ok_response(cat3("model '", model, "' loaded (instance spawned or already running)"))
}

/// What an operator is told after an unload.
pub fn admin_unload(model: &str, removed: usize, draining: usize) -> (r: AdminResponse)
    ensures
        r.status@ == "ok"@,
        r.message@ == "model '"@ + model@ + "': "@ + decimal(removed as nat)
            + " instance(s) unloaded, "@ + decimal(draining as nat)
            + " draining (busy — removed when idle)"@,
{
    let a = to_decimal(removed as u64);
    let b = to_decimal(draining as u64);
    let head = cat3("model '", model, "': ");
    let middle = cat3(head.as_str(), a.as_str(), " instance(s) unloaded, ");
    ok_response(cat3(middle.as_str(), b.as_str(), " draining (busy — removed when idle)"))
}

/// Lifts the block of a model, if there is one.
pub fn admin_unblock(manager: &mut InstanceManager, model: &str) -> (r: AdminResponse)
    requires
        old(manager).wf(),
    ensures
        final(manager).wf(),
        r.status@ == "ok"@,
        if old(manager)@.blocked.contains(model@) {
            r.message@ == "model '"@ + model@ + "' unblocked"@ && final(manager)@ == (State {
                blocked: old(manager)@.blocked.remove(model@),
                crash_counts: old(manager)@.crash_counts.remove(model@),
                ..old(manager)@
            })
        } else {
            r.message@ == "model '"@ + model@ + "' is not blocked"@ && final(manager)@ == old(
                manager,
            )@
        },
{
    if !manager.is_blocked(model) {
        return ok_response(cat3("model '", model, "' is not blocked"));
    }
    manager.unblock_model(model);
    ok_response(cat3("model '", model, "' unblocked"))
}

// ── Laws ────────────────────────────────────────────────────────────────────

proof fn lemma_alias_named(aliases: Seq<AliasConfig>, name: Seq<char>, i: int)
    ensures
        0 <= i < aliases.len() && aliases[i].name@ == name && (forall|j: int|
            0 <= j < i ==> (#[trigger] aliases[j]).name@ != name) ==> alias_named(aliases, name)
            == Some(aliases[i]),
        (forall|j: int| 0 <= j < aliases.len() ==> (#[trigger] aliases[j]).name@ != name)
            ==> alias_named(aliases, name) is None,
    decreases aliases.len(),
{
    if aliases.len() > 0 {
        let front = aliases.drop_last();
        lemma_alias_named(front, name, i);
        assert(forall|j: int| 0 <= j < front.len() ==> front[j] == aliases[j]);
        if forall|j: int| 0 <= j < aliases.len() ==> (#[trigger] aliases[j]).name@ != name {
            assert(aliases[aliases.len() - 1].name@ != name);
            assert forall|j: int| 0 <= j < front.len() implies (#[trigger] front[j]).name@ != name by {
                assert(aliases[j].name@ != name);
            }
        }
        if 0 <= i < aliases.len() && aliases[i].name@ == name && (forall|j: int|
            0 <= j < i ==> (#[trigger] aliases[j]).name@ != name) {
            assert forall|j: int| 0 <= j < i && j < front.len() implies (#[trigger] front[j]).name@
                != name by {
                assert(aliases[j].name@ != name);
            }
            if i < front.len() {
                assert(front[i].name@ == name);
            }
        }
    }
}

proof fn lemma_model_named(models: Seq<ModelConfig>, name: Seq<char>, i: int)
    ensures
        0 <= i < models.len() && models[i].name@ == name && (forall|j: int|
            0 <= j < i ==> (#[trigger] models[j]).name@ != name) ==> model_named(models, name)
            == Some(models[i]),
        (forall|j: int| 0 <= j < models.len() ==> (#[trigger] models[j]).name@ != name)
            ==> model_named(models, name) is None,
    decreases models.len(),
{
    if models.len() > 0 {
        let front = models.drop_last();
        lemma_model_named(front, name, i);
        assert(forall|j: int| 0 <= j < front.len() ==> front[j] == models[j]);
        if forall|j: int| 0 <= j < models.len() ==> (#[trigger] models[j]).name@ != name {
            assert(models[models.len() - 1].name@ != name);
            assert forall|j: int| 0 <= j < front.len() implies (#[trigger] front[j]).name@ != name by {
                assert(models[j].name@ != name);
            }
        }
        if 0 <= i < models.len() && models[i].name@ == name && (forall|j: int|
            0 <= j < i ==> (#[trigger] models[j]).name@ != name) {
            assert forall|j: int| 0 <= j < i && j < front.len() implies (#[trigger] front[j]).name@
                != name by {
                assert(models[j].name@ != name);
            }
            if i < front.len() {
                assert(front[i].name@ == name);
            }
        }
    }
}

/// A name that is no alias stands for itself; an alias stands for the first of
/// its targets, and has the context length of that model.
pub proof fn law_aliases(config: Config, requested: Seq<char>, i: int)
    ensures
        (forall|j: int|
            0 <= j < config.aliases@.len() ==> (#[trigger] config.aliases@[j]).name@ != requested)
            ==> routed_name(config.aliases@, requested) == requested,
        0 <= i < config.aliases@.len() && config.aliases@[i].name@ == requested && (forall|j: int|
            0 <= j < i ==> (#[trigger] config.aliases@[j]).name@ != requested)
            && config.aliases@[i].targets@.len() > 0 ==> routed_name(config.aliases@, requested)
            == config.aliases@[i].targets@[0]@,
        0 <= i < config.aliases@.len() && config.aliases@[i].targets@.len() > 0 ==> (match
            model_named(config.models@, config.aliases@[i].targets@[0]@) {
            Some(m) => alias_context(config.models@, config.aliases@[i]) == Some(m.context_length),
            None => alias_context(config.models@, config.aliases@[i]) is None,
        }),
{
    lemma_alias_named(config.aliases@, requested, i);
}

/// A model is found by its name and by no other, and a request goes to it under
/// that name, with the time limits of the server and the log of that model.
pub proof fn law_routes(r: Route, config: Config, requested: Seq<char>, i: int)
    requires
        is_route(r, config, requested),
    ensures
        exists|k: int|
            {
                &&& 0 <= k < config.models@.len()
                &&& (#[trigger] config.models@[k]).name@ == r.model_name@
                &&& r.debug_log is Some <==> config.models@[k].debug_log is Some
                &&& r.debug_log matches Some(t) ==> t@ == config.models@[k].debug_log->0@
            },
        r.request_model@ == requested,
        r.idle_timeout == config.server.backend_idle_timeout_secs,
        r.total_timeout == config.server.backend_total_timeout_secs,
        (forall|j: int|
            0 <= j < config.aliases@.len() ==> (#[trigger] config.aliases@[j]).name@ != requested)
            ==> r.model_name@ == requested,
        0 <= i < config.aliases@.len() && config.aliases@[i].name@ == requested && (forall|j: int|
            0 <= j < i ==> (#[trigger] config.aliases@[j]).name@ != requested)
            && config.aliases@[i].targets@.len() > 0 ==> r.model_name@
            == config.aliases@[i].targets@[0]@,
{
    law_aliases(config, requested, i);
    lemma_found(config.models@, r.model_name@);
}

proof fn lemma_found(models: Seq<ModelConfig>, name: Seq<char>)
    requires
        model_named(models, name) is Some,
    ensures
        exists|k: int|
            0 <= k < models.len() && (#[trigger] models[k]).name@ == name && model_named(
                models,
                name,
            ) == Some(models[k]),
    decreases models.len(),
{
    let front = models.drop_last();
    if model_named(front, name) is Some {
        lemma_found(front, name);
        let k = choose|k: int|
            0 <= k < front.len() && (#[trigger] front[k]).name@ == name && model_named(front, name)
                == Some(front[k]);
        assert(models[k] == front[k]);
    } else {
        assert(models[models.len() - 1].name@ == name);
    }
}

/// A model that is configured is found, and one that is not is not.
pub proof fn law_configured_models_are_found(models: Seq<ModelConfig>, name: Seq<char>)
    ensures
        model_named(models, name) is Some <==> exists|i: int|
            0 <= i < models.len() && (#[trigger] models[i]).name@ == name,
        model_named(models, name) matches Some(m) ==> m.name@ == name && models.contains(m),
{
    if model_named(models, name) is Some {
        lemma_found(models, name);
    } else {
        lemma_model_named(models, name, 0);
        if exists|i: int| 0 <= i < models.len() && (#[trigger] models[i]).name@ == name {
            let i = choose|i: int| 0 <= i < models.len() && (#[trigger] models[i]).name@ == name;
            lemma_first(models, name, i);
        }
    }
}

proof fn lemma_first(models: Seq<ModelConfig>, name: Seq<char>, i: int)
    requires
        0 <= i < models.len(),
        models[i].name@ == name,
    ensures
        model_named(models, name) is Some,
    decreases models.len(),
{
    if i < models.len() - 1 {
        assert(models.drop_last()[i].name@ == name);
        lemma_first(models.drop_last(), name, i);
    }
}

/// What the list of models tells of one.
pub proof fn law_listed_models(
    e: ModelEntry,
    id: Seq<char>,
    context_length: Option<usize>,
    created: i64,
)
    requires
        lists_as(e, id, context_length, created),
    ensures
        e.id@ == id,
        e.object@ == "model"@,
        e.owned_by@ == "llm-orch"@,
        e.created == created,
        e.context_length == context_length,
{
}

/// What is told of a model at run time: how many instances it has and may have,
/// how many requests wait and may wait, whether it is blocked, and what it has
/// completed.
pub proof fn law_described_models(r: ModelInfo, s: State, m: ModelConfig)
    requires
        describes_model(r, s, m),
    ensures
        r.name@ == m.name@,
        r.context_length == m.context_length,
        s.instances.dom().contains(m.name@) ==> r.instance_count == s.instances[m.name@].len(),
        !s.instances.dom().contains(m.name@) ==> r.instance_count == 0,
        r.max_instances == m.max_instances,
        s.queues.dom().contains(m.name@) ==> r.queue_depth_used == s.queues[m.name@].len(),
        !s.queues.dom().contains(m.name@) ==> r.queue_depth_used == 0,
        r.queue_depth_max == m.queue_depth,
        r.blocked <==> s.blocked.contains(m.name@),
        s.metrics.dom().contains(m.name@) ==> r.completions_total
            == s.metrics[m.name@].completions_total,
        !s.metrics.dom().contains(m.name@) ==> r.completions_total == 0,
        s.recent.dom().contains(m.name@) ==> record_views(r.recent_completions@) == record_views(
            s.recent[m.name@],
        ),
        !s.recent.dom().contains(m.name@) ==> r.recent_completions@.len() == 0,
{
    let out = record_views(r.recent_completions@);
    assert(out.len() == r.recent_completions@.len());
}

} // verus!

//! Plain values that responses are made of.

use vstd::prelude::*;

verus! {

/// A single completed request, kept per model.
#[derive(Debug)]
pub struct CompletionRecord {
    /// Time of completion.
    pub ts: String,
    pub request_id: String,
    pub instance_id: String,
    pub api_user: String,
    pub prompt_tokens: u64,
    pub generated_tokens: u64,
    pub cached_tokens: u64,
    pub duration_ms: u64,
}

/// A record in terms of texts.
pub struct RecordView {
    pub ts: Seq<char>,
    pub request_id: Seq<char>,
    pub instance_id: Seq<char>,
    pub api_user: Seq<char>,
    pub prompt_tokens: u64,
    pub generated_tokens: u64,
    pub cached_tokens: u64,
    pub duration_ms: u64,
}

impl View for CompletionRecord {
    type V = RecordView;

    open spec fn view(&self) -> RecordView {
        RecordView {
            ts: self.ts@,
            request_id: self.request_id@,
            instance_id: self.instance_id@,
            api_user: self.api_user@,
            prompt_tokens: self.prompt_tokens,
            generated_tokens: self.generated_tokens,
            cached_tokens: self.cached_tokens,
            duration_ms: self.duration_ms,
        }
    }
}

/// Records in terms of texts.
pub open spec fn record_views(records: Seq<CompletionRecord>) -> Seq<RecordView> {
    records.map_values(|r: CompletionRecord| r@)
}

/// Copies records.
pub fn copy_records(records: &Vec<CompletionRecord>) -> (r: Vec<CompletionRecord>)
    ensures
        record_views(r@) == record_views(records@),
{
    let mut out: Vec<CompletionRecord> = Vec::new();
    for i in 0..records.len()
        invariant
            record_views(out@) == record_views(records@.take(i as int)),
    {
        let ghost before = out@;
        let e = &records[i];
        let copy = CompletionRecord {
            ts: e.ts.clone(),
            request_id: e.request_id.clone(),
            instance_id: e.instance_id.clone(),
            api_user: e.api_user.clone(),
            prompt_tokens: e.prompt_tokens,
            generated_tokens: e.generated_tokens,
            cached_tokens: e.cached_tokens,
            duration_ms: e.duration_ms,
        };
        out.push(copy);
        assert(record_views(out@) =~= record_views(before).push(records@[i as int]@));
        assert(record_views(records@.take(i + 1)) =~= record_views(records@.take(i as int)).push(
            records@[i as int]@,
        ));
    }
    assert(records@.take(records@.len() as int) =~= records@);
    out
}

/// The list of models.
#[derive(Debug)]
pub struct ModelsResponse {
    pub object: String,
    pub data: Vec<ModelEntry>,
}

/// One model or alias in the list.
#[derive(Debug)]
pub struct ModelEntry {
    pub id: String,
    pub object: String,
    pub created: i64,
    pub owned_by: String,
    /// Context length (tokens).
    pub context_length: Option<usize>,
}

/// Runtime information about a model, without its averages.
#[derive(Debug)]
pub struct ModelInfo {
    pub name: String,
    pub context_length: usize,
    pub instance_count: usize,
    pub max_instances: usize,
    pub queue_depth_used: usize,
    pub queue_depth_max: usize,
    pub blocked: bool,
    /// Total completed requests.
    pub completions_total: u64,
    /// The last completions, newest first.
    pub recent_completions: Vec<CompletionRecord>,
}

/// An alias and its targets.
#[derive(Debug)]
pub struct AliasInfo {
    pub name: String,
    pub targets: Vec<String>,
}

/// An operator's action on a model.
#[derive(Debug)]
pub struct AdminModelAction {
    pub model: String,
}

/// What an operator is told.
#[derive(Debug)]
pub struct AdminResponse {
    pub status: String,
    pub message: String,
}

} // verus!

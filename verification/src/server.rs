//! Errors of the HTTP interface, and authentication.

use vstd::prelude::*;
use crate::apikeys::ApikeysStore;
use crate::scheduler::AcquireError;
use crate::text::{cat, cat3, chars_at, chars_of, starts_with, string_of};
use vstd::slice::slice_subrange;

verus! {

// ── Errors ──────────────────────────────────────────────────────────────────

/// Unified error type for HTTP responses.
#[derive(Debug)]
pub enum ApiError {
    Unauthorized,
    BadRequest(String),
    ModelNotFound(String),
    ModelBlocked(String),
    NoCapacity(String),
    ModelUnavailable(String),
    BackendTimeout(String),
    Internal(String),
}

/// An error in terms of texts.
pub enum ApiProblem {
    Unauthorized,
    BadRequest(Seq<char>),
    ModelNotFound(Seq<char>),
    ModelBlocked(Seq<char>),
    NoCapacity(Seq<char>),
    ModelUnavailable(Seq<char>),
    BackendTimeout(Seq<char>),
    Internal(Seq<char>),
}

impl View for ApiError {
    type V = ApiProblem;

    open spec fn view(&self) -> ApiProblem {
        match self {
            ApiError::Unauthorized => ApiProblem::Unauthorized,
            ApiError::BadRequest(t) => ApiProblem::BadRequest(t@),
            ApiError::ModelNotFound(t) => ApiProblem::ModelNotFound(t@),
            ApiError::ModelBlocked(t) => ApiProblem::ModelBlocked(t@),
            ApiError::NoCapacity(t) => ApiProblem::NoCapacity(t@),
            ApiError::ModelUnavailable(t) => ApiProblem::ModelUnavailable(t@),
            ApiError::BackendTimeout(t) => ApiProblem::BackendTimeout(t@),
            ApiError::Internal(t) => ApiProblem::Internal(t@),
        }
    }
}

impl ApiProblem {
    /// The words for an error.
    pub open spec fn words(self) -> Seq<char> {
        match self {
            ApiProblem::Unauthorized => "unauthorized"@,
            ApiProblem::BadRequest(t) => "bad request: "@ + t,
            ApiProblem::ModelNotFound(t) => "model not found: "@ + t,
            ApiProblem::ModelBlocked(t) => "model blocked: "@ + t,
            ApiProblem::NoCapacity(t) => "no capacity: "@ + t,
            ApiProblem::ModelUnavailable(t) => "model unavailable: "@ + t,
            ApiProblem::BackendTimeout(t) => "backend timeout: "@ + t,
            ApiProblem::Internal(t) => "internal error: "@ + t,
        }
    }

    /// The HTTP status of an error.
    pub open spec fn code(self) -> u16 {
        match self {
            ApiProblem::Unauthorized => 401,
            ApiProblem::BadRequest(_) => 400,
            ApiProblem::ModelNotFound(_) => 404,
            ApiProblem::ModelBlocked(_) => 503,
            ApiProblem::NoCapacity(_) => 429,
            ApiProblem::ModelUnavailable(_) => 503,
            ApiProblem::BackendTimeout(_) => 504,
            ApiProblem::Internal(_) => 500,
        }
    }
}

impl ApiError {
    /// Describes an error.
    pub fn message(&self) -> (r: String)
        ensures
            r@ == self@.words(),
    {
        match self {
            ApiError::Unauthorized => "unauthorized".to_owned(),
            ApiError::BadRequest(t) => cat("bad request: ", t.as_str()),
            ApiError::ModelNotFound(t) => cat("model not found: ", t.as_str()),
            ApiError::ModelBlocked(t) => cat("model blocked: ", t.as_str()),
            ApiError::NoCapacity(t) => cat("no capacity: ", t.as_str()),
            ApiError::ModelUnavailable(t) => cat("model unavailable: ", t.as_str()),
            ApiError::BackendTimeout(t) => cat("backend timeout: ", t.as_str()),
            ApiError::Internal(t) => cat("internal error: ", t.as_str()),
        }
    }

    /// The HTTP status of an error.
    pub fn status(&self) -> (r: u16)
        ensures
            r == self@.code(),
    {
        match self {
            ApiError::Unauthorized => 401,
            ApiError::BadRequest(_) => 400,
            ApiError::ModelNotFound(_) => 404,
            ApiError::ModelBlocked(_) => 503,
            ApiError::NoCapacity(_) => 429,
            ApiError::ModelUnavailable(_) => 503,
            ApiError::BackendTimeout(_) => 504,
            ApiError::Internal(_) => 500,
        }
    }

    /// Seconds after which the client may try again; only a lack of capacity
    /// asks for that.
    pub fn retry_after(&self) -> (r: Option<u64>)
        ensures
            r == (if self@ is NoCapacity {
                Some(5u64)
            } else {
                None
            }),
    {
        match self {
            ApiError::NoCapacity(_) => Some(5),
            _ => None,
        }
    }
}

/// The HTTP error for a request that got no instance slot.
pub open spec fn acquire_problem(model: Seq<char>, e: AcquireError) -> ApiProblem {
    match e {
        AcquireError::Blocked => ApiProblem::ModelBlocked(model),
        AcquireError::NoCapacity => ApiProblem::NoCapacity(
            "model '"@ + model + "' is at capacity and the queue is full"@,
        ),
        AcquireError::Unavailable => ApiProblem::ModelUnavailable(
            "model '"@ + model
                + "' is unavailable (spawn failed or instances retiring — see server logs)"@,
        ),
    }
}

/// Maps a failure to get an instance slot to the HTTP error for the model.
pub fn acquire_error(model_name: &str, e: AcquireError) -> (r: ApiError)
    ensures
        r@ == acquire_problem(model_name@, e),
{
    match e {
        AcquireError::Blocked => ApiError::ModelBlocked(model_name.to_owned()),
        AcquireError::NoCapacity => ApiError::NoCapacity(
            cat3("model '", model_name, "' is at capacity and the queue is full"),
        ),
        AcquireError::Unavailable => ApiError::ModelUnavailable(
            cat3(
                "model '",
                model_name,
                "' is unavailable (spawn failed or instances retiring — see server logs)",
            ),
        ),
    }
}

// ── Authentication ──────────────────────────────────────────────────────────

/// Who a request comes from.
pub struct ApiKey {
    /// The label of the key.
    pub label: String,
}

/// The key in an `Authorization` header.
pub open spec fn bearer_key(header: Seq<char>) -> Option<Seq<char>> {
    if starts_with(header, "Bearer "@) {
        Some(header.skip("Bearer "@.len() as int))
    } else if starts_with(header, "bearer "@) {
        Some(header.skip("bearer "@.len() as int))
    } else {
        None
    }
}

/// The label that a header authenticates as; none where it is refused.
pub open spec fn authenticated(
    keys: Map<Seq<char>, Seq<char>>,
    header: Option<Seq<char>>,
) -> Option<Seq<char>> {
    match header {
        Some(h) => match bearer_key(h) {
            Some(key) => if keys.dom().contains(key) {
                Some(keys[key])
            } else {
                None
            },
            None => None,
        },
        None => None,
    }
}

fn after_prefix(header: &str, prefix: &str) -> (r: Option<String>)
    ensures
        r is Some <==> starts_with(header@, prefix@),
        r matches Some(rest) ==> rest@ == header@.skip(prefix@.len() as int),
{
    let h = chars_of(header);
    let p = chars_of(prefix);
    if chars_at(h.as_slice(), p.as_slice(), 0) {
        let rest = slice_subrange(h.as_slice(), p.len(), h.len());
        assert(rest@ =~= header@.skip(prefix@.len() as int));
        Some(string_of(rest))
    } else {
        None
    }
}

/// Authenticates a request by its `Authorization` header, `Bearer <key>`. If
/// no keys are configured, all requests are denied.
pub fn authorize(store: &ApikeysStore, header: Option<&str>) -> (r: Result<ApiKey, ApiError>)
    requires
        store.wf(),
    ensures
        match authenticated(
            store@,
            match header {
                Some(h) => Some(h@),
                None => None,
            },
        ) {
            Some(label) => r matches Ok(key) && key.label@ == label,
            None => r matches Err(e) && e@ == ApiProblem::Unauthorized,
        },
{
    if store.is_empty() {
        return Err(ApiError::Unauthorized);
    }
    let h = match header {
        Some(h) => h,
        None => {
            return Err(ApiError::Unauthorized);
        },
    };
    let key = match after_prefix(h, "Bearer ") {
        Some(key) => key,
        None => match after_prefix(h, "bearer ") {
            Some(key) => key,
            None => {
                return Err(ApiError::Unauthorized);
            },
        },
    };
    match store.authenticate(key.as_str()) {
        Some(label) => Ok(ApiKey { label: label.to_owned() }),
        None => Err(ApiError::Unauthorized),
    }
}

/// Without keys nobody gets in, whatever the header says.
pub proof fn law_fail_closed(keys: Map<Seq<char>, Seq<char>>, header: Option<Seq<char>>)
    requires
        keys.dom() == Set::<Seq<char>>::empty(),
    ensures
        authenticated(keys, header) is None,
{
}

/// Whoever gets in presented a configured key, and is known by its label.
pub proof fn law_only_known_keys_get_in(
    keys: Map<Seq<char>, Seq<char>>,
    header: Seq<char>,
    label: Seq<char>,
)
    requires
        authenticated(keys, Some(header)) == Some(label),
    ensures
        exists|key: Seq<char>| #[trigger]
            keys.dom().contains(key) && keys[key] == label && (header == "Bearer "@ + key || header
                == "bearer "@ + key),
{
    let key = bearer_key(header)->0;
    if starts_with(header, "Bearer "@) {
        assert(header =~= "Bearer "@ + key);
    } else {
        assert(header =~= "bearer "@ + key);
    }
    assert(keys.dom().contains(key));
}

/// The status of each kind of error, and the words before what it tells.
pub proof fn law_statuses(t: Seq<char>)
    ensures
        ApiProblem::BadRequest(t).code() == 400,
        ApiProblem::Unauthorized.code() == 401,
        ApiProblem::ModelNotFound(t).code() == 404,
        ApiProblem::NoCapacity(t).code() == 429,
        ApiProblem::Internal(t).code() == 500,
        ApiProblem::ModelBlocked(t).code() == 503,
        ApiProblem::ModelUnavailable(t).code() == 503,
        ApiProblem::BackendTimeout(t).code() == 504,
        ApiProblem::Unauthorized.words() == "unauthorized"@,
        ApiProblem::BadRequest(t).words() == "bad request: "@ + t,
        ApiProblem::ModelNotFound(t).words() == "model not found: "@ + t,
        ApiProblem::ModelBlocked(t).words() == "model blocked: "@ + t,
        ApiProblem::NoCapacity(t).words() == "no capacity: "@ + t,
        ApiProblem::ModelUnavailable(t).words() == "model unavailable: "@ + t,
        ApiProblem::BackendTimeout(t).words() == "backend timeout: "@ + t,
        ApiProblem::Internal(t).words() == "internal error: "@ + t,
{
}

/// What a request is answered that got no slot: a blocked model and one that is
/// not available are unavailable services, while a lack of capacity asks the
/// client to come back. The model is named.
pub proof fn law_refused_requests(model: Seq<char>)
    ensures
        acquire_problem(model, AcquireError::Blocked) == ApiProblem::ModelBlocked(model),
        acquire_problem(model, AcquireError::Blocked).code() == 503,
        acquire_problem(model, AcquireError::NoCapacity) is NoCapacity,
        acquire_problem(model, AcquireError::NoCapacity).code() == 429,
        acquire_problem(model, AcquireError::Unavailable) is ModelUnavailable,
        acquire_problem(model, AcquireError::Unavailable).code() == 503,
        starts_with(acquire_problem(model, AcquireError::NoCapacity)->NoCapacity_0, "model '"@ + model),
        starts_with(
            acquire_problem(model, AcquireError::Unavailable)->ModelUnavailable_0,
            "model '"@ + model,
        ),
{
    let head = "model '"@ + model;
    let a = acquire_problem(model, AcquireError::NoCapacity)->NoCapacity_0;
    let b = acquire_problem(model, AcquireError::Unavailable)->ModelUnavailable_0;
    assert(a.subrange(0, head.len() as int) =~= head);
    assert(b.subrange(0, head.len() as int) =~= head);
}

/// Whoever presents a configured key gets in, under its label; a header in any
/// other form, an unknown key and no header at all do not.
pub proof fn law_known_keys_get_in(
    keys: Map<Seq<char>, Seq<char>>,
    key: Seq<char>,
    header: Seq<char>,
)
    ensures
        keys.dom().contains(key) ==> authenticated(keys, Some("Bearer "@ + key)) == Some(keys[key]),
        keys.dom().contains(key) ==> authenticated(keys, Some("bearer "@ + key)) == Some(keys[key]),
        !keys.dom().contains(key) ==> authenticated(keys, Some("Bearer "@ + key)) is None,
        !keys.dom().contains(key) ==> authenticated(keys, Some("bearer "@ + key)) is None,
        !starts_with(header, "Bearer "@) && !starts_with(header, "bearer "@) ==> authenticated(
            keys,
            Some(header),
        ) is None,
        authenticated(keys, None) is None,
{
    reveal_strlit("Bearer ");
    reveal_strlit("bearer ");
    let a = "Bearer "@ + key;
    let b = "bearer "@ + key;
    assert(a.subrange(0, 7) =~= "Bearer "@);
    assert(b.subrange(0, 7) =~= "bearer "@);
    assert(a.skip(7) =~= key);
    assert(b.skip(7) =~= key);
    assert(!starts_with(b, "Bearer "@)) by {
        assert(b.subrange(0, 7)[0] == 'b');
    }
}

/// What a client is told that got no slot.
pub proof fn law_words_for_refused_requests(model: Seq<char>)
    ensures
        acquire_problem(model, AcquireError::NoCapacity) == ApiProblem::NoCapacity(
            "model '"@ + model + "' is at capacity and the queue is full"@,
        ),
        acquire_problem(model, AcquireError::Unavailable) == ApiProblem::ModelUnavailable(
            "model '"@ + model
                + "' is unavailable (spawn failed or instances retiring — see server logs)"@,
        ),
{
}

} // verus!

//! API keys and the authorization of requests.

use llm_orch::apikeys::{ApikeysError, ApikeysStore};
use llm_orch::server::{authorize, ApiError};

#[test]
fn parse_valid() {
    let input = "\
# comment
personal-laptop: sk-alice
work-desktop: sk-bob
";
    let store = ApikeysStore::parse(input).unwrap();
    assert_eq!(store.len(), 2);
    assert_eq!(store.authenticate("sk-alice"), Some("personal-laptop"));
    assert_eq!(store.authenticate("sk-bob"), Some("work-desktop"));
    assert_eq!(store.authenticate("sk-nope"), None);
}

#[test]
fn blank_lines_and_comments() {
    let input = "\n\n# header\n\npersonal-laptop: sk-alice\n";
    let store = ApikeysStore::parse(input).unwrap();
    assert_eq!(store.len(), 1);
}

#[test]
fn missing_colon_is_error() {
    let input = "personal-laptop sk-alice\n";
    let err = ApikeysStore::parse(input).unwrap_err();
    assert!(matches!(err, ApikeysError::MissingColon { line: 1 }));
}

#[test]
fn empty_label_is_error() {
    let input = ": sk-alice\n";
    let err = ApikeysStore::parse(input).unwrap_err();
    assert!(matches!(err, ApikeysError::EmptyLabel { line: 1 }));
}

#[test]
fn empty_key_is_error() {
    let input = "personal-laptop: \n";
    let err = ApikeysStore::parse(input).unwrap_err();
    assert!(matches!(err, ApikeysError::EmptyKey { .. }));
}

#[test]
fn duplicate_label_is_error() {
    let input = "\
personal-laptop: sk-alice
personal-laptop: sk-bob
";
    let err = ApikeysStore::parse(input).unwrap_err();
    assert!(matches!(err, ApikeysError::DuplicateLabel { line: 2, .. }));
}

#[test]
fn duplicate_key_is_error() {
    let input = "\
personal-laptop: sk-shared
work-desktop: sk-shared
";
    let err = ApikeysStore::parse(input).unwrap_err();
    assert!(matches!(err, ApikeysError::DuplicateKey { line: 2, .. }));
}

#[test]
fn is_empty_when_no_keys() {
    let input = "# just a comment\n\n";
    let store = ApikeysStore::parse(input).unwrap();
    assert!(store.is_empty());
    assert_eq!(store.authenticate("anything"), None);
}

#[test]
fn a_key_may_hold_colons_and_is_trimmed() {
    let store = ApikeysStore::parse("a :  sk:1:2 \r\n b:x\u{85}\n").unwrap();
    assert_eq!(store.authenticate("sk:1:2"), Some("a"));
    assert_eq!(store.authenticate("x"), Some("b"));
    assert_eq!(store.len(), 2);
}

#[test]
fn key_errors_name_the_line() {
    assert_eq!(
        ApikeysStore::parse("# c\n\nbroken\n").unwrap_err().message(),
        "missing `:` separator at line 3"
    );
    assert_eq!(
        ApikeysStore::parse("a: k\na: l\n").unwrap_err().message(),
        "duplicate label at line 2: `a`"
    );
    assert_eq!(
        ApikeysStore::parse("a: k\nb: k\n").unwrap_err().message(),
        "duplicate key at line 2 (label `b`)"
    );
    assert_eq!(
        ApikeysStore::parse(" : k\n").unwrap_err().message(),
        "empty label at line 1"
    );
    assert_eq!(
        ApikeysStore::parse("a:\n").unwrap_err().message(),
        "empty key at line 1 (label `a`)"
    );
    assert_eq!(
        ApikeysError::Io("gone".to_owned()).message(),
        "failed to read apikeys file: gone"
    );
}

#[test]
fn an_empty_store_refuses_everyone() {
    let store = ApikeysStore::empty();
    assert!(store.is_empty());
    assert!(matches!(authorize(&store, None), Err(ApiError::Unauthorized)));
    assert!(matches!(authorize(&store, Some("Bearer x")), Err(ApiError::Unauthorized)));
    assert!(matches!(authorize(&store, Some("Bearer ")), Err(ApiError::Unauthorized)));
}

#[test]
fn only_the_exact_bearer_key_is_let_in() {
    let store = ApikeysStore::parse("laptop: sk-1\n").unwrap();
    assert_eq!(authorize(&store, Some("Bearer sk-1")).unwrap().label, "laptop");
    assert_eq!(authorize(&store, Some("bearer sk-1")).unwrap().label, "laptop");
    for header in ["sk-1", "BEARER sk-1", "Bearer sk-2", "Bearer sk-1x", "Basic sk-1", ""] {
        assert!(authorize(&store, Some(header)).is_err(), "{header}");
    }
    assert!(authorize(&store, None).is_err());
}

#[test]
fn api_errors_have_their_status() {
    let name = || "m".to_owned();
    assert_eq!(ApiError::Unauthorized.status(), 401);
    assert_eq!(ApiError::BadRequest(name()).status(), 400);
    assert_eq!(ApiError::ModelNotFound(name()).status(), 404);
    assert_eq!(ApiError::ModelBlocked(name()).status(), 503);
    assert_eq!(ApiError::NoCapacity(name()).status(), 429);
    assert_eq!(ApiError::NoCapacity(name()).retry_after(), Some(5));
    assert_eq!(ApiError::ModelBlocked(name()).retry_after(), None);
    assert_eq!(ApiError::ModelUnavailable(name()).status(), 503);
    assert_eq!(ApiError::BackendTimeout(name()).status(), 504);
    assert_eq!(ApiError::Internal(name()).status(), 500);
    assert_eq!(ApiError::BadRequest(name()).message(), "bad request: m");
}

use std::hash::{Hash, Hasher};

use crossmatrix::requests::{admit_command, query_links, route_query, Admission, QueryRoute, RequestLog};
use crossmatrix::stale::{append_decimal, check_source_ref_staleness, content_path};
use crossmatrix::SourceRef;

fn s(t: &str) -> String {
    t.to_string()
}

fn default_hash(text: &str) -> u64 {
    let mut hasher = std::collections::hash_map::DefaultHasher::new();
    text.hash(&mut hasher);
    hasher.finish()
}

fn hashed(path: Option<&str>, hash: &str) -> SourceRef {
    SourceRef { system: Some(s("fmeca")), source_ref: path.map(s), content_hash: Some(s(hash)) }
}

// ── idempotency and the observation-only gate ──

#[test]
fn command_idempotency_replays_result_for_same_request_id() {
    let mut log: RequestLog<Result<String, String>> = RequestLog::new();
    // The first command, with a valid model, succeeded and was recorded.
    log.record("idem-1", Ok(s("validated")));
    // The same request id again, now with an invalid payload: replayed, not re-executed.
    match admit_command(&log, Some("idem-1"), false, false) {
        Admission::Replay(r) => assert!(r.is_ok(), "same requestId must return cached success"),
        _ => panic!("idempotent replay expected"),
    }
}

#[test]
fn command_rejects_numeric_weight_without_source_ref_system() {
    let log: RequestLog<Result<String, String>> = RequestLog::new();
    let admission = admit_command(&log, Some("obs-test-1"), true, false);
    assert!(matches!(admission, Admission::RejectNumericWeight));
}

#[test]
fn numeric_weight_with_a_source_system_is_executed() {
    let log: RequestLog<u32> = RequestLog::new();
    assert!(matches!(admit_command(&log, Some("a"), true, true), Admission::Execute));
    assert!(matches!(admit_command(&log, None, false, false), Admission::Execute));
}

#[test]
fn a_recorded_rejection_is_replayed_too() {
    let mut log: RequestLog<Result<String, String>> = RequestLog::new();
    log.record("r", Err(s("observation-only")));
    match admit_command(&log, Some("r"), false, true) {
        Admission::Replay(Err(e)) => assert_eq!(e, "observation-only"),
        _ => panic!("replay expected"),
    }
    assert!(matches!(admit_command(&log, None, true, false), Admission::RejectNumericWeight));
}

#[test]
fn recording_again_replaces_the_result() {
    let mut log: RequestLog<u32> = RequestLog::new();
    log.record("a", 1);
    log.record("b", 2);
    log.record("a", 3);
    assert_eq!(log.replay("a"), Some(&3));
    assert_eq!(log.replay("b"), Some(&2));
    assert_eq!(log.replay("c"), None);
}

// ── staleness ──

#[test]
fn a_matching_content_hash_is_fresh() {
    let content = "criticality,9\n";
    let recorded = format!("sip13:{}", default_hash(content));
    let sr = hashed(Some("fmeca.csv"), &recorded);
    assert!(check_source_ref_staleness(&sr, Some(content)).is_none());
}

#[test]
fn a_changed_content_is_stale() {
    let sr = hashed(Some("fmeca.csv"), "sip13:1");
    let f = check_source_ref_staleness(&sr, Some("changed")).expect("stale");
    assert_eq!(f.path.as_deref(), Some("fmeca.csv"));
    assert_eq!(
        f.explanation,
        format!("content hash mismatch for fmeca.csv: expected sip13:1, computed sip13:{}", default_hash("changed"))
    );
}

#[test]
fn an_unreadable_reference_is_stale() {
    let sr = hashed(Some("gone.csv"), "sip13:1");
    let f = check_source_ref_staleness(&sr, None).expect("stale");
    assert_eq!(f.explanation, "cannot read referenced content: gone.csv");
}

#[test]
fn a_hashed_reference_without_a_path_cannot_be_resolved() {
    let sr = hashed(None, "sip13:1");
    let f = check_source_ref_staleness(&sr, None).expect("stale");
    assert_eq!(f.path, None);
    assert_eq!(f.explanation, "SourceRef missing sourceRef; cannot resolve");
    assert!(content_path(&sr).is_none());
}

#[test]
fn references_without_a_hash_are_not_checked() {
    let sr = SourceRef { system: None, source_ref: Some(s("x")), content_hash: None };
    assert!(check_source_ref_staleness(&sr, None).is_none());
    let empty = hashed(Some("x"), "");
    assert!(check_source_ref_staleness(&empty, None).is_none());
    assert!(content_path(&empty).is_none());
    assert_eq!(content_path(&hashed(Some("x"), "sip13:5")).map(|p| p.as_str()), Some("x"));
}

#[test]
fn decimals_are_written_without_leading_zeros() {
    let mut t = s("n=");
    append_decimal(&mut t, 0);
    append_decimal(&mut t, 1_000_000_007);
    append_decimal(&mut t, u64::MAX);
    assert_eq!(t, format!("n=01000000007{}", u64::MAX));
}

// ── query routing ──

#[test]
fn query_response_includes_non_empty_links_array() {
    // No model loaded; validate as a representative read.
    let links = query_links(route_query("validate"), false);
    assert!(!links.is_empty(), "query response must include non-empty links array");
    assert_eq!(links, vec!["open"]);
}

#[test]
fn queries_are_routed_by_kind() {
    assert_eq!(route_query("analyze.contract"), QueryRoute::AnalyzeContract);
    assert_eq!(route_query("analyze.findings"), QueryRoute::AnalyzeFindings);
    assert_eq!(route_query("validate"), QueryRoute::Validate);
    assert_eq!(route_query("describe"), QueryRoute::Unsupported);
    assert_eq!(route_query(""), QueryRoute::Unsupported);
}

#[test]
fn links_offer_the_legal_next_operations() {
    assert_eq!(
        query_links(QueryRoute::AnalyzeContract, true),
        vec!["analyze.findings", "analyze.marginalize", "validate", "describe"]
    );
    assert_eq!(query_links(QueryRoute::AnalyzeFindings, true), vec!["analyze.contract", "validate", "describe"]);
    assert_eq!(query_links(QueryRoute::Validate, true), vec!["analyze.contract", "analyze.findings", "describe"]);
    assert_eq!(query_links(QueryRoute::Unsupported, false), vec!["analyze.contract", "analyze.findings", "validate"]);
}

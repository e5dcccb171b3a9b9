use time_oracle::confidence::calculate_confidence_micro;
use time_oracle::consensus::calculate_consensus;
use time_oracle::fallback::fallback_timestamp;
use time_oracle::request::{normalize_simple, TimeRequest};
use time_oracle::response::{get_consensus_time, process_request};

#[test]
fn three_close_timestamps_reach_consensus() {
    let ts = vec![1690588800u64, 1690588801, 1690588800];
    let (timestamp, reached) = calculate_consensus(&ts, 2, 1);
    assert_eq!(timestamp, 1690588800);
    assert!(reached);
    assert_eq!(calculate_confidence_micro(&ts, 3), 1_000_000);
}

#[test]
fn single_timestamp_with_quorum_of_one() {
    let ts = vec![42u64];
    let (timestamp, reached) = calculate_consensus(&ts, 1, 5);
    assert_eq!(timestamp, 42);
    assert!(reached);
    assert_eq!(calculate_confidence_micro(&ts, 1), 400_000);
}

#[test]
fn too_few_sources_returns_maximum() {
    let ts = vec![5u64, 3];
    let (timestamp, reached) = calculate_consensus(&ts, 3, 10);
    assert_eq!(timestamp, 5);
    assert!(!reached);
}

#[test]
fn empty_timestamps_yield_zero() {
    let ts: Vec<u64> = Vec::new();
    let (timestamp, reached) = calculate_consensus(&ts, 2, 5);
    assert_eq!(timestamp, 0);
    assert!(!reached);
}

#[test]
fn greedy_clustering_is_order_dependent() {
    // 20 cannot join the cluster keyed by 10, but 15 joins it first,
    // so the quorum-sized cluster is [10, 15] and its lower median wins.
    let ts = vec![10u64, 20, 15];
    let (timestamp, reached) = calculate_consensus(&ts, 2, 5);
    assert_eq!(timestamp, 15);
    assert!(reached);
}

#[test]
fn no_quorum_returns_median_of_all() {
    let ts = vec![0u64, 100, 200];
    let (timestamp, reached) = calculate_consensus(&ts, 2, 5);
    assert_eq!(timestamp, 100);
    assert!(!reached);
}

#[test]
fn high_variance_drops_consistency_to_zero() {
    // variance 25_000_000 over two sources: the consistency share rounds
    // down to zero and only the source share remains.
    let ts = vec![0u64, 10000];
    assert_eq!(calculate_confidence_micro(&ts, 2), 400_000);
}

#[test]
fn variance_at_tolerance_keeps_full_consistency() {
    // variance exactly 25: 0.4 * 25 / 25 leaves the full 0.4 share.
    let ts = vec![0u64, 10];
    assert_eq!(calculate_confidence_micro(&ts, 2), 800_000);
}

#[test]
fn empty_timestamps_score_zero() {
    let ts: Vec<u64> = Vec::new();
    assert_eq!(calculate_confidence_micro(&ts, 0), 0);
}

#[test]
fn extreme_spread_earns_no_consistency() {
    // The squared deviations overflow the 128-bit bookkeeping: the
    // consistency share is zero, and a wider spread never outscores a
    // tighter one at the same source count.
    let far = vec![0u64, u64::MAX, u64::MAX];
    let near = vec![0u64, 100, 100];
    assert_eq!(calculate_confidence_micro(&far, 2), 400_000);
    assert_eq!(calculate_confidence_micro(&near, 2), 404_500);
    assert!(calculate_confidence_micro(&far, 2) <= calculate_confidence_micro(&near, 2));
}

#[test]
fn plain_integer_payload_normalizes() {
    let payload = b" 1690588800 ".to_vec();
    let req = normalize_simple(&payload).expect("plain integer should parse");
    assert_eq!(req.request_id, "simple_1690588800");
    assert_eq!(req.required_consensus, 1);
    assert_eq!(req.max_time_diff, 5);
    assert_eq!(req.external_timestamps, Some(vec![1690588800u64]));
}

#[test]
fn malformed_payloads_are_rejected() {
    assert!(normalize_simple(&b"abc".to_vec()).is_none());
    assert!(normalize_simple(&b"".to_vec()).is_none());
    assert!(normalize_simple(&b"   ".to_vec()).is_none());
    assert!(normalize_simple(&b"12a4".to_vec()).is_none());
    assert!(normalize_simple(&b"99999999999999999999999".to_vec()).is_none());
}

#[test]
fn plus_prefixed_payload_normalizes() {
    let req = normalize_simple(&b" +42 ".to_vec()).expect("plus-prefixed integer should parse");
    assert_eq!(req.request_id, "simple_42");
    assert_eq!(req.external_timestamps, Some(vec![42u64]));
}

#[test]
fn stray_signs_are_rejected() {
    assert!(normalize_simple(&b"+".to_vec()).is_none());
    assert!(normalize_simple(&b"++1".to_vec()).is_none());
    assert!(normalize_simple(&b"+-1".to_vec()).is_none());
    assert!(normalize_simple(&b"-1".to_vec()).is_none());
}

#[test]
fn payload_at_u64_limit() {
    let req = normalize_simple(&b"18446744073709551615".to_vec()).expect("fits u64");
    assert_eq!(req.external_timestamps, Some(vec![u64::MAX]));
    assert!(normalize_simple(&b"18446744073709551616".to_vec()).is_none());
}

#[test]
fn fallback_is_deterministic() {
    assert_eq!(fallback_timestamp(0), 1704067200);
    assert_eq!(fallback_timestamp(86401), 1704067201);
    assert_eq!(fallback_timestamp(7), fallback_timestamp(7));
}

#[test]
fn multiple_sources_are_labelled_in_order() {
    let req = TimeRequest {
        request_id: String::from("r1"),
        required_consensus: 2,
        max_time_diff: 1,
        external_timestamps: Some(vec![1690588800u64, 1690588801, 1690588800]),
    };
    let result = get_consensus_time(&req, 0);
    assert_eq!(
        result.sources_verified,
        vec!["source_0", "source_1", "source_2"]
    );
    assert_eq!(result.timestamp, 1690588800);
    assert!(result.consensus_reached);
    assert_eq!(result.confidence_micro, 1_000_000);
}

#[test]
fn missing_timestamps_use_the_fallback() {
    let req = TimeRequest {
        request_id: String::from("r2"),
        required_consensus: 1,
        max_time_diff: 5,
        external_timestamps: None,
    };
    let fallback = fallback_timestamp(12);
    let result = get_consensus_time(&req, fallback);
    assert_eq!(result.sources_verified, vec!["rollup_internal"]);
    assert_eq!(result.timestamp, fallback);
    assert!(result.consensus_reached);
    assert_eq!(result.confidence_micro, 400_000);
}

#[test]
fn response_carries_request_metadata() {
    let req = TimeRequest {
        request_id: String::from("req-7"),
        required_consensus: 2,
        max_time_diff: 1,
        external_timestamps: Some(vec![100u64, 101, 100]),
    };
    let response = process_request(&req, 0, 9);
    assert_eq!(response.request_id, "req-7");
    assert_eq!(response.rollup_level, 9);
    assert_eq!(response.timestamp, 100);
    assert!(response.consensus_reached);
    assert_eq!(response.verification_hash.len(), 64);
}

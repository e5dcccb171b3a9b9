use sha2::Digest;
use time_oracle::text::{bytes_to_hex, score_to_string, source_label_string, u64_to_string};
use time_oracle::verification::{canonical_string, generate_verification_hash, ConsensusResult};

fn sample_result() -> ConsensusResult {
    ConsensusResult {
        timestamp: 1690588800,
        consensus_reached: true,
        sources_verified: vec![
            String::from("source_0"),
            String::from("source_1"),
            String::from("source_2"),
        ],
        confidence_micro: 1_000_000,
    }
}

#[test]
fn decimal_rendering() {
    assert_eq!(u64_to_string(0), "0");
    assert_eq!(u64_to_string(7), "7");
    assert_eq!(u64_to_string(1690588800), "1690588800");
    assert_eq!(u64_to_string(u64::MAX), "18446744073709551615");
}

#[test]
fn score_rendering_has_six_decimals() {
    assert_eq!(score_to_string(0), "0.000000");
    assert_eq!(score_to_string(400_000), "0.400000");
    assert_eq!(score_to_string(1_000_000), "1.000000");
    assert_eq!(score_to_string(123), "0.000123");
}

#[test]
fn source_labels() {
    assert_eq!(source_label_string(0), "source_0");
    assert_eq!(source_label_string(12), "source_12");
}

#[test]
fn hex_rendering_is_lowercase() {
    assert_eq!(bytes_to_hex(&vec![0x00, 0xff, 0x1a]), "00ff1a");
    assert_eq!(bytes_to_hex(&Vec::new()), "");
}

#[test]
fn canonical_rendering_concatenates_fields() {
    let canonical = canonical_string(&sample_result());
    assert_eq!(
        canonical,
        "1690588800truesource_0,source_1,source_21.000000"
    );
}

#[test]
fn verification_hash_matches_direct_digest() {
    let hash = generate_verification_hash(&sample_result());
    let expected = format!(
        "{:x}",
        sha2::Sha256::digest("1690588800truesource_0,source_1,source_21.000000".as_bytes())
    );
    assert_eq!(hash, expected);
}

#[test]
fn identical_results_hash_identically() {
    let a = generate_verification_hash(&sample_result());
    let b = generate_verification_hash(&sample_result());
    assert_eq!(a, b);
    assert_eq!(a.len(), 64);
    assert!(a.chars().all(|c| matches!(c, '0'..='9' | 'a'..='f')));
}

#[test]
fn score_change_of_one_millionth_changes_the_hash() {
    let baseline = generate_verification_hash(&sample_result());
    let mut tweaked = sample_result();
    tweaked.confidence_micro = 999_999;
    assert_ne!(generate_verification_hash(&tweaked), baseline);
}

#[test]
fn consensus_flag_changes_the_hash() {
    let baseline = generate_verification_hash(&sample_result());
    let mut tweaked = sample_result();
    tweaked.consensus_reached = false;
    assert_ne!(generate_verification_hash(&tweaked), baseline);
}

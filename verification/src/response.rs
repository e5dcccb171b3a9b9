//! The consensus pipeline and the outbound response.
//!
//! One call consumes one request: the contributing timestamps are chosen
//! (the request's own, or the single deterministic fallback), clustered and
//! scored, the verification hash is rendered, and everything is folded into
//! the outbound record together with the request identifier and the host's
//! context counter. Iteration belongs to the host, not to this core.

use crate::confidence::{calculate_confidence_micro, confidence_micro, SCORE_ONE_MICRO};
use crate::consensus::{calculate_consensus, consensus_spec, lemma_consensus_member};
use crate::request::TimeRequest;
use crate::text::{source_label, source_label_string, string_views};
use crate::verification::{
    generate_verification_hash, verification_hash_chars, ConsensusResult,
};
use vstd::prelude::*;
use vstd::string::*;

verus! {

/// The outbound record: the consensus outcome plus request metadata.
pub struct TimeResponse {
    pub request_id: String,
    pub timestamp: u64,
    pub consensus_reached: bool,
    pub sources_verified: Vec<String>,
    /// The confidence score in millionths (`1_000_000` stands for `1.0`).
    pub confidence_micro: u32,
    pub verification_hash: String,
    /// An opaque context counter supplied by the host.
    pub rollup_level: i32,
}

/// The timestamps a request contributes: its external timestamps when
/// present, else exactly one deterministic fallback value.
pub open spec fn used_timestamps(request: TimeRequest, fallback: u64) -> Seq<u64> {
    match request.external_timestamps {
        Some(v) => v@,
        None => seq![fallback],
    }
}

/// The source labels for `n` contributing timestamps: numbered sources when
/// more than one was supplied, else the single internal label.
pub open spec fn labels_spec(n: int) -> Seq<Seq<char>> {
    if n > 1 {
        Seq::new(n as nat, |i: int| source_label(i))
    } else {
        seq!["rollup_internal"@]
    }
}

/// Whether `r` is the consensus result the pipeline owes for the
/// timestamps `ts` of a request with quorum `req` and tolerance `d`.
pub open spec fn result_spec(r: ConsensusResult, ts: Seq<u64>, req: int, d: u64) -> bool {
    let c = consensus_spec(ts, req, d);
    let labels = labels_spec(ts.len() as int);
    &&& r.timestamp == c.0
    &&& r.consensus_reached == c.1
    &&& string_views(r.sources_verified@) == labels
    &&& r.confidence_micro as int == confidence_micro(ts, labels.len() as int)
    &&& r.valid()
}

/// Computes the consensus result for one request, given the deterministic
/// fallback timestamp to substitute when the request carries none.
pub fn get_consensus_time(request: &TimeRequest, fallback_timestamp: u64) -> (r: ConsensusResult)
    ensures
        result_spec(
            r,
            used_timestamps(*request, fallback_timestamp),
            request.required_consensus as int,
            request.max_time_diff,
        ),
        used_timestamps(*request, fallback_timestamp).len() > 0 ==> used_timestamps(
            *request,
            fallback_timestamp,
        ).contains(r.timestamp),
{
    let ghost ts = used_timestamps(*request, fallback_timestamp);
    let timestamps: Vec<u64> = match &request.external_timestamps {
        Some(v) => {
            let c = v.clone();
            proof {
                assert(c@ =~= v@);
            }
            c
        },
        None => {
            let mut v: Vec<u64> = Vec::new();
            v.push(fallback_timestamp);
            proof {
                assert(v@ =~= seq![fallback_timestamp]);
            }
            v
        },
    };
    let n = timestamps.len();
    let mut sources: Vec<String> = Vec::new();
    if n > 1 {
        let mut i: usize = 0;
        while i < n
            invariant
                i <= n,
                sources@.len() == i,
                forall|j: int| 0 <= j < i ==> #[trigger] sources@[j]@ == source_label(j),
            decreases n - i,
        {
            let label = source_label_string(i as u64);
            sources.push(label);
            i += 1;
        }
        proof {
            assert(string_views(sources@) =~= labels_spec(n as int));
        }
    } else {
        sources.push(String::from_str("rollup_internal"));
        proof {
            assert(string_views(sources@) =~= labels_spec(n as int));
        }
    }
    let (consensus_timestamp, consensus_reached) = calculate_consensus(
        &timestamps,
        request.required_consensus as usize,
        request.max_time_diff,
    );
    let confidence_micro_value = calculate_confidence_micro(&timestamps, sources.len());
    proof {
        if ts.len() > 0 {
            lemma_consensus_member(ts, request.required_consensus as int, request.max_time_diff);
        }
    }
    ConsensusResult {
        timestamp: consensus_timestamp,
        consensus_reached,
        sources_verified: sources,
        confidence_micro: confidence_micro_value,
    }
}

/// Combines a consensus result, the request identifier, the verification
/// hash, and the host's context counter into the outbound record.
pub fn assemble_response(
    request_id: &String,
    result: ConsensusResult,
    verification_hash: String,
    rollup_level: i32,
) -> (r: TimeResponse)
    ensures
        r.request_id@ == request_id@,
        r.timestamp == result.timestamp,
        r.consensus_reached == result.consensus_reached,
        r.sources_verified@ == result.sources_verified@,
        r.confidence_micro == result.confidence_micro,
        r.verification_hash@ == verification_hash@,
        r.rollup_level == rollup_level,
{
    TimeResponse {
        request_id: request_id.clone(),
        timestamp: result.timestamp,
        consensus_reached: result.consensus_reached,
        sources_verified: result.sources_verified,
        confidence_micro: result.confidence_micro,
        verification_hash,
        rollup_level,
    }
}

/// Processes one request end to end: consensus, confidence, verification
/// hash, and assembly of the outbound record.
pub fn process_request(request: &TimeRequest, fallback_timestamp: u64, rollup_level: i32) -> (r:
    TimeResponse)
    ensures
        ({
            let ts = used_timestamps(*request, fallback_timestamp);
            let c = consensus_spec(ts, request.required_consensus as int, request.max_time_diff);
            let labels = labels_spec(ts.len() as int);
            &&& r.request_id@ == request.request_id@
            &&& r.timestamp == c.0
            &&& r.consensus_reached == c.1
            &&& string_views(r.sources_verified@) == labels
            &&& r.confidence_micro as int == confidence_micro(ts, labels.len() as int)
            &&& r.confidence_micro <= SCORE_ONE_MICRO
            &&& r.verification_hash@ == verification_hash_chars(
                c.0,
                c.1,
                labels,
                r.confidence_micro,
            )
            &&& r.verification_hash@.len() == 64
            &&& r.rollup_level == rollup_level
            &&& ts.len() > 0 ==> ts.contains(r.timestamp)
        }),
{
    let result = get_consensus_time(request, fallback_timestamp);
    let hash = generate_verification_hash(&result);
    assemble_response(&request.request_id, result, hash, rollup_level)
}

} // verus!

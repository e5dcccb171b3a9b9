//! Confidence scoring.
//!
//! The score quantifies agreement quality on a fixed-point scale of
//! millionths: `1_000_000` stands for a score of `1.0`. More corroborating
//! sources raise the score (capped at three), and tighter numeric agreement
//! raises it further: the population variance of all supplied timestamps is
//! compared against a tolerance of `25` seconds squared.
//!
//! All arithmetic is exact integer arithmetic on the deviation energy
//! `n^2 * variance`, a non-negative integer, so no rounding enters. When a
//! quantity exceeds the 128-bit range the consistency share is zero — the
//! spread is then so large that looser agreement can never outscore tighter
//! agreement — and the score is the exact formula value otherwise.

use vstd::prelude::*;

verus! {

/// The fixed-point unit: this many millionths stand for a score of `1.0`.
pub const SCORE_ONE_MICRO: u32 = 1000000;

/// The smallest element of a non-empty sequence.
pub open spec fn min_seq(s: Seq<u64>) -> u64
    recommends
        s.len() > 0,
    decreases s.len(),
{
    if s.len() <= 1 {
        s[0]
    } else {
        let m = min_seq(s.drop_last());
        if s.last() <= m {
            s.last()
        } else {
            m
        }
    }
}

/// The sum of the deviations of the elements from `m`.
pub open spec fn sum_devs(s: Seq<u64>, m: u64) -> int
    decreases s.len(),
{
    if s.len() == 0 {
        0
    } else {
        sum_devs(s.drop_last(), m) + (s.last() - m)
    }
}

/// The sum of the squared deviations of the elements from `m`.
pub open spec fn sum_sq_devs(s: Seq<u64>, m: u64) -> int
    decreases s.len(),
{
    if s.len() == 0 {
        0
    } else {
        sum_sq_devs(s.drop_last(), m) + (s.last() - m) * (s.last() - m)
    }
}

/// Whether the scaled deviation sums of the sequence fit the 128-bit
/// range: `n * sum(y^2)` and `sum(y)^2` over the deviations `y` from the
/// minimum.
pub open spec fn energy_fits(s: Seq<u64>) -> bool {
    let m = min_seq(s);
    let n = s.len() as int;
    &&& n * sum_sq_devs(s, m) <= u128::MAX as int
    &&& sum_devs(s, m) * sum_devs(s, m) <= u128::MAX as int
}

/// The deviation energy of a timestamp sequence: `n * sum(y^2) - sum(y)^2`
/// over the deviations `y` from the minimum, which equals `n^2` times the
/// population variance. The difference is non-negative mathematically; the
/// guard merely keeps the definition total.
pub open spec fn deviation_energy(s: Seq<u64>) -> int
    recommends
        s.len() > 0,
{
    let m = min_seq(s);
    let n = s.len() as int;
    let nq = n * sum_sq_devs(s, m);
    let ss = sum_devs(s, m) * sum_devs(s, m);
    if nq >= ss {
        nq - ss
    } else {
        0
    }
}

/// The consistency contribution, in millionths, of a sequence of at least
/// two timestamps: `400_000` (a score of `0.4`) when the variance is below
/// `25`, else `0.4 * 25 / variance`, computed exactly as `10^7 * n^2`
/// divided by the deviation energy and capped at `400_000`. Whenever a
/// scaled quantity exceeds the 128-bit range the share is zero, so a wider
/// spread never outscores a tighter one.
pub open spec fn consistency_micro(s: Seq<u64>) -> int
    recommends
        s.len() >= 2,
{
    let n = s.len() as int;
    if !energy_fits(s) {
        0
    } else if deviation_energy(s) < 25 * n * n {
        400000
    } else if 10000000 * n * n > u128::MAX as int {
        0
    } else {
        let c = 10000000 * n * n / deviation_energy(s);
        if c > 400000 {
            400000
        } else {
            c
        }
    }
}

/// The source-count contribution, in millionths: `0.2` per source, capped
/// at three corroborating sources (`0.6`).
pub open spec fn source_score_micro(sources: int) -> int {
    if sources * 200000 > 600000 {
        600000
    } else {
        sources * 200000
    }
}

/// The confidence score, in millionths, of a timestamp sequence and its
/// source count: the source contribution plus either a fixed single-source
/// consistency bonus of `0.2` or the variance-based consistency
/// contribution, capped at `1.0`.
pub open spec fn confidence_micro(ts: Seq<u64>, sources: int) -> int {
    if ts.len() == 0 {
        0
    } else if ts.len() == 1 {
        source_score_micro(sources) + 200000
    } else {
        let c = source_score_micro(sources) + consistency_micro(ts);
        if c > 1000000 {
            1000000
        } else {
            c
        }
    }
}

/// The minimum of a sequence is one of its elements and is dominated by
/// them all.
pub proof fn lemma_min_seq_bounds(s: Seq<u64>)
    requires
        s.len() > 0,
    ensures
        s.contains(min_seq(s)),
        forall|j: int| 0 <= j < s.len() ==> min_seq(s) <= s[j],
    decreases s.len(),
{
    if s.len() > 1 {
        lemma_min_seq_bounds(s.drop_last());
        if min_seq(s) == s.last() {
            assert(s[s.len() - 1] == min_seq(s));
        } else {
            let k = choose|k: int|
                0 <= k < s.drop_last().len() && s.drop_last()[k] == min_seq(s.drop_last());
            assert(s[k] == min_seq(s));
        }
        assert forall|j: int| 0 <= j < s.len() implies min_seq(s) <= s[j] by {
            if j < s.len() - 1 {
                assert(s.drop_last()[j] == s[j]);
                assert(min_seq(s.drop_last()) <= s.drop_last()[j]);
            }
        }
    }
}

/// The deviation sum never falls when more elements follow.
proof fn lemma_sum_devs_extend(s: Seq<u64>, m: u64, k: int)
    requires
        0 <= k <= s.len(),
        forall|j: int| 0 <= j < s.len() ==> m <= s[j],
    ensures
        sum_devs(s, m) >= sum_devs(s.take(k), m),
    decreases s.len() - k,
{
    if k == s.len() {
        assert(s.take(k) =~= s);
    } else {
        lemma_sum_devs_extend(s, m, k + 1);
        assert(s.take(k + 1).drop_last() =~= s.take(k));
        assert(s.take(k + 1).last() == s[k]);
    }
}

/// The squared-deviation sum never falls when more elements follow.
proof fn lemma_sum_sq_devs_extend(s: Seq<u64>, m: u64, k: int)
    requires
        0 <= k <= s.len(),
    ensures
        sum_sq_devs(s, m) >= sum_sq_devs(s.take(k), m),
    decreases s.len() - k,
{
    if k == s.len() {
        assert(s.take(k) =~= s);
    } else {
        lemma_sum_sq_devs_extend(s, m, k + 1);
        assert(s.take(k + 1).drop_last() =~= s.take(k));
        assert(s.take(k + 1).last() == s[k]);
        let y = s[k] - m;
        assert(y * y >= 0) by (nonlinear_arith);
    }
}

proof fn lemma_big_q_breaks_fit(s: Seq<u64>, m: u64)
    requires
        s.len() >= 1,
        m == min_seq(s),
        sum_sq_devs(s, m) > u128::MAX as int,
    ensures
        !energy_fits(s),
{
    let n = s.len() as int;
    let q = sum_sq_devs(s, m);
    assert(n * q >= q) by (nonlinear_arith)
        requires
            n >= 1 && q >= 0,
    ;
}

proof fn lemma_big_s_breaks_fit(s: Seq<u64>, m: u64)
    requires
        s.len() >= 1,
        m == min_seq(s),
        sum_devs(s, m) > u128::MAX as int,
    ensures
        !energy_fits(s),
{
    let t = sum_devs(s, m);
    assert(t * t >= t) by (nonlinear_arith)
        requires
            t >= 1,
    ;
}

/// Returns the smallest timestamp of a non-empty vector.
fn min_of(v: &Vec<u64>) -> (r: u64)
    requires
        v@.len() > 0,
    ensures
        r == min_seq(v@),
{
    let mut r = v[0];
    let mut i: usize = 1;
    while i < v.len()
        invariant
            1 <= i <= v@.len(),
            r == min_seq(v@.take(i as int)),
        decreases v@.len() - i,
    {
        let x = v[i];
        proof {
            assert(v@.take(i + 1 as int).drop_last() =~= v@.take(i as int));
            assert(v@.take(i + 1 as int).last() == v@[i as int]);
        }
        if x <= r {
            r = x;
        }
        i += 1;
    }
    proof {
        assert(v@.take(v@.len() as int) =~= v@);
    }
    r
}

/// Computes the confidence score in millionths for the supplied timestamps
/// and the number of contributing sources.
pub fn calculate_confidence_micro(timestamps: &Vec<u64>, successful_sources: usize) -> (r: u32)
    ensures
        r as int == confidence_micro(timestamps@, successful_sources as int),
        r <= SCORE_ONE_MICRO,
{
    if timestamps.len() == 0 {
        return 0;
    }
    let src: u32 = if successful_sources >= 3 {
        600000
    } else {
        (successful_sources as u32) * 200000
    };
    proof {
        assert(src as int == source_score_micro(successful_sources as int));
    }
    if timestamps.len() == 1 {
        return src + 200000;
    }
    let ghost ts = timestamps@;
    let m = min_of(timestamps);
    proof {
        lemma_min_seq_bounds(ts);
    }
    let mut s_acc: u128 = 0;
    let mut q_acc: u128 = 0;
    let mut saturated = false;
    let mut i: usize = 0;
    while i < timestamps.len()
        invariant
            i <= ts.len(),
            ts == timestamps@,
            ts.len() >= 2,
            m == min_seq(ts),
            forall|j: int| 0 <= j < ts.len() ==> m <= ts[j],
            !saturated ==> s_acc as int == sum_devs(ts.take(i as int), m),
            !saturated ==> q_acc as int == sum_sq_devs(ts.take(i as int), m),
            saturated ==> !energy_fits(ts),
        decreases ts.len() - i,
    {
        if !saturated {
            let y: u64 = timestamps[i] - m;
            let y128: u128 = y as u128;
            proof {
                assert(ts.take(i + 1 as int).drop_last() =~= ts.take(i as int));
                assert(ts.take(i + 1 as int).last() == ts[i as int]);
            }
            match y128.checked_mul(y128) {
                Some(term) => {
                    match s_acc.checked_add(y128) {
                        Some(s2) => {
                            match q_acc.checked_add(term) {
                                Some(q2) => {
                                    s_acc = s2;
                                    q_acc = q2;
                                },
                                None => {
                                    saturated = true;
                                    proof {
                                        lemma_sum_sq_devs_extend(ts, m, i + 1);
                                        lemma_big_q_breaks_fit(ts, m);
                                    }
                                },
                            }
                        },
                        None => {
                            saturated = true;
                            proof {
                                lemma_sum_devs_extend(ts, m, i + 1);
                                lemma_big_s_breaks_fit(ts, m);
                            }
                        },
                    }
                },
                None => {
                    saturated = true;
                    proof {
                        lemma_sum_sq_devs_extend(ts, m, i + 1);
                        lemma_big_q_breaks_fit(ts, m);
                    }
                },
            }
        }
        i += 1;
    }
    proof {
        assert(ts.take(ts.len() as int) =~= ts);
    }
    let mut consistency: u32 = 0;
    if !saturated {
        let n128: u128 = timestamps.len() as u128;
        let nq_opt = n128.checked_mul(q_acc);
        let ss_opt = s_acc.checked_mul(s_acc);
        match (nq_opt, ss_opt) {
            (Some(nq), Some(ss)) => {
                proof {
                    assert(energy_fits(ts));
                }
                let e: u128 = if nq >= ss {
                    nq - ss
                } else {
                    0
                };
                proof {
                    assert(e as int == deviation_energy(ts));
                }
                match n128.checked_mul(n128) {
                    None => {
                        // n^2 alone exceeds the range, so the variance
                        // threshold certainly does.
                        proof {
                            let n = ts.len() as int;
                            assert(25 * n * n == 25 * (n * n)) by (nonlinear_arith);
                            assert(deviation_energy(ts) < 25 * n * n);
                        }
                        consistency = 400000;
                    },
                    Some(nn) => {
                        proof {
                            let n = ts.len() as int;
                            assert((n128 as int) * (n128 as int) >= 4) by (nonlinear_arith)
                                requires
                                    n128 >= 2,
                            ;
                            assert(nn as int == n * n);
                            assert(25 * n * n == 25 * (n * n)) by (nonlinear_arith);
                            assert(10000000 * n * n == 10000000 * (n * n)) by (nonlinear_arith);
                        }
                        match 25u128.checked_mul(nn) {
                            None => {
                                consistency = 400000;
                            },
                            Some(t) => {
                                if e < t {
                                    consistency = 400000;
                                } else {
                                    match 10000000u128.checked_mul(nn) {
                                        None => {
                                            // The score numerator exceeds the
                                            // range: the share stays zero.
                                        },
                                        Some(num) => {
                                            let c: u128 = num / e;
                                            consistency = if c > 400000 {
                                                400000
                                            } else {
                                                c as u32
                                            };
                                        },
                                    }
                                }
                            },
                        }
                    },
                }
            },
            _ => {
                // `n * sum(y^2)` or `sum(y)^2` exceeds the range.
                proof {
                    if nq_opt is None {
                        assert((n128 as int) * (q_acc as int) > u128::MAX as int);
                    } else {
                        assert((s_acc as int) * (s_acc as int) > u128::MAX as int);
                    }
                    assert(!energy_fits(ts));
                }
            },
        }
    }
    proof {
        assert(consistency as int == consistency_micro(ts));
    }
    let total: u32 = src + consistency;
    proof {
        assert(total as int == confidence_micro(ts, successful_sources as int));
    }
    total
}

} // verus!

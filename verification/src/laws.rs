//! Library-wide laws, stated and proved once.

use crate::confidence::{
    confidence_micro, consistency_micro, deviation_energy, energy_fits, source_score_micro,
};
use crate::consensus::{
    add_one, best_qualifying_index, clusters_of, consensus_spec, first_join, lower_median,
    sorted_version, u64_le,
};
use crate::text::{dec_chars, dec_chars_pad, digit_char, score_chars};
use crate::verification::{canonical_chars, verification_hash_chars};
use vstd::prelude::*;
use vstd::relations::total_ordering;
use vstd::seq_lib::lemma_sorted_unique;

verus! {

/// For any non-empty timestamp sequence and non-negative source count, the
/// confidence score lies within `[0, 1]` on the millionths scale.
pub proof fn lemma_confidence_bounded(ts: Seq<u64>, sources: int)
    requires
        ts.len() > 0,
        sources >= 0,
    ensures
        0 <= confidence_micro(ts, sources) <= 1000000,
{
    assert(0 <= source_score_micro(sources) <= 600000);
    if ts.len() >= 2 {
        let n = ts.len() as int;
        assert(25 * n * n >= 100 && 10000000 * n * n >= 0) by (nonlinear_arith)
            requires
                n >= 2,
        ;
        if energy_fits(ts) && deviation_energy(ts) >= 25 * n * n && 10000000 * n * n
            <= u128::MAX as int {
            vstd::arithmetic::div_mod::lemma_div_pos_is_pos(
                10000000 * n * n,
                deviation_energy(ts),
            );
        }
        assert(0 <= consistency_micro(ts) <= 400000);
    }
}

/// A sorted one-element sequence is its own ascending rearrangement.
proof fn lemma_sorted_singleton(t: u64)
    ensures
        sorted_version(seq![t]) == seq![t],
{
    let s = seq![t];
    s.lemma_sort_by_ensures(u64_le());
    assert(total_ordering(u64_le()));
    assert(vstd::relations::sorted_by(s, u64_le()));
    lemma_sorted_unique(s.sort_by(u64_le()), s, u64_le());
}

/// A single timestamp with a quorum of one always reaches consensus on
/// that timestamp, with a confidence of exactly `0.4`.
pub proof fn lemma_single_source(t: u64, d: u64)
    ensures
        consensus_spec(seq![t], 1, d) == (t, true),
        confidence_micro(seq![t], 1) == 400000,
{
    let s = seq![t];
    assert(s.drop_last() =~= Seq::<u64>::empty());
    assert(s.last() == t);
    assert(clusters_of(Seq::<u64>::empty(), d) == Seq::<Seq<u64>>::empty());
    assert(first_join(Seq::<Seq<u64>>::empty(), t, d) == -1);
    assert(add_one(Seq::<Seq<u64>>::empty(), t, d) == Seq::<Seq<u64>>::empty().push(seq![t]));
    assert(clusters_of(s, d) == add_one(clusters_of(s.drop_last(), d), s.last(), d));
    let cs = clusters_of(s, d);
    assert(cs =~= seq![seq![t]]);
    assert(cs.drop_last() =~= Seq::<Seq<u64>>::empty());
    assert(best_qualifying_index(Seq::<Seq<u64>>::empty(), 1) == -1);
    assert(cs.last() == seq![t] && cs.last().len() == 1);
    assert(best_qualifying_index(cs, 1) == 0);
    lemma_sorted_singleton(t);
    assert(lower_median(seq![t]) == t);
    assert(consensus_spec(s, 1, d) == (t, true));
    assert(source_score_micro(1) == 200000);
}

/// Hashing is deterministic: two results that agree on the timestamp, the
/// consensus flag, the source labels and their order, and the score always
/// carry the same verification hash.
pub proof fn lemma_hash_deterministic(
    t1: u64,
    c1: bool,
    s1: Seq<Seq<char>>,
    m1: u32,
    t2: u64,
    c2: bool,
    s2: Seq<Seq<char>>,
    m2: u32,
)
    requires
        t1 == t2,
        c1 == c2,
        s1 == s2,
        m1 == m2,
    ensures
        verification_hash_chars(t1, c1, s1, m1) == verification_hash_chars(t2, c2, s2, m2),
{
}

spec fn ten_pow(w: nat) -> int
    decreases w,
{
    if w == 0 {
        1
    } else {
        10 * ten_pow((w - 1) as nat)
    }
}

proof fn lemma_pad_len(n: int, w: nat)
    ensures
        dec_chars_pad(n, w).len() == w,
    decreases w,
{
    if w > 0 {
        lemma_pad_len(n / 10, (w - 1) as nat);
    }
}

proof fn lemma_pad_injective(a: int, b: int, w: nat)
    requires
        0 <= a < ten_pow(w),
        0 <= b < ten_pow(w),
        dec_chars_pad(a, w) == dec_chars_pad(b, w),
    ensures
        a == b,
    decreases w,
{
    if w > 0 {
        assert(dec_chars_pad(a, w).last() == digit_char(a % 10));
        assert(dec_chars_pad(b, w).last() == digit_char(b % 10));
        assert(a % 10 == b % 10);
        assert(dec_chars_pad(a, w).drop_last() =~= dec_chars_pad(a / 10, (w - 1) as nat));
        assert(dec_chars_pad(b, w).drop_last() =~= dec_chars_pad(b / 10, (w - 1) as nat));
        assert(0 <= a / 10 < ten_pow((w - 1) as nat)) by {
            assert(ten_pow(w) == 10 * ten_pow((w - 1) as nat));
        }
        assert(0 <= b / 10 < ten_pow((w - 1) as nat)) by {
            assert(ten_pow(w) == 10 * ten_pow((w - 1) as nat));
        }
        lemma_pad_injective(a / 10, b / 10, (w - 1) as nat);
    }
}

/// The canonical rendering separates scores: two results that agree on
/// every other field but differ in the score (by as little as one
/// millionth, the sixth decimal digit) render to different canonical
/// strings, so their digests can only collide if the hash function does.
pub proof fn lemma_canonical_separates_scores(
    t: u64,
    reached: bool,
    sources: Seq<Seq<char>>,
    m1: u32,
    m2: u32,
)
    requires
        m1 <= 1000000,
        m2 <= 1000000,
        m1 != m2,
    ensures
        canonical_chars(t, reached, sources, m1) != canonical_chars(t, reached, sources, m2),
{
    let c1 = canonical_chars(t, reached, sources, m1);
    let c2 = canonical_chars(t, reached, sources, m2);
    if c1 == c2 {
        let p = dec_chars(t as int) + (if reached {
            "true"@
        } else {
            "false"@
        }) + crate::text::join_commas(sources);
        let s1 = score_chars(m1 as int);
        let s2 = score_chars(m2 as int);
        assert(c1 =~= p + s1);
        assert(c2 =~= p + s2);
        assert(dec_chars(m1 as int / 1000000) == seq![digit_char(m1 as int / 1000000)]);
        assert(dec_chars(m2 as int / 1000000) == seq![digit_char(m2 as int / 1000000)]);
        lemma_pad_len(m1 as int % 1000000, 6);
        lemma_pad_len(m2 as int % 1000000, 6);
        assert(s1.len() == 8 && s2.len() == 8);
        assert forall|j: int| 0 <= j < 8 implies s1[j] == s2[j] by {
            assert(c1[p.len() + j] == s1[j]);
            assert(c2[p.len() + j] == s2[j]);
        }
        assert(s1 =~= s2);
        assert(s1[0] == digit_char(m1 as int / 1000000));
        assert(s2[0] == digit_char(m2 as int / 1000000));
        assert(m1 as int / 1000000 == m2 as int / 1000000);
        let p1 = dec_chars_pad(m1 as int % 1000000, 6);
        let p2 = dec_chars_pad(m2 as int % 1000000, 6);
        assert forall|j: int| 0 <= j < 6 implies p1[j] == p2[j] by {
            assert(s1[2 + j] == p1[j]);
            assert(s2[2 + j] == p2[j]);
        }
        assert(p1 =~= p2);
        assert(ten_pow(6) == 1000000) by {
            reveal_with_fuel(ten_pow, 7);
        }
        lemma_pad_injective(m1 as int % 1000000, m2 as int % 1000000, 6);
        assert(m1 as int == (m1 as int / 1000000) * 1000000 + (m1 as int % 1000000));
        assert(m2 as int == (m2 as int / 1000000) * 1000000 + (m2 as int % 1000000));
        assert(false);
    }
}

} // verus!

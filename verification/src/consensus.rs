//! Timestamp clustering and quorum selection.
//!
//! Timestamps are partitioned in a single greedy pass in input order: each
//! timestamp joins the first existing cluster whose key (the cluster's first
//! member) lies within the tolerance window, else it starts a new cluster.
//! The pass is intentionally order-dependent and non-symmetric, and cluster
//! formation order is explicit, so tie-breaking is deterministic. Among
//! clusters that meet the quorum, the largest wins, earliest-formed first;
//! its lower median is the consensus timestamp.

use vstd::multiset::Multiset;
use vstd::prelude::*;
use vstd::relations::{sorted_by, total_ordering};
use vstd::seq_lib::{group_to_multiset_ensures, lemma_sorted_unique};

verus! {

/// The order the engine sorts timestamps by.
pub open spec fn u64_le() -> spec_fn(u64, u64) -> bool {
    |x: u64, y: u64| x <= y
}

/// The ascending rearrangement of a timestamp sequence.
pub open spec fn sorted_version(s: Seq<u64>) -> Seq<u64> {
    s.sort_by(u64_le())
}

/// The lower median: the element at index `len / 2` of the ascending
/// rearrangement (for even lengths, the lower of the two middle elements).
pub open spec fn lower_median(s: Seq<u64>) -> u64
    recommends
        s.len() > 0,
{
    sorted_version(s)[s.len() as int / 2]
}

/// The largest element of a non-empty sequence.
pub open spec fn max_seq(s: Seq<u64>) -> u64
    recommends
        s.len() > 0,
    decreases s.len(),
{
    if s.len() <= 1 {
        s[0]
    } else {
        let m = max_seq(s.drop_last());
        if s.last() >= m {
            s.last()
        } else {
            m
        }
    }
}

/// Whether two timestamps differ by at most `d` seconds.
pub open spec fn within_diff(a: u64, b: u64, d: u64) -> bool {
    (if a >= b {
        a - b
    } else {
        b - a
    }) <= d
}

/// The index of the first cluster whose key (first member) is within `d` of
/// `t`, or `-1` when none qualifies.
pub open spec fn first_join(cs: Seq<Seq<u64>>, t: u64, d: u64) -> int
    decreases cs.len(),
{
    if cs.len() == 0 {
        -1
    } else if within_diff(t, cs[0][0], d) {
        0
    } else {
        let r = first_join(cs.drop_first(), t, d);
        if r == -1 {
            -1
        } else {
            r + 1
        }
    }
}

/// One step of the greedy pass: `t` joins the first cluster within
/// tolerance, or starts a new cluster keyed by itself.
pub open spec fn add_one(cs: Seq<Seq<u64>>, t: u64, d: u64) -> Seq<Seq<u64>> {
    let j = first_join(cs, t, d);
    if j == -1 {
        cs.push(seq![t])
    } else {
        cs.update(j, cs[j].push(t))
    }
}

/// The clusters formed by the greedy pass over `ts` in input order, in
/// formation order.
pub open spec fn clusters_of(ts: Seq<u64>, d: u64) -> Seq<Seq<u64>>
    decreases ts.len(),
{
    if ts.len() == 0 {
        Seq::empty()
    } else {
        add_one(clusters_of(ts.drop_last(), d), ts.last(), d)
    }
}

/// The index of the earliest-formed cluster of maximal size among those
/// whose size meets the quorum `req`, or `-1` when none does.
pub open spec fn best_qualifying_index(cs: Seq<Seq<u64>>, req: int) -> int
    decreases cs.len(),
{
    if cs.len() == 0 {
        -1
    } else {
        let prev = best_qualifying_index(cs.drop_last(), req);
        if cs.last().len() >= req {
            if prev == -1 || cs.last().len() > cs[prev].len() {
                cs.len() - 1
            } else {
                prev
            }
        } else {
            prev
        }
    }
}

/// The consensus outcome: the representative timestamp and whether a
/// quorum-sized cluster was found.
pub open spec fn consensus_spec(ts: Seq<u64>, req: int, d: u64) -> (u64, bool) {
    if ts.len() == 0 {
        (0u64, false)
    } else if ts.len() < req {
        (max_seq(ts), false)
    } else {
        let cs = clusters_of(ts, d);
        let b = best_qualifying_index(cs, req);
        if b >= 0 {
            (lower_median(cs[b]), true)
        } else {
            (lower_median(ts), false)
        }
    }
}

/// The views of a vector of clusters.
pub open spec fn cluster_views(cs: Seq<Vec<u64>>) -> Seq<Seq<u64>> {
    cs.map_values(|c: Vec<u64>| c@)
}

/// Every cluster the greedy pass forms is non-empty.
pub open spec fn all_nonempty(cs: Seq<Seq<u64>>) -> bool {
    forall|j: int| 0 <= j < cs.len() ==> #[trigger] cs[j].len() > 0
}

/// Everything the clusters hold, as a multiset.
pub open spec fn clusters_contents(cs: Seq<Seq<u64>>) -> Multiset<u64>
    decreases cs.len(),
{
    if cs.len() == 0 {
        Multiset::empty()
    } else {
        clusters_contents(cs.drop_last()).add(cs.last().to_multiset())
    }
}

proof fn lemma_first_join_range(cs: Seq<Seq<u64>>, t: u64, d: u64)
    ensures
        -1 <= first_join(cs, t, d) < cs.len(),
    decreases cs.len(),
{
    if cs.len() > 0 {
        lemma_first_join_range(cs.drop_first(), t, d);
    }
}

proof fn lemma_contents_update_push(cs: Seq<Seq<u64>>, j: int, t: u64)
    requires
        0 <= j < cs.len(),
    ensures
        clusters_contents(cs.update(j, cs[j].push(t))) == clusters_contents(cs).insert(t),
    decreases cs.len(),
{
    broadcast use vstd::seq_lib::group_to_multiset_ensures;

    let updated = cs.update(j, cs[j].push(t));
    if j == cs.len() - 1 {
        assert(updated.drop_last() =~= cs.drop_last());
        assert(updated.last() == cs[j].push(t));
        assert(cs[j].push(t).to_multiset() =~= cs[j].to_multiset().insert(t));
        assert(cs.last() == cs[j]);
        assert(clusters_contents(cs.drop_last()).add(cs[j].to_multiset().insert(t))
            =~= clusters_contents(cs.drop_last()).add(cs[j].to_multiset()).insert(t));
    } else {
        assert(updated.drop_last() =~= cs.drop_last().update(j, cs.drop_last()[j].push(t)));
        assert(updated.last() == cs.last());
        lemma_contents_update_push(cs.drop_last(), j, t);
        assert(clusters_contents(cs.drop_last()).insert(t).add(cs.last().to_multiset())
            =~= clusters_contents(cs.drop_last()).add(cs.last().to_multiset()).insert(t));
    }
}

/// The greedy pass partitions the input: taken together, the clusters hold
/// exactly the supplied timestamps.
pub proof fn lemma_clusters_partition(ts: Seq<u64>, d: u64)
    ensures
        clusters_contents(clusters_of(ts, d)) == ts.to_multiset(),
    decreases ts.len(),
{
    broadcast use vstd::seq_lib::group_to_multiset_ensures;

    if ts.len() == 0 {
        assert(ts.to_multiset() =~= Multiset::empty());
    } else {
        lemma_clusters_partition(ts.drop_last(), d);
        let pre = clusters_of(ts.drop_last(), d);
        let t = ts.last();
        let j = first_join(pre, t, d);
        lemma_first_join_range(pre, t, d);
        if j == -1 {
            let cs = pre.push(seq![t]);
            assert(cs.drop_last() =~= pre);
            assert(cs.last() == seq![t]);
            assert(seq![t].to_multiset() =~= Multiset::empty().insert(t));
            assert(clusters_contents(cs) =~= clusters_contents(pre).insert(t));
        } else {
            lemma_contents_update_push(pre, j, t);
        }
        assert(ts =~= ts.drop_last().push(t));
        assert(ts.drop_last().to_multiset().insert(t) =~= ts.to_multiset());
    }
}

/// The lower median of a non-empty sequence is one of its elements.
pub proof fn lemma_median_member(s: Seq<u64>)
    requires
        s.len() > 0,
    ensures
        s.contains(lower_median(s)),
{
    broadcast use vstd::seq_lib::group_to_multiset_ensures;

    s.lemma_sort_by_ensures(u64_le());
    let sorted = sorted_version(s);
    assert(sorted.len() == s.len()) by {
        assert(sorted.to_multiset().len() == s.to_multiset().len());
    }
    let m = sorted[s.len() as int / 2];
    assert(sorted.contains(m));
    assert(sorted.to_multiset().contains(m));
    assert(s.to_multiset().contains(m));
}

proof fn lemma_cluster_member_in_contents(cs: Seq<Seq<u64>>, j: int, x: u64)
    requires
        0 <= j < cs.len(),
        cs[j].contains(x),
    ensures
        clusters_contents(cs).contains(x),
    decreases cs.len(),
{
    broadcast use vstd::seq_lib::group_to_multiset_ensures;

    if j == cs.len() - 1 {
        assert(cs.last().to_multiset().contains(x));
    } else {
        assert(cs.drop_last()[j] == cs[j]);
        lemma_cluster_member_in_contents(cs.drop_last(), j, x);
    }
}

proof fn lemma_clusters_nonempty(ts: Seq<u64>, d: u64)
    ensures
        all_nonempty(clusters_of(ts, d)),
    decreases ts.len(),
{
    if ts.len() > 0 {
        lemma_clusters_nonempty(ts.drop_last(), d);
        let pre = clusters_of(ts.drop_last(), d);
        let t = ts.last();
        lemma_first_join_range(pre, t, d);
        let j = first_join(pre, t, d);
        let cs = clusters_of(ts, d);
        assert forall|k: int| 0 <= k < cs.len() implies #[trigger] cs[k].len() > 0 by {
            if j == -1 {
                if k < pre.len() {
                    assert(cs[k] == pre[k]);
                } else {
                    assert(cs[k] == seq![t]);
                }
            } else {
                if k == j {
                    assert(cs[k] == pre[j].push(t));
                } else {
                    assert(cs[k] == pre[k]);
                }
            }
        }
    }
}

/// The consensus timestamp of a non-empty sequence is always one of the
/// supplied timestamps.
pub proof fn lemma_consensus_member(ts: Seq<u64>, req: int, d: u64)
    requires
        ts.len() > 0,
    ensures
        ts.contains(consensus_spec(ts, req, d).0),
{
    broadcast use vstd::seq_lib::group_to_multiset_ensures;

    if ts.len() < req {
        lemma_max_seq_bounds(ts);
    } else {
        let cs = clusters_of(ts, d);
        let b = best_qualifying_index(cs, req);
        if b >= 0 {
            lemma_best_qualifying(cs, req);
            lemma_clusters_nonempty(ts, d);
            lemma_median_member(cs[b]);
            lemma_cluster_member_in_contents(cs, b, lower_median(cs[b]));
            lemma_clusters_partition(ts, d);
            assert(ts.to_multiset().contains(lower_median(cs[b])));
        } else {
            lemma_median_member(ts);
        }
    }
}

/// The maximum of a sequence is one of its elements and dominates them all.
pub proof fn lemma_max_seq_bounds(s: Seq<u64>)
    requires
        s.len() > 0,
    ensures
        s.contains(max_seq(s)),
        forall|j: int| 0 <= j < s.len() ==> s[j] <= max_seq(s),
    decreases s.len(),
{
    if s.len() > 1 {
        lemma_max_seq_bounds(s.drop_last());
        if max_seq(s) == s.last() {
            assert(s[s.len() - 1] == max_seq(s));
        } else {
            let k = choose|k: int|
                0 <= k < s.drop_last().len() && s.drop_last()[k] == max_seq(s.drop_last());
            assert(s[k] == max_seq(s));
        }
        assert forall|j: int| 0 <= j < s.len() implies s[j] <= max_seq(s) by {
            if j < s.len() - 1 {
                assert(s.drop_last()[j] == s[j]);
                assert(s.drop_last()[j] <= max_seq(s.drop_last()));
            }
        }
    }
}

/// What the quorum selection yields: `-1` exactly when no cluster meets
/// the quorum; otherwise an index of a quorum-sized cluster that no
/// qualifying cluster exceeds and that no earlier-formed cluster matches.
pub proof fn lemma_best_qualifying(cs: Seq<Seq<u64>>, req: int)
    ensures
        -1 <= best_qualifying_index(cs, req) < cs.len(),
        best_qualifying_index(cs, req) == -1 ==> forall|j: int|
            0 <= j < cs.len() ==> (#[trigger] cs[j].len()) < req,
        best_qualifying_index(cs, req) >= 0 ==> {
            let b = best_qualifying_index(cs, req);
            &&& b < cs.len()
            &&& cs[b].len() >= req
            &&& forall|j: int|
                0 <= j < cs.len() && (#[trigger] cs[j].len()) >= req ==> cs[j].len()
                    <= cs[b].len()
            &&& forall|j: int|
                0 <= j < b ==> (#[trigger] cs[j].len()) < cs[b].len() || cs[j].len() < req
        },
    decreases cs.len(),
{
    if cs.len() > 0 {
        let pre = cs.drop_last();
        lemma_best_qualifying(pre, req);
        assert(forall|j: int| 0 <= j < cs.len() - 1 ==> pre[j] == #[trigger] cs[j]);
        assert(cs.last() == cs[cs.len() - 1]);
        let prev = best_qualifying_index(pre, req);
        let last = cs.len() - 1;
        let b = best_qualifying_index(cs, req);
        if prev >= 0 {
            assert(cs[prev] == pre[prev]);
        }
        if cs[last].len() >= req && (prev == -1 || cs[last].len() > cs[prev].len()) {
            assert(b == last);
            assert forall|j: int|
                0 <= j < cs.len() && (#[trigger] cs[j].len()) >= req implies cs[j].len()
                <= cs[b].len() by {
                if j < last {
                    assert(pre[j] == cs[j]);
                    assert(pre[j].len() >= req);
                    if prev == -1 {
                        assert(pre[j].len() < req);
                    } else {
                        assert(pre[j].len() <= pre[prev].len());
                    }
                }
            }
            assert forall|j: int| 0 <= j < b implies (#[trigger] cs[j].len()) < cs[b].len()
                || cs[j].len() < req by {
                if cs[j].len() >= req {
                    assert(pre[j] == cs[j]);
                    assert(pre[j].len() >= req);
                    if prev == -1 {
                        assert(pre[j].len() < req);
                    } else {
                        assert(pre[j].len() <= pre[prev].len());
                    }
                }
            }
        } else {
            assert(b == prev);
        }
    }
}

proof fn lemma_first_join_found(cs: Seq<Seq<u64>>, t: u64, d: u64, k: int)
    requires
        0 <= k < cs.len(),
        forall|j: int| 0 <= j < k ==> !within_diff(t, #[trigger] cs[j][0], d),
        within_diff(t, cs[k][0], d),
    ensures
        first_join(cs, t, d) == k,
    decreases k,
{
    if k > 0 {
        assert(forall|j: int|
            0 <= j < k - 1 ==> cs.drop_first()[j] == #[trigger] cs[j + 1]);
        lemma_first_join_found(cs.drop_first(), t, d, k - 1);
    }
}

proof fn lemma_first_join_none(cs: Seq<Seq<u64>>, t: u64, d: u64)
    requires
        forall|j: int| 0 <= j < cs.len() ==> !within_diff(t, #[trigger] cs[j][0], d),
    ensures
        first_join(cs, t, d) == -1,
    decreases cs.len(),
{
    if cs.len() > 0 {
        assert(forall|j: int|
            0 <= j < cs.len() - 1 ==> cs.drop_first()[j] == #[trigger] cs[j + 1]);
        lemma_first_join_none(cs.drop_first(), t, d);
    }
}

fn find_join_index(clusters: &Vec<Vec<u64>>, t: u64, d: u64) -> (r: Option<usize>)
    requires
        all_nonempty(cluster_views(clusters@)),
    ensures
        match r {
            Some(k) => k < clusters@.len() && first_join(cluster_views(clusters@), t, d) == k as int,
            None => first_join(cluster_views(clusters@), t, d) == -1,
        },
{
    let ghost cs = cluster_views(clusters@);
    let mut k: usize = 0;
    while k < clusters.len()
        invariant
            k <= clusters@.len(),
            cs == cluster_views(clusters@),
            all_nonempty(cs),
            forall|j: int| 0 <= j < k ==> !within_diff(t, #[trigger] cs[j][0], d),
        decreases clusters@.len() - k,
    {
        proof {
            assert(cs[k as int].len() > 0);
            assert(cs[k as int] == clusters@[k as int]@);
        }
        let key = clusters[k][0];
        let diff = if t >= key {
            t - key
        } else {
            key - t
        };
        if diff <= d {
            proof {
                lemma_first_join_found(cs, t, d, k as int);
            }
            return Some(k);
        }
        k += 1;
    }
    proof {
        lemma_first_join_none(cs, t, d);
    }
    None
}

/// Sorts the timestamps ascending.
fn sort_u64(v: &Vec<u64>) -> (r: Vec<u64>)
    ensures
        r@ == sorted_version(v@),
        r@.len() == v@.len(),
{
    broadcast use group_to_multiset_ensures;

    let mut out: Vec<u64> = Vec::new();
    let mut i: usize = 0;
    while i < v.len()
        invariant
            i <= v@.len(),
            out@.to_multiset() == v@.take(i as int).to_multiset(),
            sorted_by(out@, u64_le()),
        decreases v@.len() - i,
    {
        let x = v[i];
        let ghost pre = out@;
        let mut k: usize = 0;
        while k < out.len() && out[k] <= x
            invariant
                k <= out@.len(),
                out@ == pre,
                forall|j: int| 0 <= j < k ==> pre[j] <= x,
            decreases out@.len() - k,
        {
            k += 1;
        }
        out.insert(k, x);
        proof {
            assert(out@ == pre.insert(k as int, x));
            assert forall|a: int, b: int| 0 <= a < b < out@.len() implies u64_le()(
                out@[a],
                out@[b],
            ) by {
                if b < k {
                    assert(out@[a] == pre[a] && out@[b] == pre[b]);
                } else if a > k {
                    assert(out@[a] == pre[a - 1] && out@[b] == pre[b - 1]);
                } else if a == k {
                    assert(out@[a] == x && out@[b] == pre[b - 1]);
                    assert(k < pre.len() && pre[k as int] > x);
                    assert(u64_le()(pre[k as int], pre[b - 1]));
                } else if b == k {
                    assert(out@[a] == pre[a] && out@[b] == x);
                } else {
                    // a < k < b
                    assert(out@[a] == pre[a] && out@[b] == pre[b - 1]);
                    assert(u64_le()(pre[k as int], pre[b - 1]));
                }
            }
            assert(sorted_by(out@, u64_le()));
            assert(v@.take(i + 1 as int) =~= v@.take(i as int).push(x));
            vstd::seq_lib::to_multiset_insert(pre, k as int, x);
            vstd::seq_lib::to_multiset_build(v@.take(i as int), x);
            assert(out@.to_multiset() =~= v@.take(i + 1 as int).to_multiset());
        }
        i += 1;
    }
    proof {
        assert(v@.take(v@.len() as int) =~= v@);
        v@.lemma_sort_by_ensures(u64_le());
        assert(total_ordering(u64_le()));
        lemma_sorted_unique(out@, sorted_version(v@), u64_le());
        assert(out@ == sorted_version(v@));
        assert(out@.len() == v@.len()) by {
            assert(out@.to_multiset().len() == v@.to_multiset().len());
        }
    }
    out
}

/// Returns the largest timestamp of a non-empty vector.
fn max_of(v: &Vec<u64>) -> (r: u64)
    requires
        v@.len() > 0,
    ensures
        r == max_seq(v@),
{
    let mut r = v[0];
    let mut i: usize = 1;
    while i < v.len()
        invariant
            1 <= i <= v@.len(),
            r == max_seq(v@.take(i as int)),
        decreases v@.len() - i,
    {
        let x = v[i];
        proof {
            assert(v@.take(i + 1 as int).drop_last() =~= v@.take(i as int));
            assert(v@.take(i + 1 as int).last() == v@[i as int]);
        }
        if x >= r {
            r = x;
        }
        i += 1;
    }
    proof {
        assert(v@.take(v@.len() as int) =~= v@);
    }
    r
}

/// Returns the lower median of a non-empty vector.
fn median_of(v: &Vec<u64>) -> (r: u64)
    requires
        v@.len() > 0,
    ensures
        r == lower_median(v@),
{
    let s = sort_u64(v);
    s[v.len() / 2]
}

/// Applies the quorum rule to a timestamp sequence.
///
/// An empty sequence yields `(0, false)`. Too few sources for the quorum
/// yields the largest timestamp and `false`. Otherwise the greedy clusters
/// are formed; if one of quorum size exists, the lower median of the best
/// one is returned with `true`, else the lower median of all timestamps
/// with `false`.
pub fn calculate_consensus(timestamps: &Vec<u64>, required_consensus: usize, max_time_diff: u64) -> (r: (
    u64,
    bool,
))
    ensures
        r == consensus_spec(timestamps@, required_consensus as int, max_time_diff),
        timestamps@.len() == 0 ==> r == (0u64, false),
        0 < timestamps@.len() < required_consensus ==> !r.1 && r.0 == max_seq(timestamps@)
            && timestamps@.contains(r.0) && (forall|j: int|
            0 <= j < timestamps@.len() ==> #[trigger] timestamps@[j] <= r.0),
        ({
            let cs = clusters_of(timestamps@, max_time_diff);
            let b = best_qualifying_index(cs, required_consensus as int);
            &&& (r.1 <==> timestamps@.len() > 0 && timestamps@.len() >= required_consensus && b
                >= 0)
            &&& (r.1 ==> b < cs.len() && cs[b].len() >= required_consensus && r.0 == lower_median(
                cs[b],
            ) && (forall|j: int|
                0 <= j < cs.len() && (#[trigger] cs[j].len()) >= required_consensus
                    ==> cs[j].len() <= cs[b].len()))
            &&& clusters_contents(cs) == timestamps@.to_multiset()
        }),
        timestamps@.len() > 0 ==> timestamps@.contains(r.0),
{
    proof {
        lemma_clusters_partition(timestamps@, max_time_diff);
    }
    if timestamps.len() == 0 {
        return (0, false);
    }
    proof {
        lemma_consensus_member(timestamps@, required_consensus as int, max_time_diff);
    }
    if timestamps.len() < required_consensus {
        proof {
            lemma_max_seq_bounds(timestamps@);
        }
        return (max_of(timestamps), false);
    }
    let ghost ts = timestamps@;
    let ghost d = max_time_diff;
    let mut clusters: Vec<Vec<u64>> = Vec::new();
    let mut i: usize = 0;
    while i < timestamps.len()
        invariant
            i <= ts.len(),
            ts == timestamps@,
            d == max_time_diff,
            cluster_views(clusters@) == clusters_of(ts.take(i as int), d),
            all_nonempty(cluster_views(clusters@)),
        decreases ts.len() - i,
    {
        let t = timestamps[i];
        let ghost pre = cluster_views(clusters@);
        match find_join_index(&clusters, t, max_time_diff) {
            Some(k) => {
                clusters[k].push(t);
                proof {
                    assert(cluster_views(clusters@) =~= pre.update(
                        k as int,
                        pre[k as int].push(t),
                    ));
                }
            },
            None => {
                let mut c: Vec<u64> = Vec::new();
                c.push(t);
                clusters.push(c);
                proof {
                    assert(c@ =~= seq![t]);
                    assert(cluster_views(clusters@) =~= pre.push(seq![t]));
                }
            },
        }
        proof {
            assert(ts.take(i + 1 as int).drop_last() =~= ts.take(i as int));
            assert(ts.take(i + 1 as int).last() == t);
            assert(cluster_views(clusters@) == add_one(pre, t, d));
            assert(cluster_views(clusters@) == clusters_of(ts.take(i + 1 as int), d));
        }
        i += 1;
    }
    proof {
        assert(ts.take(ts.len() as int) =~= ts);
    }
    let ghost cs = cluster_views(clusters@);
    let mut best: Option<usize> = None;
    let mut j: usize = 0;
    while j < clusters.len()
        invariant
            j <= cs.len(),
            cs == cluster_views(clusters@),
            all_nonempty(cs),
            match best {
                Some(b) => b < j && best_qualifying_index(cs.take(j as int), required_consensus as int)
                    == b as int,
                None => best_qualifying_index(cs.take(j as int), required_consensus as int) == -1,
            },
        decreases cs.len() - j,
    {
        proof {
            assert(cs.take(j + 1 as int).drop_last() =~= cs.take(j as int));
            assert(cs.take(j + 1 as int).last() == cs[j as int]);
            assert(cs[j as int] == clusters@[j as int]@);
        }
        let size = clusters[j].len();
        if size >= required_consensus {
            match best {
                Some(b) => {
                    proof {
                        assert(cs.take(j + 1 as int)[b as int] == cs[b as int]);
                        assert(cs[b as int] == clusters@[b as int]@);
                    }
                    if size > clusters[b].len() {
                        best = Some(j);
                    }
                },
                None => {
                    best = Some(j);
                },
            }
        }
        j += 1;
    }
    proof {
        assert(cs.take(cs.len() as int) =~= cs);
        lemma_best_qualifying(cs, required_consensus as int);
    }
    match best {
        Some(b) => {
            proof {
                assert(cs[b as int] == clusters@[b as int]@);
            }
            (median_of(&clusters[b]), true)
        },
        None => (median_of(timestamps), false),
    }
}

} // verus!

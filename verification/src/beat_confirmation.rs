//! Confirmation of beat candidates across overlapping analysis runs.
//!
//! Each analysis run proposes candidate beat timestamps (nanoseconds on the
//! monotonic clock). A beat is confirmed when candidates from at least
//! `CONFIRMATION_THRESHOLD` runs agree within `CONFIRMATION_TOLERANCE_NANOS`.
use std::collections::VecDeque;
use vstd::prelude::*;

use crate::ordering_util::{
    ascending, ascending_le, is_ascending, lemma_ascending_properties, lemma_ascending_unique,
    sort_ascending,
};
use vstd::multiset::Multiset;
use vstd::seq_lib::commutative_foldr;

verus! {

/// Two candidates agree when they are at most this far apart (20 ms).
pub const CONFIRMATION_TOLERANCE_NANOS: u64 = 20_000_000;

/// Number of runs (and of clustered candidates) needed to confirm a beat.
pub const CONFIRMATION_THRESHOLD: usize = 3;

/// Number of most recent runs that are kept.
pub const MAX_CANDIDATE_RUNS: usize = 5;

/// A beat that several analysis runs agreed on.
#[derive(Clone, Copy, Debug)]
pub struct ConfirmedBeat {
    /// Nanoseconds on the monotonic clock.
    pub timestamp: u64,
}

/// The candidate runs of the most recent analyses, oldest first.
pub struct BeatConfirmation {
    runs: VecDeque<Vec<u64>>,
}

impl View for BeatConfirmation {
    type V = Seq<Seq<u64>>;

    closed spec fn view(&self) -> Seq<Seq<u64>> {
        self.runs@.map_values(|r: Vec<u64>| r@)
    }
}

// ---------------------------------------------------------------------------
// Specification of the confirmation
// ---------------------------------------------------------------------------

/// Distance between two timestamps.
pub open spec fn spec_gap(a: u64, b: u64) -> int {
    if a >= b {
        a - b
    } else {
        b - a
    }
}

/// The indices `lo, lo + 1, ..., hi - 1`.
pub open spec fn index_range(lo: int, hi: int) -> Seq<int> {
    Seq::new((if hi >= lo { hi - lo } else { 0 }) as nat, |k: int| lo + k)
}

/// Index `j` joins the cluster anchored at index `i` of the sorted candidates `all`:
/// it is not yet taken by a confirmed beat and lies within tolerance after the anchor.
pub open spec fn joins_cluster(all: Seq<u64>, used: Seq<bool>, i: int) -> spec_fn(int) -> bool {
    |j: int| !used[j] && all[j] - all[i] <= CONFIRMATION_TOLERANCE_NANOS
}

/// The cluster anchored at index `i`: `i` followed by every later index that joins it.
pub open spec fn cluster_at(all: Seq<u64>, used: Seq<bool>, i: int) -> Seq<int> {
    seq![i] + index_range(i + 1, all.len() as int).filter(joins_cluster(all, used, i))
}

/// The timestamps at the indices of a cluster.
pub open spec fn cluster_timestamps(all: Seq<u64>, cluster: Seq<int>) -> Seq<u64> {
    cluster.map_values(|k: int| all[k])
}

/// A run supports a cluster when one of its candidates is within tolerance of one of
/// the cluster's timestamps.
pub open spec fn run_supports(run: Seq<u64>, cluster_ts: Seq<u64>) -> bool {
    exists|c: int, k: int|
        0 <= c < run.len() && 0 <= k < cluster_ts.len() && spec_gap(run[c], cluster_ts[k])
            <= CONFIRMATION_TOLERANCE_NANOS
}

pub open spec fn supports(cluster_ts: Seq<u64>) -> spec_fn(Seq<u64>) -> bool {
    |run: Seq<u64>| run_supports(run, cluster_ts)
}

/// The number of runs that support a cluster.
pub open spec fn supporting_run_count(runs: Seq<Seq<u64>>, cluster_ts: Seq<u64>) -> nat {
    runs.filter(supports(cluster_ts)).len()
}

/// A cluster confirms a beat when it holds enough candidates and enough runs support it.
pub open spec fn cluster_confirms(runs: Seq<Seq<u64>>, all: Seq<u64>, cluster: Seq<int>) -> bool {
    &&& cluster.len() >= CONFIRMATION_THRESHOLD
    &&& supporting_run_count(runs, cluster_timestamps(all, cluster)) >= CONFIRMATION_THRESHOLD
}

/// The indices of a confirmed cluster become used.
pub open spec fn mark_used(used: Seq<bool>, cluster: Seq<int>) -> Seq<bool> {
    Seq::new(used.len(), |k: int| used[k] || cluster.contains(k))
}

/// The confirmed beat of a cluster: the timestamp at its middle index.
pub open spec fn cluster_beat(all: Seq<u64>, cluster: Seq<int>) -> u64 {
    all[cluster[cluster.len() as int / 2]]
}

/// The scan over the sorted candidates `all` after the anchors `0 .. n` were tried:
/// the used flags and the timestamps confirmed so far.
pub open spec fn scan(runs: Seq<Seq<u64>>, all: Seq<u64>, n: nat) -> (Seq<bool>, Seq<u64>)
    decreases n,
{
    if n == 0 {
        (Seq::new(all.len(), |k: int| false), Seq::empty())
    } else {
        let (used, confirmed) = scan(runs, all, (n - 1) as nat);
        let i = n - 1;
        if used[i] {
            (used, confirmed)
        } else {
            let cluster = cluster_at(all, used, i);
            if cluster_confirms(runs, all, cluster) {
                (mark_used(used, cluster), confirmed.push(cluster_beat(all, cluster)))
            } else {
                (used, confirmed)
            }
        }
    }
}

/// All candidates of all runs, in ascending order.
pub open spec fn sorted_candidates(runs: Seq<Seq<u64>>) -> Seq<u64> {
    ascending(runs.flatten())
}

/// The beats confirmed from the given runs: none with fewer than
/// `CONFIRMATION_THRESHOLD` runs, else the result of scanning every anchor.
pub open spec fn confirmed_timestamps(runs: Seq<Seq<u64>>) -> Seq<u64> {
    if runs.len() < CONFIRMATION_THRESHOLD {
        Seq::empty()
    } else {
        let all = sorted_candidates(runs);
        scan(runs, all, all.len()).1
    }
}

/// The timestamps of a sequence of confirmed beats.
pub open spec fn beat_timestamps(beats: Seq<ConfirmedBeat>) -> Seq<u64> {
    beats.map_values(|b: ConfirmedBeat| b.timestamp)
}

/// The runs kept after a new run is added.
pub open spec fn runs_after_add(runs: Seq<Seq<u64>>, candidates: Seq<u64>) -> Seq<Seq<u64>> {
    if runs.len() >= MAX_CANDIDATE_RUNS {
        runs.drop_first().push(candidates)
    } else {
        runs.push(candidates)
    }
}


/// `lo .. hi` is `lo .. mid` followed by `mid .. hi`.
pub proof fn lemma_index_range_split(lo: int, mid: int, hi: int)
    requires
        lo <= mid <= hi,
    ensures
        index_range(lo, hi) == index_range(lo, mid) + index_range(mid, hi),
{
    assert(index_range(lo, hi) =~= index_range(lo, mid) + index_range(mid, hi));
}

/// In ascending candidates, once an unused index lies beyond tolerance of the anchor,
/// no later index joins the cluster.
proof fn lemma_cluster_stops(all: Seq<u64>, used: Seq<bool>, i: int, j: int)
    requires
        is_ascending(all),
        0 <= i < j < all.len(),
        all[j] - all[i] > CONFIRMATION_TOLERANCE_NANOS,
    ensures
        index_range(i + 1, all.len() as int).filter(joins_cluster(all, used, i))
            == index_range(i + 1, j).filter(joins_cluster(all, used, i)),
{
    let p = joins_cluster(all, used, i);
    let n = all.len() as int;
    lemma_index_range_split(i + 1, j, n);
    Seq::filter_distributes_over_add(index_range(i + 1, j), index_range(j, n), p);
    let tail = index_range(j, n);
    assert forall|k: int| 0 <= k < tail.len() implies !p(#[trigger] tail[k]) by {
        let idx = j + k;
        assert(ascending_le()(all[j], all[idx]));
    }
    assert(tail.all(|x: int| !p(x)));
    tail.lemma_all_neg_filter_empty(p);
    assert(tail.filter(p) =~= Seq::<int>::empty());
    assert(index_range(i + 1, j).filter(p) + tail.filter(p) =~= index_range(i + 1, j).filter(p));
}

/// One more index extends the range by one element.
proof fn lemma_index_range_push(lo: int, hi: int)
    requires
        lo <= hi,
    ensures
        index_range(lo, hi + 1) == index_range(lo, hi).push(hi),
{
    assert(index_range(lo, hi + 1) =~= index_range(lo, hi).push(hi));
}


// ---------------------------------------------------------------------------
// Laws of the confirmation
// ---------------------------------------------------------------------------

/// Adding a run keeps the most recent runs: below `MAX_CANDIDATE_RUNS` every run stays
/// and the new one follows them; at `MAX_CANDIDATE_RUNS` or more the oldest run is the
/// one removed, the others keep their order, and the new run comes last.
pub proof fn lemma_add_keeps_most_recent_runs(runs: Seq<Seq<u64>>, candidates: Seq<u64>)
    ensures
        ({
            let kept = runs_after_add(runs, candidates);
            &&& kept.last() == candidates
            &&& runs.len() < MAX_CANDIDATE_RUNS ==> {
                &&& kept.len() == runs.len() + 1
                &&& forall|k: int| 0 <= k < runs.len() ==> kept[k] == #[trigger] runs[k]
            }
            &&& runs.len() >= MAX_CANDIDATE_RUNS ==> {
                &&& kept.len() == runs.len()
                &&& forall|k: int| 1 <= k < runs.len() ==> kept[k - 1] == #[trigger] runs[k]
            }
        }),
{
}

/// With fewer than `CONFIRMATION_THRESHOLD` runs no beat is confirmed.
pub proof fn lemma_too_few_runs_confirm_nothing(runs: Seq<Seq<u64>>)
    requires
        runs.len() < CONFIRMATION_THRESHOLD,
    ensures
        confirmed_timestamps(runs).len() == 0,
{
}

/// The members of a cluster lie within tolerance after its anchor, and every later
/// untaken index outside the cluster lies beyond tolerance.
pub proof fn lemma_cluster_members(all: Seq<u64>, used: Seq<bool>, i: int)
    requires
        is_ascending(all),
        0 <= i < all.len(),
    ensures
        cluster_at(all, used, i).len() >= 1,
        cluster_at(all, used, i)[0] == i,
        forall|k: int|
            0 <= k < cluster_at(all, used, i).len() ==> {
                let m = #[trigger] cluster_at(all, used, i)[k];
                &&& i <= m < all.len()
                &&& all[i] <= all[m] <= all[i] + CONFIRMATION_TOLERANCE_NANOS
            },
        forall|j: int|
            i < j < all.len() && !used[j] && !(#[trigger] cluster_at(all, used, i).contains(j))
                ==> all[j] - all[i] > CONFIRMATION_TOLERANCE_NANOS,
{
    let p = joins_cluster(all, used, i);
    let range = index_range(i + 1, all.len() as int);
    let tail = range.filter(p);
    let cl = cluster_at(all, used, i);
    assert(cl == seq![i] + tail);
    assert forall|k: int| 0 <= k < cl.len() implies {
        let m = #[trigger] cl[k];
        &&& i <= m < all.len()
        &&& all[i] <= all[m] <= all[i] + CONFIRMATION_TOLERANCE_NANOS
    } by {
        if k > 0 {
            let m = cl[k];
            assert(m == tail[k - 1]);
            range.lemma_filter_pred(p, k - 1);
            assert(tail.contains(m));
            range.lemma_filter_contains_rev(p, m);
            let w = choose|w: int| 0 <= w < range.len() && range[w] == m;
            assert(ascending_le()(all[i], all[m]));
        }
    }
    assert forall|j: int|
        i < j < all.len() && !used[j] && !(#[trigger] cl.contains(j)) implies all[j] - all[i]
            > CONFIRMATION_TOLERANCE_NANOS by {
        let w = j - (i + 1);
        assert(range[w] == j);
        if all[j] - all[i] <= CONFIRMATION_TOLERANCE_NANOS {
            assert(p(j));
            range.lemma_filter_contains(p, w);
            let t = choose|t: int| 0 <= t < tail.len() && tail[t] == j;
            assert(cl[t + 1] == j);
        }
    }
}

/// The scan keeps the used flags as long as the candidates, and every confirmed beat is
/// a candidate, earlier than every later candidate not yet taken; so the confirmed beats
/// come out in strictly ascending order.
pub proof fn lemma_scan_ascending(runs: Seq<Seq<u64>>, all: Seq<u64>, n: nat)
    requires
        is_ascending(all),
        n <= all.len(),
    ensures
        scan(runs, all, n).0.len() == all.len(),
        forall|a: int, b: int|
            0 <= a < b < scan(runs, all, n).1.len() ==> scan(runs, all, n).1[a] < scan(runs, all, n).1[b],
        forall|k: int| 0 <= k < scan(runs, all, n).1.len() ==> all.contains(#[trigger] scan(runs, all, n).1[k]),
        scan(runs, all, n).1.len() > 0 ==> forall|j: int|
            n <= j < all.len() && !scan(runs, all, n).0[j] ==> scan(runs, all, n).1.last() < #[trigger] all[j],
    decreases n,
{
    if n > 0 {
        lemma_scan_ascending(runs, all, (n - 1) as nat);
        let (used, conf) = scan(runs, all, (n - 1) as nat);
        let i = n - 1;
        if !used[i] {
            let cl = cluster_at(all, used, i);
            if cluster_confirms(runs, all, cl) {
                lemma_cluster_members(all, used, i);
                let mid = cl[cl.len() as int / 2];
                let m = cluster_beat(all, cl);
                let (used1, conf1) = scan(runs, all, n);
                assert(conf1 == conf.push(m));
                assert(used1 == mark_used(used, cl));
                assert(all.contains(m)) by {
                    assert(all[mid] == m);
                }
                assert(all[i] <= m <= all[i] + CONFIRMATION_TOLERANCE_NANOS);
                if conf.len() > 0 {
                    assert(conf.last() < all[i]);
                }
                assert forall|a: int, b: int| 0 <= a < b < conf1.len() implies conf1[a] < conf1[b] by {
                    if b == conf1.len() - 1 && conf.len() > 0 {
                        if a < conf.len() - 1 {
                            assert(conf[a] < conf[conf.len() - 1]);
                        }
                    }
                }
                assert forall|j: int| n <= j < all.len() && !used1[j] implies conf1.last() < #[trigger] all[j] by {
                    assert(!used[j]);
                    assert(!cl.contains(j));
                }
            }
        }
    }
}

/// Every confirmed beat is one of the candidates, and the confirmed beats are in strictly
/// ascending order.
pub proof fn lemma_confirmed_beats_ordered_candidates(runs: Seq<Seq<u64>>)
    ensures
        forall|k: int|
            0 <= k < confirmed_timestamps(runs).len() ==> runs.flatten().contains(
                #[trigger] confirmed_timestamps(runs)[k],
            ),
        forall|a: int, b: int|
            0 <= a < b < confirmed_timestamps(runs).len() ==> confirmed_timestamps(runs)[a]
                < confirmed_timestamps(runs)[b],
{
    if runs.len() >= CONFIRMATION_THRESHOLD {
        let all = sorted_candidates(runs);
        lemma_ascending_properties(runs.flatten());
        lemma_scan_ascending(runs, all, all.len());
        assert forall|k: int| 0 <= k < confirmed_timestamps(runs).len() implies runs.flatten().contains(
            #[trigger] confirmed_timestamps(runs)[k],
        ) by {
            let x = confirmed_timestamps(runs)[k];
            assert(all.contains(x));
            broadcast use vstd::seq_lib::group_to_multiset_ensures;

            assert(all.to_multiset().contains(x));
        }
    }
}


// ---------------------------------------------------------------------------
// The confirmation depends only on the runs taken as multisets
// ---------------------------------------------------------------------------

/// The runs as a multiset of multisets: neither the order of the runs nor the order of
/// the candidates within a run is seen.
pub open spec fn runs_multiset(runs: Seq<Seq<u64>>) -> Multiset<Multiset<u64>> {
    runs.map_values(|r: Seq<u64>| r.to_multiset()).to_multiset()
}

pub open spec fn run_multisets(runs: Seq<Seq<u64>>) -> Seq<Multiset<u64>> {
    runs.map_values(|r: Seq<u64>| r.to_multiset())
}

pub open spec fn multiset_sum_step() -> spec_fn(Multiset<u64>, Multiset<u64>) -> Multiset<u64> {
    |m: Multiset<u64>, acc: Multiset<u64>| m.add(acc)
}

/// `x` lies within tolerance of one of the cluster's timestamps.
pub open spec fn near_cluster(x: u64, cluster_ts: Seq<u64>) -> bool {
    exists|k: int| 0 <= k < cluster_ts.len() && spec_gap(x, cluster_ts[k]) <= CONFIRMATION_TOLERANCE_NANOS
}

pub open spec fn supports_multiset(cluster_ts: Seq<u64>) -> spec_fn(Multiset<u64>) -> bool {
    |m: Multiset<u64>| exists|x: u64| m.count(x) > 0 && near_cluster(x, cluster_ts)
}

pub open spec fn count_step(cluster_ts: Seq<u64>) -> spec_fn(Multiset<u64>, nat) -> nat {
    |m: Multiset<u64>, acc: nat| acc + (if supports_multiset(cluster_ts)(m) { 1nat } else { 0nat })
}

proof fn lemma_sum_step_commutes()
    ensures
        commutative_foldr(multiset_sum_step()),
{
    broadcast use vstd::multiset::group_multiset_axioms;

    assert forall|x: Multiset<u64>, y: Multiset<u64>, v: Multiset<u64>|
        #[trigger] multiset_sum_step()(x, multiset_sum_step()(y, v)) == multiset_sum_step()(
            y,
            multiset_sum_step()(x, v),
        ) by {
        assert(x.add(y.add(v)) =~= y.add(x.add(v)));
    }
}

/// Folding the sum from an accumulator adds the accumulator.
proof fn lemma_sum_fold_accumulates(s: Seq<Multiset<u64>>, b: Multiset<u64>)
    ensures
        s.fold_right(multiset_sum_step(), b) == s.fold_right(multiset_sum_step(), Multiset::empty()).add(b),
    decreases s.len(),
{
    broadcast use vstd::multiset::group_multiset_axioms;

    let f = multiset_sum_step();
    if s.len() == 0 {
        assert(Multiset::<u64>::empty().add(b) =~= b);
    } else {
        let l = s.last();
        lemma_sum_fold_accumulates(s.drop_last(), f(l, b));
        lemma_sum_fold_accumulates(s.drop_last(), f(l, Multiset::empty()));
        let x = s.drop_last().fold_right(f, Multiset::empty());
        assert(x.add(l.add(b)) =~= x.add(l.add(Multiset::empty())).add(b));
    }
}

/// The candidates of all runs, as a multiset, are the sum of the runs' multisets.
proof fn lemma_flatten_multiset(runs: Seq<Seq<u64>>)
    ensures
        runs.flatten().to_multiset() == run_multisets(runs).fold_right(multiset_sum_step(), Multiset::empty()),
    decreases runs.len(),
{
    broadcast use vstd::multiset::group_multiset_axioms;
    broadcast use vstd::seq_lib::group_to_multiset_ensures;

    let f = multiset_sum_step();
    if runs.len() == 0 {
        assert(runs.flatten() =~= Seq::<u64>::empty());
        assert(runs.flatten().to_multiset() =~= Multiset::empty());
    } else {
        let init = runs.drop_last();
        let l = runs.last();
        lemma_flatten_multiset(init);
        assert(init.push(l) =~= runs);
        init.lemma_flatten_push(l);
        vstd::seq_lib::lemma_multiset_commutative(init.flatten(), l);
        assert(run_multisets(runs).drop_last() =~= run_multisets(init));
        lemma_sum_fold_accumulates(run_multisets(init), f(l.to_multiset(), Multiset::empty()));
        let x = run_multisets(init).fold_right(f, Multiset::empty());
        assert(x.add(l.to_multiset().add(Multiset::empty())) =~= x.add(l.to_multiset()));
    }
}

proof fn lemma_count_step_commutes(cts: Seq<u64>)
    ensures
        commutative_foldr(count_step(cts)),
{
}

/// Folding the count from an accumulator adds the accumulator.
proof fn lemma_count_fold_accumulates(s: Seq<Multiset<u64>>, cts: Seq<u64>, b: nat)
    ensures
        s.fold_right(count_step(cts), b) == s.fold_right(count_step(cts), 0nat) + b,
    decreases s.len(),
{
    if s.len() > 0 {
        let g = count_step(cts);
        lemma_count_fold_accumulates(s.drop_last(), cts, g(s.last(), b));
        lemma_count_fold_accumulates(s.drop_last(), cts, g(s.last(), 0nat));
    }
}

/// Whether a run supports a cluster depends only on the run's multiset.
proof fn lemma_supports_by_multiset(run: Seq<u64>, cts: Seq<u64>)
    ensures
        run_supports(run, cts) == supports_multiset(cts)(run.to_multiset()),
{
    broadcast use vstd::seq_lib::group_to_multiset_ensures;

    if run_supports(run, cts) {
        let (c, k) = choose|c: int, k: int|
            0 <= c < run.len() && 0 <= k < cts.len() && spec_gap(run[c], cts[k])
                <= CONFIRMATION_TOLERANCE_NANOS;
        assert(run.contains(run[c]));
        assert(run.to_multiset().count(run[c]) > 0);
        assert(near_cluster(run[c], cts));
    }
    if supports_multiset(cts)(run.to_multiset()) {
        let x = choose|x: u64| run.to_multiset().count(x) > 0 && near_cluster(x, cts);
        assert(run.contains(x));
        let c = choose|c: int| 0 <= c < run.len() && run[c] == x;
        let k = choose|k: int| 0 <= k < cts.len() && spec_gap(x, cts[k]) <= CONFIRMATION_TOLERANCE_NANOS;
        assert(spec_gap(run[c], cts[k]) <= CONFIRMATION_TOLERANCE_NANOS);
    }
}

/// The number of supporting runs is a count over the runs' multisets.
proof fn lemma_supporting_count_fold(runs: Seq<Seq<u64>>, cts: Seq<u64>)
    ensures
        supporting_run_count(runs, cts) == run_multisets(runs).fold_right(count_step(cts), 0nat),
    decreases runs.len(),
{
    if runs.len() > 0 {
        let init = runs.drop_last();
        let l = runs.last();
        lemma_supporting_count_fold(init, cts);
        assert(init.push(l) =~= runs);
        init.lemma_filter_push(l, supports(cts));
        lemma_supports_by_multiset(l, cts);
        assert(run_multisets(runs).drop_last() =~= run_multisets(init));
        lemma_count_fold_accumulates(run_multisets(init), cts, count_step(cts)(l.to_multiset(), 0nat));
    } else {
        assert(runs.filter(supports(cts)) =~= Seq::<Seq<u64>>::empty()) by {
            reveal(Seq::filter);
        }
    }
}

/// Runs with the same multiset of multisets are supported alike and hold the same
/// candidates.
proof fn lemma_same_runs_multiset(runs1: Seq<Seq<u64>>, runs2: Seq<Seq<u64>>)
    requires
        runs_multiset(runs1) == runs_multiset(runs2),
    ensures
        runs1.len() == runs2.len(),
        sorted_candidates(runs1) == sorted_candidates(runs2),
        forall|cts: Seq<u64>| #[trigger] supporting_run_count(runs1, cts) == supporting_run_count(runs2, cts),
{
    broadcast use vstd::seq_lib::group_to_multiset_ensures;

    assert(run_multisets(runs1).to_multiset().len() == run_multisets(runs1).len());
    assert(run_multisets(runs2).to_multiset().len() == run_multisets(runs2).len());
    lemma_sum_step_commutes();
    vstd::seq_lib::lemma_fold_right_permutation(
        run_multisets(runs1),
        run_multisets(runs2),
        multiset_sum_step(),
        Multiset::empty(),
    );
    lemma_flatten_multiset(runs1);
    lemma_flatten_multiset(runs2);
    lemma_ascending_properties(runs1.flatten());
    lemma_ascending_unique(runs2.flatten(), ascending(runs1.flatten()));
    assert forall|cts: Seq<u64>| #[trigger] supporting_run_count(runs1, cts) == supporting_run_count(runs2, cts) by {
        lemma_count_step_commutes(cts);
        vstd::seq_lib::lemma_fold_right_permutation(
            run_multisets(runs1),
            run_multisets(runs2),
            count_step(cts),
            0nat,
        );
        lemma_supporting_count_fold(runs1, cts);
        lemma_supporting_count_fold(runs2, cts);
    }
}

proof fn lemma_scan_same_support(runs1: Seq<Seq<u64>>, runs2: Seq<Seq<u64>>, all: Seq<u64>, n: nat)
    requires
        forall|cts: Seq<u64>| #[trigger] supporting_run_count(runs1, cts) == supporting_run_count(runs2, cts),
    ensures
        scan(runs1, all, n) == scan(runs2, all, n),
    decreases n,
{
    if n > 0 {
        lemma_scan_same_support(runs1, runs2, all, (n - 1) as nat);
        let (used, conf) = scan(runs1, all, (n - 1) as nat);
        let cl = cluster_at(all, used, n - 1);
        assert(supporting_run_count(runs1, cluster_timestamps(all, cl)) == supporting_run_count(
            runs2,
            cluster_timestamps(all, cl),
        ));
    }
}

/// The confirmed beats depend only on the runs taken as a multiset, each run taken as a
/// multiset: reordering the runs, or the candidates within a run, confirms the same
/// beats in the same order.
pub proof fn lemma_confirmation_ignores_order(runs1: Seq<Seq<u64>>, runs2: Seq<Seq<u64>>)
    requires
        runs_multiset(runs1) == runs_multiset(runs2),
    ensures
        confirmed_timestamps(runs1) == confirmed_timestamps(runs2),
{
    lemma_same_runs_multiset(runs1, runs2);
    let all = sorted_candidates(runs1);
    lemma_scan_same_support(runs1, runs2, all, all.len());
}

// ---------------------------------------------------------------------------
// Implementation
// ---------------------------------------------------------------------------

/// Distance between two timestamps.
pub fn instant_diff(a: u64, b: u64) -> (d: u64)
    ensures
        d == spec_gap(a, b),
{
    if a >= b {
        a - b
    } else {
        b - a
    }
}

/// Whether some candidate of `run` lies within tolerance of some timestamp of the cluster.
fn run_has_match(run: &Vec<u64>, cluster_ts: &Vec<u64>) -> (r: bool)
    ensures
        r == run_supports(run@, cluster_ts@),
{
    let mut c: usize = 0;
    while c < run.len()
        invariant
            c <= run.len(),
            forall|c2: int, k: int|
                0 <= c2 < c && 0 <= k < cluster_ts@.len() ==> spec_gap(run@[c2], cluster_ts@[k])
                    > CONFIRMATION_TOLERANCE_NANOS,
        decreases run.len() - c,
    {
        let mut k: usize = 0;
        while k < cluster_ts.len()
            invariant
                c < run.len(),
                k <= cluster_ts.len(),
                forall|k2: int|
                    0 <= k2 < k ==> spec_gap(run@[c as int], cluster_ts@[k2])
                        > CONFIRMATION_TOLERANCE_NANOS,
            decreases cluster_ts.len() - k,
        {
            if instant_diff(run[c], cluster_ts[k]) <= CONFIRMATION_TOLERANCE_NANOS {
                return true;
            }
            k += 1;
        }
        c += 1;
    }
    false
}

/// The indices of an exec cluster, as integers.
pub open spec fn as_int_indices(s: Seq<usize>) -> Seq<int> {
    s.map_values(|x: usize| x as int)
}

/// Whether at least `CONFIRMATION_THRESHOLD` runs support the cluster with the given
/// indices into the sorted candidates.
fn has_distinct_runs(runs: &VecDeque<Vec<u64>>, cluster_indices: &Vec<usize>, all_candidates: &Vec<u64>) -> (r: bool)
    requires
        forall|k: int| 0 <= k < cluster_indices@.len() ==> cluster_indices@[k] < all_candidates@.len(),
    ensures
        r == (supporting_run_count(
            runs@.map_values(|v: Vec<u64>| v@),
            cluster_timestamps(all_candidates@, as_int_indices(cluster_indices@)),
        ) >= CONFIRMATION_THRESHOLD),
{
    let ghost cl = as_int_indices(cluster_indices@);
    let ghost cts = cluster_timestamps(all_candidates@, cl);
    let ghost view = runs@.map_values(|v: Vec<u64>| v@);
    let mut cluster_ts: Vec<u64> = Vec::new();
    let mut k: usize = 0;
    while k < cluster_indices.len()
        invariant
            k <= cluster_indices@.len(),
            cl == as_int_indices(cluster_indices@),
            cts == cluster_timestamps(all_candidates@, cl),
            forall|k2: int| 0 <= k2 < cluster_indices@.len() ==> cluster_indices@[k2] < all_candidates@.len(),
            cluster_ts@ == cts.take(k as int),
        decreases cluster_indices.len() - k,
    {
        cluster_ts.push(all_candidates[cluster_indices[k]]);
        k += 1;
        assert(cluster_ts@ =~= cts.take(k as int));
    }
    assert(cluster_ts@ =~= cts);

    let mut run_count: usize = 0;
    let mut r: usize = 0;
    while r < runs.len()
        invariant
            r <= runs@.len(),
            view == runs@.map_values(|v: Vec<u64>| v@),
            cluster_ts@ == cts,
            run_count as int == view.take(r as int).filter(supports(cts)).len(),
            run_count <= r,
        decreases runs.len() - r,
    {
        let has_match = run_has_match(&runs[r], &cluster_ts);
        proof {
            assert(view.take(r + 1) =~= view.take(r as int).push(view[r as int]));
            view.take(r as int).lemma_filter_push(view[r as int], supports(cts));
        }
        if has_match {
            run_count += 1;
        }
        r += 1;
    }
    assert(view.take(r as int) =~= view);
    run_count >= CONFIRMATION_THRESHOLD
}

impl Default for BeatConfirmation {
    /// No runs yet.
    fn default() -> (bc: Self)
        ensures
            bc@ == Seq::<Seq<u64>>::empty(),
    {
        Self::new()
    }
}

impl BeatConfirmation {
    /// No runs yet.
    pub fn new() -> (bc: Self)
        ensures
            bc@ == Seq::<Seq<u64>>::empty(),
    {
        let bc = BeatConfirmation { runs: VecDeque::new() };
        assert(bc@ =~= Seq::<Seq<u64>>::empty());
        bc
    }

    /// Number of runs kept.
    pub fn run_count(&self) -> (n: usize)
        ensures
            n == self@.len(),
    {
        self.runs.len()
    }

    /// Adds the candidates of one analysis run, dropping the oldest run when
    /// `MAX_CANDIDATE_RUNS` are already kept.
    pub fn add_candidates(&mut self, candidates: Vec<u64>)
        ensures
            final(self)@ == runs_after_add(old(self)@, candidates@),
            old(self)@.len() <= MAX_CANDIDATE_RUNS ==> final(self)@.len() <= MAX_CANDIDATE_RUNS,
    {
        let ghost cand = candidates@;
        if self.runs.len() >= MAX_CANDIDATE_RUNS {
            self.runs.pop_front();
        }
        self.runs.push_back(candidates);
        assert(self@ =~= runs_after_add(old(self)@, cand));
    }

    /// The beats on which the kept runs agree, in ascending order.
    ///
    /// With fewer than `CONFIRMATION_THRESHOLD` runs nothing is confirmed. Otherwise the
    /// candidates of all runs are sorted and scanned in order: each candidate not yet
    /// taken anchors a cluster of the untaken candidates within tolerance after it; a
    /// cluster of at least `CONFIRMATION_THRESHOLD` candidates that at least
    /// `CONFIRMATION_THRESHOLD` runs support confirms the beat at its middle candidate,
    /// and its candidates are taken.
    pub fn confirm(&self) -> (confirmed: Vec<ConfirmedBeat>)
        ensures
            beat_timestamps(confirmed@) == confirmed_timestamps(self@),
    {
        if self.runs.len() < CONFIRMATION_THRESHOLD {
            let none: Vec<ConfirmedBeat> = Vec::new();
            assert(beat_timestamps(none@) =~= Seq::<u64>::empty());
            return none;
        }
        let ghost view = self@;

        // All candidates of all runs.
        let mut all_candidates: Vec<u64> = Vec::new();
        let mut r: usize = 0;
        while r < self.runs.len()
            invariant
                r <= self.runs@.len(),
                view == self@,
                all_candidates@ == view.take(r as int).flatten(),
            decreases self.runs.len() - r,
        {
            let run = &self.runs[r];
            let mut c: usize = 0;
            while c < run.len()
                invariant
                    r < self.runs@.len(),
                    view == self@,
                    *run == self.runs@[r as int],
                    c <= run@.len(),
                    all_candidates@ == view.take(r as int).flatten() + run@.take(c as int),
                decreases run.len() - c,
            {
                all_candidates.push(run[c]);
                c += 1;
                assert(all_candidates@ =~= view.take(r as int).flatten() + run@.take(c as int));
            }
            proof {
                assert(view[r as int] == run@);
                assert(view.take(r + 1) =~= view.take(r as int).push(view[r as int]));
                view.take(r as int).lemma_flatten_push(view[r as int]);
                assert(run@.take(run@.len() as int) =~= run@);
            }
            r += 1;
        }
        assert(view.take(r as int) =~= view);

        sort_ascending(&mut all_candidates);
        let ghost all = all_candidates@;
        proof {
            lemma_ascending_properties(view.flatten());
        }
        let n = all_candidates.len();

        let mut used: Vec<bool> = Vec::new();
        let mut k: usize = 0;
        while k < n
            invariant
                k <= n,
                used@ == Seq::new(k as nat, |x: int| false),
            decreases n - k,
        {
            used.push(false);
            k += 1;
            assert(used@ =~= Seq::new(k as nat, |x: int| false));
        }

        let mut confirmed: Vec<ConfirmedBeat> = Vec::new();
        let mut i: usize = 0;
        assert(used@ =~= scan(view, all, 0).0);
        assert(beat_timestamps(confirmed@) =~= scan(view, all, 0).1);
        while i < n
            invariant
                i <= n,
                n == all.len(),
                view == self@,
                all == all_candidates@,
                all == sorted_candidates(view),
                is_ascending(all),
                used@.len() == n,
                used@ == scan(view, all, i as nat).0,
                beat_timestamps(confirmed@) == scan(view, all, i as nat).1,
            decreases n - i,
        {
            let ghost used0 = used@;
            if !used[i] {
                let anchor = all_candidates[i];
                let ghost p = joins_cluster(all, used0, i as int);
                let mut cluster: Vec<usize> = Vec::new();
                cluster.push(i);
                let mut j: usize = i + 1;
                let mut stop = false;
                assert(as_int_indices(cluster@) =~= seq![i as int] + index_range(i + 1, j as int).filter(p)) by {
                    assert(index_range(i + 1, j as int) =~= Seq::<int>::empty());
                    reveal(Seq::filter);
                }
                while j < n && !stop
                    invariant
                        i < j <= n,
                        n == all.len(),
                        all == all_candidates@,
                        is_ascending(all),
                        used@ == used0,
                        used0.len() == n,
                        anchor == all[i as int],
                        p == joins_cluster(all, used0, i as int),
                        as_int_indices(cluster@) == seq![i as int] + index_range(i + 1, j as int).filter(p),
                        stop ==> j < n && !used0[j as int] && all[j as int] - all[i as int] > CONFIRMATION_TOLERANCE_NANOS,
                        forall|x: int| 0 <= x < cluster@.len() ==> #[trigger] cluster@[x] < n,
                    decreases (n - j) * 2 + (if stop { 0int } else { 1int }),
                {
                    if used[j] {
                        proof {
                            lemma_index_range_push(i + 1, j as int);
                            index_range(i + 1, j as int).lemma_filter_push(j as int, p);
                        }
                        j += 1;
                    } else {
                        proof {
                            assert(ascending_le()(all[i as int], all[j as int]));
                        }
                        let diff = all_candidates[j] - anchor;
                        if diff > CONFIRMATION_TOLERANCE_NANOS {
                            stop = true;
                        } else {
                            proof {
                                lemma_index_range_push(i + 1, j as int);
                                index_range(i + 1, j as int).lemma_filter_push(j as int, p);
                            }
                            let ghost before = cluster@;
                            assert(p(j as int));
                            cluster.push(j);
                            assert(as_int_indices(cluster@) =~= as_int_indices(before).push(j as int));
                            assert(as_int_indices(cluster@) =~= seq![i as int] + index_range(i + 1, j + 1).filter(p));
                            j += 1;
                        }
                    }
                }
                proof {
                    if stop {
                        lemma_cluster_stops(all, used0, i as int, j as int);
                    }
                    assert(as_int_indices(cluster@) == cluster_at(all, used0, i as int));
                }
                let ghost cl = cluster_at(all, used0, i as int);
                if cluster.len() >= CONFIRMATION_THRESHOLD && has_distinct_runs(&self.runs, &cluster, &all_candidates) {
                    let mut m: usize = 0;
                    while m < cluster.len()
                        invariant
                            m <= cluster@.len(),
                            n == used0.len(),
                            cl == as_int_indices(cluster@),
                            forall|x: int| 0 <= x < cluster@.len() ==> #[trigger] cluster@[x] < n,
                            used@ == Seq::new(n as nat, |x: int| used0[x] || cl.take(m as int).contains(x)),
                        decreases cluster.len() - m,
                    {
                        let idx = cluster[m];
                        used.set(idx, true);
                        proof {
                            assert(cl.take(m + 1) =~= cl.take(m as int).push(cl[m as int]));
                            assert(cl[m as int] == idx as int);
                            assert forall|x: int| #[trigger] cl.take(m + 1).contains(x) == (cl.take(m as int).contains(x) || x == idx) by {
                                if x == idx {
                                    assert(cl.take(m + 1)[m as int] == x);
                                }
                                let t0 = cl.take(m as int);
                                if t0.contains(x) {
                                    let w = choose|w: int| 0 <= w < t0.len() && t0[w] == x;
                                    assert(cl.take(m + 1)[w] == x);
                                }
                                let t1 = cl.take(m + 1);
                                if t1.contains(x) {
                                    let w = choose|w: int| 0 <= w < t1.len() && t1[w] == x;
                                    if w < m {
                                        assert(cl.take(m as int)[w] == x);
                                    }
                                }
                            }
                        }
                        m += 1;
                        assert(used@ =~= Seq::new(n as nat, |x: int| used0[x] || cl.take(m as int).contains(x)));
                    }
                    assert(cl.take(m as int) =~= cl);
                    assert(used@ =~= mark_used(used0, cl));
                    let median_idx = cluster[cluster.len() / 2];
                    confirmed.push(ConfirmedBeat { timestamp: all_candidates[median_idx] });
                    assert(beat_timestamps(confirmed@) =~= scan(view, all, i as nat).1.push(cluster_beat(all, cl)));
                }
            }
            i += 1;
        }
        confirmed
    }
}

} // verus!

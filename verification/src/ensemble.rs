//! Ensemble voting: which detector each configured method runs, how the
//! flags of the detectors are tallied, and which points a majority reports.

use vstd::prelude::*;

use crate::detector::AnomalyDetector;
use crate::seasonal::decomposes;
use crate::window::rolling_applies;

verus! {

/// Number of times `i` occurs in `s`.
pub open spec fn occurrences(s: Seq<usize>, i: usize) -> nat
    decreases s.len(),
{
    if s.len() == 0 {
        0
    } else {
        occurrences(s.drop_last(), i) + if s.last() == i {
            1nat
        } else {
            0nat
        }
    }
}

/// Votes that point `i` receives: the number of times any method flagged it.
pub open spec fn vote_count(flagged: Seq<Vec<usize>>, i: usize) -> nat
    decreases flagged.len(),
{
    if flagged.len() == 0 {
        0
    } else {
        vote_count(flagged.drop_last(), i) + occurrences(flagged.last()@, i)
    }
}

/// Total number of flags raised by all methods together.
pub open spec fn total_flags(flagged: Seq<Vec<usize>>) -> nat
    decreases flagged.len(),
{
    if flagged.len() == 0 {
        0
    } else {
        total_flags(flagged.drop_last()) + flagged.last()@.len()
    }
}

/// A point is reported by the ensemble when more than half of the methods flag it.
pub open spec fn is_majority(votes: nat, method_count: nat) -> bool {
    2 * votes > method_count
}

/// A sequence of indices in strictly increasing order.
pub open spec fn strictly_increasing(s: Seq<usize>) -> bool {
    forall|a: int, b: int| 0 <= a < b < s.len() ==> s[a] < s[b]
}

proof fn lemma_occurrences_le_len(s: Seq<usize>, i: usize)
    ensures
        occurrences(s, i) <= s.len(),
    decreases s.len(),
{
    if s.len() > 0 {
        lemma_occurrences_le_len(s.drop_last(), i);
    }
}

proof fn lemma_occurrences_push(s: Seq<usize>, x: usize, i: usize)
    ensures
        occurrences(s.push(x), i) == occurrences(s, i) + if x == i {
            1nat
        } else {
            0nat
        },
{
    assert(s.push(x).drop_last() =~= s);
}

proof fn lemma_vote_count_le_total(flagged: Seq<Vec<usize>>, i: usize)
    ensures
        vote_count(flagged, i) <= total_flags(flagged),
    decreases flagged.len(),
{
    if flagged.len() > 0 {
        lemma_vote_count_le_total(flagged.drop_last(), i);
        lemma_occurrences_le_len(flagged.last()@, i);
    }
}

proof fn lemma_vote_count_take(flagged: Seq<Vec<usize>>, m: int, i: usize)
    requires
        0 <= m < flagged.len(),
    ensures
        vote_count(flagged.take(m + 1), i) == vote_count(flagged.take(m), i) + occurrences(
            flagged[m]@,
            i,
        ),
        total_flags(flagged.take(m + 1)) == total_flags(flagged.take(m)) + flagged[m]@.len(),
{
    assert(flagged.take(m + 1).drop_last() =~= flagged.take(m));
}

proof fn lemma_total_flags_take(flagged: Seq<Vec<usize>>, m: int)
    requires
        0 <= m <= flagged.len(),
    ensures
        total_flags(flagged.take(m)) <= total_flags(flagged),
    decreases flagged.len() - m,
{
    if m < flagged.len() {
        lemma_vote_count_take(flagged, m, 0);
        lemma_total_flags_take(flagged, m + 1);
    } else {
        assert(flagged.take(m) =~= flagged);
    }
}

/// Counts, for each point `0..n`, how many flags the methods raised for it.
/// Flags at positions `n` or beyond are ignored.
pub fn tally_votes(n: usize, flagged: &Vec<Vec<usize>>) -> (votes: Vec<usize>)
    requires
        total_flags(flagged@) <= usize::MAX,
    ensures
        votes.len() == n,
        forall|i: int| 0 <= i < n ==> votes[i] == vote_count(flagged@, i as usize),
{
    let mut votes: Vec<usize> = Vec::new();
    let mut j: usize = 0;
    while j < n
        invariant
            j <= n,
            votes.len() == j,
            forall|i: int| 0 <= i < j ==> votes[i] == 0,
        decreases n - j,
    {
        votes.push(0);
        j = j + 1;
    }
    assert(flagged@.take(0) =~= Seq::<Vec<usize>>::empty());
    let mut m: usize = 0;
    while m < flagged.len()
        invariant
            m <= flagged.len(),
            votes.len() == n,
            total_flags(flagged@) <= usize::MAX,
            forall|i: int| 0 <= i < n ==> votes[i] == vote_count(flagged@.take(m as int), i as usize),
        decreases flagged.len() - m,
    {
        let list = &flagged[m];
        proof {
            lemma_total_flags_take(flagged@, m + 1);
            lemma_vote_count_take(flagged@, m as int, 0);
        }
        let mut k: usize = 0;
        while k < list.len()
            invariant
                m < flagged.len(),
                list == &flagged@[m as int],
                k <= list.len(),
                votes.len() == n,
                total_flags(flagged@.take(m as int)) + list@.len() <= usize::MAX,
                forall|i: int|
                    0 <= i < n ==> votes[i] == vote_count(flagged@.take(m as int), i as usize)
                        + occurrences(list@.take(k as int), i as usize),
            decreases list.len() - k,
        {
            let idx = list[k];
            proof {
                assert(list@.take(k + 1) =~= list@.take(k as int).push(idx));
                assert forall|i: int| 0 <= i < n implies #[trigger] occurrences(
                    list@.take(k + 1),
                    i as usize,
                ) == occurrences(list@.take(k as int), i as usize) + if idx == i as usize {
                    1nat
                } else {
                    0nat
                } by {
                    lemma_occurrences_push(list@.take(k as int), idx, i as usize);
                }
            }
            if idx < n {
                proof {
                    lemma_vote_count_le_total(flagged@.take(m as int), idx);
                    lemma_occurrences_le_len(list@.take(k as int), idx);
                }
                let current = votes[idx];
                votes.set(idx, current + 1);
            }
            k = k + 1;
        }
        proof {
            assert(list@.take(list@.len() as int) =~= list@);
            assert forall|i: int| 0 <= i < n implies votes[i] == vote_count(
                flagged@.take(m + 1),
                i as usize,
            ) by {
                lemma_vote_count_take(flagged@, m as int, i as usize);
            }
        }
        m = m + 1;
    }
    assert(flagged@.take(flagged.len() as int) =~= flagged@);
    votes
}

/// Fewest votes that form a majority of `method_count` methods.
pub fn required_votes(method_count: usize) -> (required: usize)
    ensures
        required == method_count / 2 + 1,
        forall|v: nat| v >= required <==> #[trigger] is_majority(v, method_count as nat),
{
    method_count / 2 + 1
}

/// The positions whose vote reaches `required`, in increasing order.
pub fn majority_indices(votes: &Vec<usize>, required: usize) -> (reported: Vec<usize>)
    ensures
        strictly_increasing(reported@),
        forall|j: usize| #[trigger]
            reported@.contains(j) <==> (j < votes.len() && votes[j as int] >= required),
{
    let mut reported: Vec<usize> = Vec::new();
    let mut i: usize = 0;
    while i < votes.len()
        invariant
            i <= votes.len(),
            strictly_increasing(reported@),
            forall|a: int| 0 <= a < reported.len() ==> reported[a] < i,
            forall|j: usize| #[trigger]
                reported@.contains(j) <==> (j < i && votes[j as int] >= required),
        decreases votes.len() - i,
    {
        if votes[i] >= required {
            let ghost before = reported@;
            reported.push(i);
            proof {
                assert(reported@[before.len() as int] == i);
                assert forall|j: usize| #[trigger]
                    reported@.contains(j) <==> (j < i + 1 && votes[j as int] >= required) by {
                    if j < i && votes[j as int] >= required {
                        assert(before.contains(j));
                        let w = choose|w: int| 0 <= w < before.len() && before[w] == j;
                        assert(reported@[w] == j);
                    }
                    if reported@.contains(j) {
                        let w = choose|w: int| 0 <= w < reported@.len() && reported@[w] == j;
                        if w < before.len() {
                            assert(before[w] == j);
                            assert(before.contains(j));
                        }
                    }
                }
            }
        } else {
            proof {
                assert forall|j: usize| #[trigger]
                    reported@.contains(j) <==> (j < i + 1 && votes[j as int] >= required) by {
                    if reported@.contains(j) {
                        let w = choose|w: int| 0 <= w < reported@.len() && reported@[w] == j;
                        assert(reported@[w] < i);
                    }
                }
            }
        }
        i = i + 1;
    }
    reported
}

/// Majority vote over the flags raised by each method: the votes of each
/// point in `0..n`, and the points that more than half of the methods
/// flagged, in increasing order.
pub fn ensemble_vote(n: usize, flagged: &Vec<Vec<usize>>) -> (result: (Vec<usize>, Vec<usize>))
    requires
        total_flags(flagged@) <= usize::MAX,
    ensures
        result.0.len() == n,
        forall|i: int| 0 <= i < n ==> result.0[i] == vote_count(flagged@, i as usize),
        strictly_increasing(result.1@),
        forall|j: usize| #[trigger]
            result.1@.contains(j) <==> (j < n && is_majority(
                vote_count(flagged@, j),
                flagged.len() as nat,
            )),
{
    let votes = tally_votes(n, flagged);
    let required = required_votes(flagged.len());
    let reported = majority_indices(&votes, required);
    proof {
        assert forall|j: usize| #[trigger]
            reported@.contains(j) <==> (j < n && is_majority(
                vote_count(flagged@, j),
                flagged.len() as nat,
            )) by {
            if j < n {
                assert(votes[j as int] == vote_count(flagged@, j));
                assert(votes[j as int] >= required <==> is_majority(
                    votes[j as int] as nat,
                    flagged.len() as nat,
                ));
            }
        }
    }
    (votes, reported)
}

/// The detector run that stands in for one configured method inside the ensemble.
#[derive(Clone, Copy, Debug, PartialEq, Eq, Structural)]
pub enum DetectorRun {
    /// Global z-score with the ensemble threshold.
    ZScore,
    /// Interquartile-range fences at `multiplier_num / multiplier_den` times the IQR.
    Iqr { multiplier_num: usize, multiplier_den: usize },
    /// Median-absolute-deviation z-score with the ensemble threshold.
    ModifiedZScore,
    /// Rolling z-score over windows of `window` points.
    MovingZScore { window: usize },
    /// Frequency-domain scoring with the ensemble threshold.
    Spectral,
    /// Residuals of a seasonal decomposition with the given period.
    Seasonal { period: usize },
}

/// Window of the rolling z-score in an ensemble over `n` points: half the
/// series, at most 20 and at least 3.
pub open spec fn ensemble_moving_window(n: usize) -> usize {
    let half = n / 2;
    let capped = if half < 20 { half } else { 20 };
    if capped > 3 { capped } else { 3 }
}

/// Which detector run a configured method becomes on a series of `n` points.
pub open spec fn planned_run(method: AnomalyDetector, n: usize) -> DetectorRun {
    match method {
        AnomalyDetector::ZScore => DetectorRun::ZScore,
        AnomalyDetector::IQR => DetectorRun::Iqr { multiplier_num: 3, multiplier_den: 2 },
        AnomalyDetector::ModifiedZScore => DetectorRun::ModifiedZScore,
        AnomalyDetector::MovingZScore => DetectorRun::MovingZScore {
            window: ensemble_moving_window(n),
        },
        AnomalyDetector::Spectral => DetectorRun::Spectral,
        AnomalyDetector::Seasonal => if n >= 24 {
            DetectorRun::Seasonal { period: if n / 2 < 12 { n / 2 } else { 12 } }
        } else {
            DetectorRun::ZScore
        },
        _ => DetectorRun::ZScore,
    }
}

/// Chooses the detector run for `method` on a series of `n` points. Methods
/// without a detector of their own (isolation forest, Grubbs, contextual)
/// fall back to the global z-score, as does the seasonal method on series
/// shorter than two full periods of 12.
pub fn plan_run(method: AnomalyDetector, n: usize) -> (run: DetectorRun)
    ensures
        run == planned_run(method, n),
{
    match method {
        AnomalyDetector::ZScore => DetectorRun::ZScore,
        AnomalyDetector::IQR => DetectorRun::Iqr { multiplier_num: 3, multiplier_den: 2 },
        AnomalyDetector::ModifiedZScore => DetectorRun::ModifiedZScore,
        AnomalyDetector::MovingZScore => {
            let half = n / 2;
            let capped = if half < 20 { half } else { 20 };
            let window = if capped > 3 { capped } else { 3 };
            DetectorRun::MovingZScore { window }
        },
        AnomalyDetector::Spectral => DetectorRun::Spectral,
        AnomalyDetector::Seasonal => {
            if n >= 24 {
                let half = n / 2;
                DetectorRun::Seasonal { period: if half < 12 { half } else { 12 } }
            } else {
                DetectorRun::ZScore
            }
        },
        _ => DetectorRun::ZScore,
    }
}

proof fn lemma_occurrences_contains(s: Seq<usize>, i: usize)
    ensures
        occurrences(s, i) >= 1 <==> s.contains(i),
    decreases s.len(),
{
    if s.len() > 0 {
        let init = s.drop_last();
        lemma_occurrences_contains(init, i);
        if init.contains(i) {
            let w = choose|w: int| 0 <= w < init.len() && init[w] == i;
            assert(s[w] == i);
        }
        if s.contains(i) && s.last() != i {
            let w = choose|w: int| 0 <= w < s.len() && s[w] == i;
            assert(init[w] == i);
        }
    }
}

proof fn lemma_occurrences_unique(s: Seq<usize>, i: usize)
    requires
        s.no_duplicates(),
    ensures
        occurrences(s, i) <= 1,
    decreases s.len(),
{
    if s.len() > 0 {
        let init = s.drop_last();
        lemma_occurrences_unique(init, i);
        lemma_occurrences_contains(init, i);
        if s.last() == i && init.contains(i) {
            let w = choose|w: int| 0 <= w < init.len() && init[w] == i;
            assert(s[w] == s[s.len() - 1]);
        }
    }
}

proof fn lemma_vote_count_append(a: Seq<Vec<usize>>, b: Seq<Vec<usize>>, i: usize)
    ensures
        vote_count(a + b, i) == vote_count(a, i) + vote_count(b, i),
    decreases b.len(),
{
    if b.len() == 0 {
        assert(a + b =~= a);
    } else {
        lemma_vote_count_append(a, b.drop_last(), i);
        assert((a + b).drop_last() =~= a + b.drop_last());
    }
}

/// The votes of two groups of methods add up: the votes a point receives from
/// the methods `a` followed by the methods `b` are those from `a` plus those from `b`.
pub proof fn law_votes_add_up(a: Seq<Vec<usize>>, b: Seq<Vec<usize>>, i: usize)
    ensures
        vote_count(a + b, i) == vote_count(a, i) + vote_count(b, i),
{
    lemma_vote_count_append(a, b, i);
}

/// The order in which the methods are listed does not change any vote.
pub proof fn law_method_order_irrelevant(a: Seq<Vec<usize>>, b: Seq<Vec<usize>>, i: usize)
    ensures
        vote_count(a + b, i) == vote_count(b + a, i),
{
    lemma_vote_count_append(a, b, i);
    lemma_vote_count_append(b, a, i);
}

/// A point that every method flags is reported by the ensemble.
pub proof fn law_unanimous_flag_is_reported(flagged: Seq<Vec<usize>>, i: usize)
    requires
        flagged.len() > 0,
        forall|m: int| 0 <= m < flagged.len() ==> #[trigger] flagged[m]@.contains(i),
    ensures
        vote_count(flagged, i) >= flagged.len(),
        is_majority(vote_count(flagged, i), flagged.len()),
    decreases flagged.len(),
{
    lemma_occurrences_contains(flagged.last()@, i);
    assert(flagged[flagged.len() - 1]@.contains(i));
    if flagged.len() > 1 {
        let init = flagged.drop_last();
        assert forall|m: int| 0 <= m < init.len() implies #[trigger] init[m]@.contains(i) by {
            assert(init[m] == flagged[m]);
            assert(flagged[m]@.contains(i));
        }
        law_unanimous_flag_is_reported(init, i);
    }
}

/// A point that no method flags receives no vote and is not reported.
pub proof fn law_unflagged_point_is_not_reported(flagged: Seq<Vec<usize>>, i: usize)
    requires
        forall|m: int| 0 <= m < flagged.len() ==> !(#[trigger] flagged[m]@.contains(i)),
    ensures
        vote_count(flagged, i) == 0,
        !is_majority(vote_count(flagged, i), flagged.len()),
    decreases flagged.len(),
{
    if flagged.len() > 0 {
        let init = flagged.drop_last();
        assert(!flagged[flagged.len() - 1]@.contains(i));
        lemma_occurrences_contains(flagged.last()@, i);
        assert forall|m: int| 0 <= m < init.len() implies !(#[trigger] init[m]@.contains(i)) by {
            assert(init[m] == flagged[m]);
            assert(!flagged[m]@.contains(i));
        }
        law_unflagged_point_is_not_reported(init, i);
    }
}

/// When each method flags a point at most once, no point receives more votes
/// than there are methods.
pub proof fn law_votes_at_most_methods(flagged: Seq<Vec<usize>>, i: usize)
    requires
        forall|m: int| 0 <= m < flagged.len() ==> (#[trigger] flagged[m]@).no_duplicates(),
    ensures
        vote_count(flagged, i) <= flagged.len(),
    decreases flagged.len(),
{
    if flagged.len() > 0 {
        let init = flagged.drop_last();
        assert(flagged[flagged.len() - 1]@.no_duplicates());
        lemma_occurrences_unique(flagged.last()@, i);
        assert forall|m: int| 0 <= m < init.len() implies (#[trigger] init[m]@).no_duplicates() by {
            assert(init[m] == flagged[m]);
            assert(flagged[m]@.no_duplicates());
        }
        law_votes_at_most_methods(init, i);
    }
}

/// The rolling window planned inside an ensemble over `n` points is at least 3
/// and at most 20; above the floor of 3 it never exceeds half the series, and
/// below the cap of 20 it is as large as half the series allows. On a series of
/// six or more points the planned window always lets the rolling detector run.
pub proof fn law_planned_moving_window(n: usize)
    ensures
        planned_run(AnomalyDetector::MovingZScore, n) is MovingZScore,
        planned_run(AnomalyDetector::MovingZScore, n) matches DetectorRun::MovingZScore { window }
            && 3 <= window <= 20 && (window == 3 || 2 * window <= n) && (window == 20 || n < 2
            * window + 2) && (n >= 6 ==> rolling_applies(n, window)),
{
}

/// Inside an ensemble the seasonal method runs the seasonal detector with a
/// period of 12 on every series of 24 points or more, and the z-score on
/// shorter series; whenever the seasonal detector is planned, the series is
/// long enough to be decomposed with its period.
pub proof fn law_planned_seasonal(n: usize)
    ensures
        n >= 24 ==> planned_run(AnomalyDetector::Seasonal, n) == (DetectorRun::Seasonal {
            period: 12,
        }),
        n < 24 ==> planned_run(AnomalyDetector::Seasonal, n) == DetectorRun::ZScore,
        planned_run(AnomalyDetector::Seasonal, n) matches DetectorRun::Seasonal { period }
            ==> decomposes(n, period),
{
}

/// On every series, the z-score, IQR, MAD and spectral methods run their own
/// detector (the IQR with fences at one and a half times the IQR), and the
/// methods without a detector of their own run the z-score.
pub proof fn law_planned_direct_methods(n: usize)
    ensures
        planned_run(AnomalyDetector::ZScore, n) == DetectorRun::ZScore,
        planned_run(AnomalyDetector::IQR, n) == (DetectorRun::Iqr {
            multiplier_num: 3,
            multiplier_den: 2,
        }),
        planned_run(AnomalyDetector::ModifiedZScore, n) == DetectorRun::ModifiedZScore,
        planned_run(AnomalyDetector::Spectral, n) == DetectorRun::Spectral,
        planned_run(AnomalyDetector::IsolationForest, n) == DetectorRun::ZScore,
        planned_run(AnomalyDetector::Grubbs, n) == DetectorRun::ZScore,
        planned_run(AnomalyDetector::Contextual, n) == DetectorRun::ZScore,
{
}

} // verus!

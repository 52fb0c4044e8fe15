//! The weak learner: a decision stump, a threshold rule on a single feature.

use vstd::prelude::*;
use crate::distinct::{distinct_keys, first_occurrences, lemma_first_occurrences};
use crate::error::BoostError;
use crate::matrix::{FeatureMatrix, rows_of, width_of};
use crate::tally::{add_limbs, from_u64, lemma_pow2_positive, mul_small, power_of_two, value};
use crate::weights::{
    SampleWeights,
    inverse_epsilon,
    mass_sum,
    missed_mass,
    missed_sum,
    odds_denominator,
    odds_numerator,
    total,
};

verus! {

/// The orientation of a stump's rule.
#[derive(Debug, Clone, Copy, PartialEq, Eq, Structural)]
pub enum Polarity {
    /// Votes `+1` at or above the threshold and `-1` below it.
    Positive,
    /// Votes `-1` at or above the threshold and `+1` below it.
    Negative,
}

impl Polarity {
    /// The sign of the polarity.
    pub open spec fn sign(self) -> int {
        match self {
            Polarity::Positive => 1,
            Polarity::Negative => -1,
        }
    }

    /// The sign of the polarity as an `i32`.
    pub fn i32(&self) -> (r: i32)
        ensures
            r == self.sign(),
    {
        match self {
            Polarity::Positive => 1,
            Polarity::Negative => -1,
        }
    }

    /// `true` for the positive polarity.
    pub fn bool(&self) -> (r: bool)
        ensures
            r == (*self == Polarity::Positive),
    {
        match self {
            Polarity::Positive => true,
            Polarity::Negative => false,
        }
    }
}

/// The vote of the rule with polarity `pol` and threshold `t` on the value `x`.
pub open spec fn rule_vote(pol: Polarity, t: i64, x: i64) -> i32 {
    match pol {
        Polarity::Positive => if x < t {
            -1i32
        } else {
            1i32
        },
        Polarity::Negative => if x < t {
            1i32
        } else {
            -1i32
        },
    }
}

/// The votes of a rule on every value of a column.
pub open spec fn rule_votes(col: Seq<i64>, pol: Polarity, t: i64) -> Seq<i32> {
    Seq::new(col.len(), |i: int| rule_vote(pol, t, col[i]))
}

/// The error mass of the positive rule at threshold `t` on column `col`.
pub open spec fn positive_error(w: Seq<u64>, y: Seq<i64>, col: Seq<i64>, t: i64) -> int {
    missed_mass(w, y, rule_votes(col, Polarity::Positive, t))
}

/// The positive rule misses more than half of the mass, so the split is flipped.
pub open spec fn split_flipped(w: Seq<u64>, y: Seq<i64>, col: Seq<i64>, t: i64) -> bool {
    2 * positive_error(w, y, col, t) > total(w)
}

/// The polarity of the split at `t`: negative where the positive rule is flipped.
pub open spec fn split_polarity(w: Seq<u64>, y: Seq<i64>, col: Seq<i64>, t: i64) -> Polarity {
    if split_flipped(w, y, col, t) {
        Polarity::Negative
    } else {
        Polarity::Positive
    }
}

/// The error mass of the split at `t`, after the polarity flip.
pub open spec fn split_error(w: Seq<u64>, y: Seq<i64>, col: Seq<i64>, t: i64) -> int {
    if split_flipped(w, y, col, t) {
        total(w) - positive_error(w, y, col, t)
    } else {
        positive_error(w, y, col, t)
    }
}

/// The order in which splits are preferred: lower error first, then the lower
/// feature index, then the lower threshold.
pub open spec fn precedes(e1: int, f1: int, t1: int, e2: int, f2: int, t2: int) -> bool {
    e1 < e2 || (e1 == e2 && (f1 < f2 || (f1 == f2 && t1 <= t2)))
}

/// `(f, t)` is a candidate split: `t` is a value of feature `f`.
pub open spec fn is_candidate(data: FeatureMatrix, f: int, t: i64) -> bool {
    0 <= f < width_of(data) && data.column(f).contains(t)
}

/// The error mass of the candidate split `(f, t)`.
pub open spec fn candidate_error(data: FeatureMatrix, y: Seq<i64>, w: Seq<u64>, f: int, t: i64) -> int {
    split_error(w, y, data.column(f), t)
}

/// `(f, t)` is the split that the stump search picks: a candidate that precedes
/// every other candidate.
pub open spec fn is_best_split(data: FeatureMatrix, y: Seq<i64>, w: Seq<u64>, f: int, t: i64) -> bool {
    &&& is_candidate(data, f, t)
    &&& forall|f2: int, t2: i64|
        #[trigger] is_candidate(data, f2, t2) ==> precedes(
            candidate_error(data, y, w, f, t),
            f,
            t as int,
            candidate_error(data, y, w, f2, t2),
            f2,
            t2 as int,
        )
}

/// Labels that are all `-1` or `+1`.
pub open spec fn binary_labels(y: Seq<i64>) -> bool {
    forall|i: int| 0 <= i < y.len() ==> #[trigger] y[i] == -1 || y[i] == 1
}

/// On binary labels, the negative rule misses exactly the mass that the positive
/// rule hits.
proof fn lemma_polarities_split_mass(w: Seq<u64>, y: Seq<i64>, col: Seq<i64>, t: i64, k: int)
    requires
        binary_labels(y),
        0 <= k <= col.len(),
        col.len() == y.len(),
        col.len() == w.len(),
    ensures
        missed_sum(w, y, rule_votes(col, Polarity::Positive, t), k) + missed_sum(
            w,
            y,
            rule_votes(col, Polarity::Negative, t),
            k,
        ) == mass_sum(w, k),
    decreases k,
{
    if k > 0 {
        lemma_polarities_split_mass(w, y, col, t, k - 1);
        assert(y[k - 1] == -1 || y[k - 1] == 1);
    }
}

/// The tie-break makes the search deterministic: at most one split is the best.
pub proof fn lemma_best_split_is_unique(
    data: FeatureMatrix,
    y: Seq<i64>,
    w: Seq<u64>,
    f1: int,
    t1: i64,
    f2: int,
    t2: i64,
)
    requires
        is_best_split(data, y, w, f1, t1),
        is_best_split(data, y, w, f2, t2),
    ensures
        f1 == f2,
        t1 == t2,
{
    assert(is_candidate(data, f1, t1));
    assert(is_candidate(data, f2, t2));
}

/// The error mass of a rule that votes `+1` on every sample: the mass of the
/// samples not labelled `+1`.
pub open spec fn all_positive_error(w: Seq<u64>, y: Seq<i64>) -> int {
    missed_mass(w, y, Seq::new(w.len(), |i: int| 1i32))
}

/// A constant feature is never chosen while another split errs less than both
/// `all_positive_error` and its complement: a constant column's only rule votes
/// one class everywhere, so its error is the smaller of the two class masses.
pub proof fn lemma_constant_feature_not_chosen(
    data: FeatureMatrix,
    y: Seq<i64>,
    w: Seq<u64>,
    f0: int,
    f1: int,
    t1: i64,
    f: int,
    t: i64,
)
    requires
        w.len() == rows_of(data).len(),
        0 <= f0 < width_of(data),
        forall|i: int| 0 <= i < rows_of(data).len() ==> #[trigger] data.column(f0)[i] == data.column(f0)[0],
        is_candidate(data, f1, t1),
        candidate_error(data, y, w, f1, t1) < all_positive_error(w, y),
        candidate_error(data, y, w, f1, t1) < total(w) - all_positive_error(w, y),
        is_best_split(data, y, w, f, t),
    ensures
        f != f0,
{
    if f == f0 {
        let col = data.column(f0);
        assert(col.contains(t));
        let k = choose|k: int| 0 <= k < col.len() && col[k] == t;
        assert(col[k] == col[0]);
        assert(rule_votes(col, Polarity::Positive, t) =~= Seq::new(w.len(), |i: int| 1i32));
        assert(is_candidate(data, f1, t1));
        assert(precedes(
            candidate_error(data, y, w, f, t),
            f,
            t as int,
            candidate_error(data, y, w, f1, t1),
            f1,
            t1 as int,
        ));
    }
}

/// The votes of the rule with polarity `pol` and threshold `t` on `col`.
fn votes_on(col: &Vec<i64>, pol: Polarity, t: i64) -> (r: Vec<i32>)
    ensures
        r@ == rule_votes(col@, pol, t),
{
    let mut out: Vec<i32> = Vec::new();
    let mut i: usize = 0;
    while i < col.len()
        invariant
            i <= col@.len(),
            out@ =~= rule_votes(col@, pol, t).take(i as int),
        decreases col@.len() - i,
    {
        let x = col[i];
        let v: i32 = match pol {
            Polarity::Positive => if x < t {
                -1
            } else {
                1
            },
            Polarity::Negative => if x < t {
                1
            } else {
                -1
            },
        };
        out.push(v);
        i = i + 1;
        assert(out@ =~= rule_votes(col@, pol, t).take(i as int));
    }
    assert(out@ =~= rule_votes(col@, pol, t));
    out
}

/// A weak learner that votes on one feature by comparing it to a threshold.
///
/// Its vote weight is `alpha = ln(odds) / 2` with the odds
/// `(1 - e + epsilon) / (e + epsilon)` of its error `e = error_mass / total_mass`,
/// where `epsilon = 2^-1022` is the smallest positive normal `f64` (see
/// `odds_numerator` and `odds_denominator`).
#[derive(Debug, Clone, Copy, PartialEq, Eq)]
pub struct Stump {
    /// The threshold; unset until the stump is trained.
    pub threshold: Option<i64>,
    /// The orientation of the rule.
    pub polarity: Polarity,
    /// The weighted error mass of the rule on the samples it was trained on.
    pub error_mass: u64,
    /// The total mass of the weights it was trained with.
    pub total_mass: u64,
    /// The feature the rule reads.
    pub feature_id: usize,
}

impl Stump {
    /// A stump that can vote: its threshold is set and it misses at most half
    /// of the mass it was trained with.
    pub open spec fn wf(self) -> bool {
        &&& self.threshold is Some
        &&& 2 * self.error_mass <= self.total_mass
    }

    /// The numerator of the odds, multiplied out to an integer; one for a stump
    /// trained on no mass, whose vote weight is zero.
    pub open spec fn odds_num(self) -> int {
        if self.total_mass == 0 {
            1
        } else {
            odds_numerator(self.error_mass as int, self.total_mass - self.error_mass)
        }
    }

    /// The denominator of the odds, multiplied out to an integer; one for a stump
    /// trained on no mass.
    pub open spec fn odds_den(self) -> int {
        if self.total_mass == 0 {
            1
        } else {
            odds_denominator(self.error_mass as int, self.total_mass - self.error_mass)
        }
    }

    /// The vote of the stump on a sample's features.
    pub open spec fn vote(self, row: Seq<i64>) -> i32 {
        rule_vote(self.polarity, self.threshold->0, row[self.feature_id as int])
    }

    /// An untrained stump: no threshold, positive polarity, feature 0, zero error
    /// (odds one, so a vote weight of zero).
    pub fn new() -> (r: Stump)
        ensures
            r.threshold is None,
            r.polarity == Polarity::Positive,
            r.feature_id == 0,
            r.error_mass == 0,
            r.total_mass == 0,
    {
        Stump { threshold: None, polarity: Polarity::Positive, error_mass: 0, total_mass: 0, feature_id: 0 }
    }

    /// The vote weight as the odds `(numerator, denominator)` in limbs (see
    /// `tally`); the weight itself is half the natural logarithm of their ratio,
    /// finite because both are at least one, and not negative because the error
    /// is at most one half.
    pub fn get_alpha(&self) -> (r: (Vec<u32>, Vec<u32>))
        requires
            self.error_mass <= self.total_mass,
        ensures
            value(r.0@) == self.odds_num(),
            value(r.1@) == self.odds_den(),
            value(r.0@) >= 1,
            value(r.1@) >= 1,
            2 * self.error_mass <= self.total_mass ==> value(r.0@) >= value(r.1@),
    {
        if self.total_mass == 0 {
            return (from_u64(1), from_u64(1));
        }
        let m = self.error_mass;
        let c = self.total_mass - self.error_mass;
        let inv_eps = power_of_two(1022);
        let t_limbs = from_u64(self.total_mass);
        let num = add_limbs(&mul_small(&inv_eps, c), &t_limbs);
        let den = add_limbs(&mul_small(&inv_eps, m), &t_limbs);
        proof {
            let k = inverse_epsilon();
            lemma_pow2_positive(1022);
            assert(value(num@) == c * k + m + c) by (nonlinear_arith)
                requires
                    value(num@) == k * c + self.total_mass,
                    self.total_mass == m + c,
            ;
            assert(value(den@) == m * k + m + c) by (nonlinear_arith)
                requires
                    value(den@) == k * m + self.total_mass,
                    self.total_mass == m + c,
            ;
            assert(2 * m <= m + c ==> c * k >= m * k) by (nonlinear_arith)
                requires
                    k >= 1,
                    m >= 0,
            ;
            assert(c * k >= 0 && m * k >= 0) by (nonlinear_arith)
                requires
                    k >= 1,
                    m >= 0,
                    c >= 0,
            ;
        }
        (num, den)
    }

    /// The stump's votes on every row of `values`.
    pub fn predict(&self, values: &FeatureMatrix) -> (r: Vec<i32>)
        requires
            self.threshold is Some,
            self.feature_id < width_of(*values),
        ensures
            r@ == rule_votes(values.column(self.feature_id as int), self.polarity, self.threshold->0),
            r@.len() == rows_of(*values).len(),
            forall|i: int| 0 <= i < r@.len() ==> r@[i] == self.vote(#[trigger] rows_of(*values)[i]),
    {
        let col = values.column_values(self.feature_id);
        let t = match self.threshold {
            Some(t) => t,
            None => 0,
        };
        votes_on(&col, self.polarity, t)
    }

    /// Trains a stump: of all splits `(feature, threshold)`, where the threshold is
    /// a value that the feature takes, picks the one of least error mass after
    /// the polarity flip, and of those the lowest feature, then the lowest
    /// threshold. Fails when there are no features.
    pub fn train(weights: &SampleWeights, data: &FeatureMatrix, labels: &Vec<i64>) -> (r: Result<Stump, BoostError>)
        requires
            weights.wf(),
            weights@.len() == rows_of(*data).len(),
            labels@.len() == rows_of(*data).len(),
        ensures
            r is Err <==> width_of(*data) == 0,
            r matches Err(e) ==> e == BoostError::NoFeatures,
            r matches Ok(s) ==> {
                &&& s.wf()
                &&& is_best_split(*data, labels@, weights@, s.feature_id as int, s.threshold->0)
                &&& s.polarity == split_polarity(weights@, labels@, data.column(s.feature_id as int), s.threshold->0)
                &&& s.error_mass == candidate_error(*data, labels@, weights@, s.feature_id as int, s.threshold->0)
                &&& s.total_mass == total(weights@)
                &&& binary_labels(labels@) ==> s.error_mass == missed_mass(
                    weights@,
                    labels@,
                    rule_votes(data.column(s.feature_id as int), s.polarity, s.threshold->0),
                )
            },
    {
        let ghost w = weights@;
        let ghost y = labels@;
        let nf = data.ncols();
        if nf == 0 {
            return Err(BoostError::NoFeatures);
        }
        let total_mass = weights.total_mass();
        let mut found = false;
        let mut best_f: usize = 0;
        let mut best_t: i64 = 0;
        let mut best_e: u64 = 0;
        let mut best_p = Polarity::Positive;
        let mut f: usize = 0;
        while f < nf
            invariant
                w == weights@,
                y == labels@,
                weights.wf(),
                w.len() == rows_of(*data).len(),
                y.len() == rows_of(*data).len(),
                nf == width_of(*data),
                nf >= 1,
                total_mass == total(w),
                f <= nf,
                !found ==> f == 0,
                found ==> {
                    &&& is_candidate(*data, best_f as int, best_t)
                    &&& best_e == candidate_error(*data, y, w, best_f as int, best_t)
                    &&& best_p == split_polarity(w, y, data.column(best_f as int), best_t)
                },
                forall|f2: int, t2: i64|
                    0 <= f2 < f && #[trigger] is_candidate(*data, f2, t2) ==> precedes(
                        best_e as int,
                        best_f as int,
                        best_t as int,
                        candidate_error(*data, y, w, f2, t2),
                        f2,
                        t2 as int,
                    ),
            decreases nf - f,
        {
            let col = data.column_values(f);
            let thresholds = distinct_keys(&col);
            proof {
                lemma_first_occurrences(col@);
            }
            let mut j: usize = 0;
            while j < thresholds.len()
                invariant
                    w == weights@,
                    y == labels@,
                    weights.wf(),
                    w.len() == rows_of(*data).len(),
                    y.len() == rows_of(*data).len(),
                    nf == width_of(*data),
                    total_mass == total(w),
                    f < nf,
                    col@ == data.column(f as int),
                    thresholds@ == first_occurrences(col@),
                    forall|x: i64| #[trigger] thresholds@.contains(x) <==> col@.contains(x),
                    j <= thresholds@.len(),
                    !found ==> f == 0 && j == 0,
                    found ==> {
                        &&& is_candidate(*data, best_f as int, best_t)
                        &&& best_e == candidate_error(*data, y, w, best_f as int, best_t)
                        &&& best_p == split_polarity(w, y, data.column(best_f as int), best_t)
                    },
                    forall|f2: int, t2: i64|
                        0 <= f2 < f && #[trigger] is_candidate(*data, f2, t2) ==> precedes(
                            best_e as int,
                            best_f as int,
                            best_t as int,
                            candidate_error(*data, y, w, f2, t2),
                            f2,
                            t2 as int,
                        ),
                    forall|j2: int|
                        0 <= j2 < j ==> precedes(
                            best_e as int,
                            best_f as int,
                            best_t as int,
                            candidate_error(*data, y, w, f as int, #[trigger] thresholds@[j2]),
                            f as int,
                            thresholds@[j2] as int,
                        ),
                decreases thresholds@.len() - j,
            {
                let t = thresholds[j];
                let votes = votes_on(&col, Polarity::Positive, t);
                let pe = weights.missed(labels, &votes);
                let flipped = 2 * (pe as u128) > total_mass as u128;
                let (e, p) = if flipped {
                    (total_mass - pe, Polarity::Negative)
                } else {
                    (pe, Polarity::Positive)
                };
                proof {
                    assert(thresholds@.contains(t)) by {
                        assert(thresholds@[j as int] == t);
                    }
                    assert(col@.contains(t));
                    assert(is_candidate(*data, f as int, t));
                }
                if !found || e < best_e || (e == best_e && (f < best_f || (f == best_f && t < best_t))) {
                    found = true;
                    best_f = f;
                    best_t = t;
                    best_e = e;
                    best_p = p;
                }
                j = j + 1;
            }
            proof {
                assert forall|f2: int, t2: i64|
                    0 <= f2 < f + 1 && #[trigger] is_candidate(*data, f2, t2) implies precedes(
                        best_e as int,
                        best_f as int,
                        best_t as int,
                        candidate_error(*data, y, w, f2, t2),
                        f2,
                        t2 as int,
                    ) by {
                    if f2 == f {
                        assert(col@.contains(t2));
                        assert(thresholds@.contains(t2));
                        let j2 = choose|j2: int| 0 <= j2 < thresholds@.len() && thresholds@[j2] == t2;
                        assert(precedes(
                            best_e as int,
                            best_f as int,
                            best_t as int,
                            candidate_error(*data, y, w, f as int, thresholds@[j2]),
                            f as int,
                            thresholds@[j2] as int,
                        ));
                    }
                }
                assert(found) by {
                    assert(rows_of(*data).len() >= 1);
                    assert(col@.len() >= 1);
                    assert(col@.contains(col@[0]));
                    assert(thresholds@.contains(col@[0]));
                }
            }
            f = f + 1;
        }
        proof {
            if binary_labels(y) {
                lemma_polarities_split_mass(w, y, data.column(best_f as int), best_t, w.len() as int);
            }
        }
        Ok(Stump { threshold: Some(best_t), polarity: best_p, error_mass: best_e, total_mass, feature_id: best_f })
    }
}

} // verus!

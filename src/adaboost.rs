//! The boosted ensemble: training by rounds of stump fitting and reweighting,
//! and prediction by the weighted vote of the stumps.

use vstd::prelude::*;
use crate::dataset::{Dataset, DatasetView};
use crate::error::BoostError;
use crate::matrix::{FeatureMatrix, rows_of, width_of};
use crate::stump::{
    Polarity,
    Stump,
    all_positive_error,
    candidate_error,
    is_best_split,
    is_candidate,
    lemma_constant_feature_not_chosen,
    rule_votes,
    split_polarity,
};
use crate::tally::{at_least, from_u64, mul_limbs, value};
use crate::weights::{
    SampleWeights,
    MAX_SAMPLES,
    WEIGHT_SCALE,
    ceil_div,
    is_missed,
    lemma_missed_sum_extremes,
    lemma_split_sums,
    lemma_sums_hold_sample,
    missed_mass,
    reweighted_mass,
    total,
    valid_masses,
};

verus! {

/// The masses of the uniform distribution over `n` samples.
pub open spec fn uniform_masses(n: nat) -> Seq<u64> {
    Seq::new(n, |i: int| ceil_div(WEIGHT_SCALE as int, n as int) as u64)
}

/// The masses `w` after a round whose rule voted `p` on samples labelled `y`.
pub open spec fn reweighted(w: Seq<u64>, y: Seq<i64>, p: Seq<i32>) -> Seq<u64> {
    Seq::new(
        w.len(),
        |i: int|
            reweighted_mass(
                w[i] as int,
                is_missed(y, p, i),
                missed_mass(w, y, p),
                total(w) - missed_mass(w, y, p),
            ) as u64,
    )
}

/// The votes of a stump on every row of `data`.
pub open spec fn stump_votes(data: FeatureMatrix, s: Stump) -> Seq<i32> {
    rule_votes(data.column(s.feature_id as int), s.polarity, s.threshold->0)
}

/// The weights after the rounds that trained `stumps`, in order, starting from
/// the uniform distribution.
pub open spec fn weights_after(data: FeatureMatrix, y: Seq<i64>, stumps: Seq<Stump>) -> Seq<u64>
    decreases stumps.len(),
{
    if stumps.len() == 0 {
        uniform_masses(y.len())
    } else {
        reweighted(weights_after(data, y, stumps.drop_last()), y, stump_votes(data, stumps.last()))
    }
}

/// Round `k` of a training run: stump `k` is the best split under the weights
/// that the earlier rounds left, with its polarity and error mass (the mass its
/// own votes miss), and those weights form a valid distribution.
pub open spec fn is_round(data: FeatureMatrix, y: Seq<i64>, stumps: Seq<Stump>, k: int) -> bool {
    let w = weights_after(data, y, stumps.take(k));
    let s = stumps[k];
    &&& valid_masses(w)
    &&& s.wf()
    &&& is_best_split(data, y, w, s.feature_id as int, s.threshold->0)
    &&& s.polarity == split_polarity(w, y, data.column(s.feature_id as int), s.threshold->0)
    &&& s.error_mass == candidate_error(data, y, w, s.feature_id as int, s.threshold->0)
    &&& s.total_mass == total(w)
    &&& s.error_mass == missed_mass(w, y, stump_votes(data, s))
}

/// `stumps` are the rounds of training on `data` labelled `y`, and the weights
/// after the last round still form a valid distribution.
pub open spec fn is_training_run(data: FeatureMatrix, y: Seq<i64>, stumps: Seq<Stump>) -> bool {
    &&& forall|k: int| 0 <= k < stumps.len() ==> #[trigger] is_round(data, y, stumps, k)
    &&& valid_masses(weights_after(data, y, stumps))
}

/// The factor a stump contributes to the side it votes for: the numerator of
/// its odds; the other side gets the denominator.
pub open spec fn favor(stumps: Seq<Stump>, row: Seq<i64>) -> int
    decreases stumps.len(),
{
    if stumps.len() == 0 {
        1
    } else {
        let s = stumps.last();
        favor(stumps.drop_last(), row) * if s.vote(row) == 1 {
            s.odds_num()
        } else {
            s.odds_den()
        }
    }
}

/// The product of the factors against a `+1` label (see `favor`).
pub open spec fn against(stumps: Seq<Stump>, row: Seq<i64>) -> int
    decreases stumps.len(),
{
    if stumps.len() == 0 {
        1
    } else {
        let s = stumps.last();
        against(stumps.drop_last(), row) * if s.vote(row) == 1 {
            s.odds_den()
        } else {
            s.odds_num()
        }
    }
}

/// The label the ensemble gives a row.
///
/// The ensemble sum `sum_s alpha_s * vote_s` with `alpha_s = ln(num_s / den_s) / 2`
/// is at least zero exactly when `favor >= against`; a sum of zero gives `+1`.
pub open spec fn ensemble_vote(stumps: Seq<Stump>, row: Seq<i64>) -> i32 {
    if favor(stumps, row) >= against(stumps, row) {
        1i32
    } else {
        -1i32
    }
}

/// `v` holds the ensemble's label for every row of `samples`.
pub open spec fn predicts(stumps: Seq<Stump>, samples: FeatureMatrix, v: Seq<i32>) -> bool {
    &&& v.len() == rows_of(samples).len()
    &&& forall|i: int| 0 <= i < v.len() ==> #[trigger] v[i] == ensemble_vote(stumps, rows_of(samples)[i])
}

/// What a model holds.
pub struct ModelView {
    /// The trained stumps, in training order.
    pub classifiers: Seq<Stump>,
    /// The dataset the model trains on.
    pub dataset: DatasetView,
    /// The number of rounds to train.
    pub n_classifiers: nat,
}

impl ModelView {
    /// The invariant of a model: a valid dataset, stumps that can vote on its
    /// features, and none before training.
    pub open spec fn wf(self) -> bool {
        &&& self.dataset.wf()
        &&& self.dataset.data is Some ==> self.classifiers.len() == 0
        &&& forall|i: int|
            0 <= i < self.classifiers.len() ==> {
                &&& (#[trigger] self.classifiers[i]).wf()
                &&& self.classifiers[i].feature_id < self.dataset.n_features
                &&& self.classifiers[i].total_mass <= WEIGHT_SCALE + MAX_SAMPLES
            }
    }
}

/// An ensemble of boosted stumps with the dataset it trains on.
pub struct AdaboostModel {
    classifiers: Vec<Stump>,
    dataset: Dataset,
    n_classifiers: usize,
}

impl View for AdaboostModel {
    type V = ModelView;

    closed spec fn view(&self) -> ModelView {
        ModelView {
            classifiers: self.classifiers@,
            dataset: self.dataset@,
            n_classifiers: self.n_classifiers as nat,
        }
    }
}

/// Prediction reads nothing but the stumps and the samples, so predicting twice
/// with the same model and samples gives the same labels.
pub proof fn lemma_prediction_is_deterministic(
    stumps: Seq<Stump>,
    samples: FeatureMatrix,
    first: Seq<i32>,
    second: Seq<i32>,
)
    requires
        predicts(stumps, samples, first),
        predicts(stumps, samples, second),
    ensures
        first == second,
{
    assert(first =~= second);
}

/// An ensemble without stumps labels every row `+1`: its sum is zero.
pub proof fn lemma_empty_ensemble_votes_positive(row: Seq<i64>)
    ensures
        ensemble_vote(Seq::empty(), row) == 1,
{
}

/// Column `f` separates the labels at `t`: `-1` below it and `+1` from it on.
pub open spec fn separates(data: FeatureMatrix, y: Seq<i64>, f: int, t: i64) -> bool {
    forall|i: int|
        0 <= i < y.len() ==> #[trigger] y[i] == if data.column(f)[i] < t {
            -1i64
        } else {
            1i64
        }
}

/// Column `f` separates the labels at `t` the other way round.
pub open spec fn separates_reversed(data: FeatureMatrix, y: Seq<i64>, f: int, t: i64) -> bool {
    forall|i: int|
        0 <= i < y.len() ==> #[trigger] y[i] == if data.column(f)[i] < t {
            1i64
        } else {
            -1i64
        }
}

proof fn lemma_weights_after_len(data: FeatureMatrix, y: Seq<i64>, stumps: Seq<Stump>)
    ensures
        weights_after(data, y, stumps).len() == y.len(),
    decreases stumps.len(),
{
    if stumps.len() > 0 {
        lemma_weights_after_len(data, y, stumps.drop_last());
    }
}

/// With two features, feature 0 constant and feature 1 separating the two
/// classes, every round of training picks feature 1.
pub proof fn lemma_constant_feature_never_chosen_in_training(
    data: FeatureMatrix,
    y: Seq<i64>,
    stumps: Seq<Stump>,
    t1: i64,
    neg: int,
    pos: int,
)
    requires
        width_of(data) == 2,
        y.len() == rows_of(data).len(),
        forall|i: int| 0 <= i < rows_of(data).len() ==> #[trigger] data.column(0)[i] == data.column(0)[0],
        data.column(1).contains(t1),
        separates(data, y, 1, t1) || separates_reversed(data, y, 1, t1),
        0 <= neg < y.len() && y[neg] == -1,
        0 <= pos < y.len() && y[pos] == 1,
        is_training_run(data, y, stumps),
    ensures
        forall|k: int| 0 <= k < stumps.len() ==> (#[trigger] stumps[k]).feature_id == 1,
{
    assert forall|k: int| 0 <= k < stumps.len() implies (#[trigger] stumps[k]).feature_id == 1 by {
        assert(is_round(data, y, stumps, k));
        let w = weights_after(data, y, stumps.take(k));
        lemma_weights_after_len(data, y, stumps.take(k));
        let s = stumps[k];
        let col = data.column(1);
        let votes = rule_votes(col, Polarity::Positive, t1);
        let ones = Seq::new(w.len(), |i: int| 1i32);
        lemma_missed_sum_extremes(w, y, votes, w.len() as int);
        lemma_split_sums(w, y, votes, w.len() as int);
        if separates(data, y, 1, t1) {
            assert forall|i: int| 0 <= i < w.len() implies !#[trigger] is_missed(y, votes, i) by {
                assert(y[i] == if col[i] < t1 { -1i64 } else { 1i64 });
            }
        } else {
            assert forall|i: int| 0 <= i < w.len() implies #[trigger] is_missed(y, votes, i) by {
                assert(y[i] == if col[i] < t1 { 1i64 } else { -1i64 });
            }
        }
        assert(candidate_error(data, y, w, 1, t1) == 0);
        lemma_sums_hold_sample(w, y, ones, neg);
        lemma_sums_hold_sample(w, y, ones, pos);
        lemma_split_sums(w, y, ones, w.len() as int);
        assert(w[neg] >= 1 && w[pos] >= 1);
        assert(is_missed(y, ones, neg));
        assert(!is_missed(y, ones, pos));
        assert(all_positive_error(w, y) >= 1);
        assert(total(w) - all_positive_error(w, y) >= 1);
        assert(is_candidate(data, 1, t1));
        lemma_constant_feature_not_chosen(data, y, w, 0, 1, t1, s.feature_id as int, s.threshold->0);
    }
}

impl AdaboostModel {
    /// An untrained model that will train `n_classifiers` stumps on `dataset`.
    pub fn new(n_classifiers: usize, dataset: Dataset) -> (r: AdaboostModel)
        requires
            dataset@.wf(),
        ensures
            r@.wf(),
            r@.classifiers.len() == 0,
            r@.dataset == dataset@,
            r@.n_classifiers == n_classifiers,
    {
        AdaboostModel { classifiers: Vec::new(), dataset, n_classifiers }
    }

    /// The trained stumps, in training order.
    pub fn get_classifiers(&self) -> (r: &Vec<Stump>)
        ensures
            r@ == self@.classifiers,
    {
        &self.classifiers
    }

    /// The dataset, whose feature matrix is released once training is done.
    pub fn get_dataset(&self) -> (r: &Dataset)
        ensures
            r@ == self@.dataset,
    {
        &self.dataset
    }

    /// The label of each row of `samples` by the weighted vote of the stumps
    /// (see `ensemble_vote`). Fails when `samples` has another number of
    /// features than the dataset.
    pub fn get_prediction(&self, samples: &FeatureMatrix) -> (r: Result<Vec<i32>, BoostError>)
        requires
            self@.wf(),
        ensures
            r is Err <==> width_of(*samples) != self@.dataset.n_features,
            r matches Err(e) ==> e == BoostError::DimensionMismatch,
            r matches Ok(v) ==> predicts(self@.classifiers, *samples, v@),
    {
        if samples.ncols() != self.dataset.get_n_features() {
            return Err(BoostError::DimensionMismatch);
        }
        let stumps = &self.classifiers;
        let mut nums: Vec<Vec<u32>> = Vec::new();
        let mut dens: Vec<Vec<u32>> = Vec::new();
        let mut j: usize = 0;
        while j < stumps.len()
            invariant
                self@.wf(),
                stumps@ == self@.classifiers,
                j <= stumps@.len(),
                nums@.len() == j,
                dens@.len() == j,
                forall|k: int| 0 <= k < j ==> value((#[trigger] nums@[k])@) == stumps@[k].odds_num(),
                forall|k: int| 0 <= k < j ==> value((#[trigger] dens@[k])@) == stumps@[k].odds_den(),
            decreases stumps@.len() - j,
        {
            assert(stumps@[j as int].wf());
            let (num, den) = stumps[j].get_alpha();
            nums.push(num);
            dens.push(den);
            j = j + 1;
        }
        let rows = samples.nrows();
        let mut out: Vec<i32> = Vec::new();
        let mut i: usize = 0;
        while i < rows
            invariant
                self@.wf(),
                stumps@ == self@.classifiers,
                nums@.len() == stumps@.len(),
                dens@.len() == stumps@.len(),
                forall|k: int| 0 <= k < nums@.len() ==> value((#[trigger] nums@[k])@) == stumps@[k].odds_num(),
                forall|k: int| 0 <= k < dens@.len() ==> value((#[trigger] dens@[k])@) == stumps@[k].odds_den(),
                width_of(*samples) == self@.dataset.n_features,
                samples.wf(),
                rows == rows_of(*samples).len(),
                i <= rows,
                out@.len() == i,
                forall|k: int|
                    0 <= k < i ==> #[trigger] out@[k] == ensemble_vote(stumps@, rows_of(*samples)[k]),
            decreases rows - i,
        {
            let ghost row = rows_of(*samples)[i as int];
            let mut pro = from_u64(1);
            let mut con = from_u64(1);
            let mut j: usize = 0;
            while j < stumps.len()
                invariant
                    self@.wf(),
                    stumps@ == self@.classifiers,
                    nums@.len() == stumps@.len(),
                    dens@.len() == stumps@.len(),
                    forall|k: int| 0 <= k < nums@.len() ==> value((#[trigger] nums@[k])@) == stumps@[k].odds_num(),
                    forall|k: int| 0 <= k < dens@.len() ==> value((#[trigger] dens@[k])@) == stumps@[k].odds_den(),
                    width_of(*samples) == self@.dataset.n_features,
                    i < rows_of(*samples).len(),
                    row == rows_of(*samples)[i as int],
                    j <= stumps@.len(),
                    value(pro@) == favor(stumps@.take(j as int), row),
                    value(con@) == against(stumps@.take(j as int), row),
                decreases stumps@.len() - j,
            {
                let s = &stumps[j];
                assert(s.wf());
                let x = samples.get(i, s.feature_id);
                let t = match s.threshold {
                    Some(t) => t,
                    None => 0,
                };
                let up = match s.polarity {
                    Polarity::Positive => x >= t,
                    Polarity::Negative => x < t,
                };
                let num = &nums[j];
                let den = &dens[j];
                proof {
                    assert(stumps@.take(j + 1).drop_last() =~= stumps@.take(j as int));
                    assert(stumps@.take(j + 1).last() == stumps@[j as int]);
                    assert(up == (s.vote(row) == 1));
                }
                if up {
                    pro = mul_limbs(&pro, num);
                    con = mul_limbs(&con, den);
                } else {
                    pro = mul_limbs(&pro, den);
                    con = mul_limbs(&con, num);
                }
                j = j + 1;
            }
            proof {
                assert(stumps@.take(stumps@.len() as int) =~= stumps@);
            }
            let label: i32 = if at_least(&pro, &con) {
                1
            } else {
                -1
            };
            out.push(label);
            i = i + 1;
        }
        Ok(out)
    }

    /// Trains the ensemble: `n_classifiers` rounds, each fitting the best stump
    /// under the current weights (see `is_round`) and then reweighting the
    /// samples by its votes; afterwards the dataset's feature matrix is
    /// released. Fails, changing nothing, when zero rounds are asked for, the
    /// matrix was released already, or there are no features, checked in this
    /// order.
    pub fn fit(&mut self) -> (r: Result<(), BoostError>)
        requires
            old(self)@.wf(),
        ensures
            final(self)@.wf(),
            old(self)@.n_classifiers == 0 ==> r == Err::<(), BoostError>(BoostError::ZeroRounds),
            old(self)@.n_classifiers > 0 && old(self)@.dataset.data is None ==> r == Err::<
                (),
                BoostError,
            >(BoostError::Released),
            old(self)@.n_classifiers > 0 && old(self)@.dataset.data is Some
                && old(self)@.dataset.n_features == 0 ==> r == Err::<(), BoostError>(
                BoostError::NoFeatures,
            ),
            r is Ok <==> {
                &&& old(self)@.n_classifiers > 0
                &&& old(self)@.dataset.data is Some
                &&& old(self)@.dataset.n_features > 0
            },
            r is Err ==> final(self)@ == old(self)@,
            r is Ok ==> {
                &&& final(self)@.classifiers.len() == old(self)@.n_classifiers
                &&& is_training_run(
                    old(self)@.dataset.data->0,
                    old(self)@.dataset.labels,
                    final(self)@.classifiers,
                )
                &&& final(self)@.dataset == (DatasetView { data: None, ..old(self)@.dataset })
                &&& final(self)@.n_classifiers == old(self)@.n_classifiers
            },
    {
        if self.n_classifiers == 0 {
            return Err(BoostError::ZeroRounds);
        }
        let data = match self.dataset.get_data() {
            Ok(m) => m,
            Err(e) => {
                return Err(e);
            },
        };
        let nf = data.ncols();
        if nf == 0 {
            return Err(BoostError::NoFeatures);
        }
        let labels = self.dataset.get_labels();
        let ghost y = labels@;
        let ghost m = *data;
        let n = labels.len();
        let mut weights = SampleWeights::uniform(n);
        proof {
            assert(weights@ =~= weights_after(m, y, Seq::empty()));
        }
        let mut stumps: Vec<Stump> = Vec::new();
        let mut round: usize = 0;
        while round < self.n_classifiers
            invariant
                self@.wf(),
                self@.dataset.data == Some(m),
                m == *data,
                y == labels@,
                y == self@.dataset.labels,
                nf == width_of(m),
                nf == self@.dataset.n_features,
                nf >= 1,
                round <= self@.n_classifiers,
                stumps@.len() == round,
                weights.wf(),
                weights@.len() == y.len(),
                y.len() == rows_of(m).len(),
                weights@ == weights_after(m, y, stumps@),
                forall|k: int| 0 <= k < stumps@.len() ==> #[trigger] is_round(m, y, stumps@, k),
                forall|k: int|
                    0 <= k < stumps@.len() ==> {
                        &&& (#[trigger] stumps@[k]).feature_id < nf
                        &&& stumps@[k].total_mass <= WEIGHT_SCALE + MAX_SAMPLES
                    },
            decreases self@.n_classifiers - round,
        {
            let stump = match Stump::train(&weights, data, labels) {
                Ok(s) => s,
                Err(e) => {
                    return Err(e);
                },
            };
            let votes = stump.predict(data);
            let ghost before = stumps@;
            let ghost w = weights@;
            weights.reweight(labels, &votes);
            stumps.push(stump);
            proof {
                let after = stumps@;
                assert(after.drop_last() =~= before);
                assert(weights@ =~= reweighted(w, y, stump_votes(m, stump)));
                assert(weights@ == weights_after(m, y, after));
                assert forall|k: int| 0 <= k < after.len() implies #[trigger] is_round(m, y, after, k) by {
                    if k < before.len() {
                        assert(after.take(k) =~= before.take(k));
                        assert(after[k] == before[k]);
                        assert(is_round(m, y, before, k));
                    } else {
                        assert(after.take(k) =~= before);
                    }
                }
                assert forall|k: int| 0 <= k < after.len() implies {
                    &&& (#[trigger] after[k]).feature_id < nf
                    &&& after[k].total_mass <= WEIGHT_SCALE + MAX_SAMPLES
                } by {
                    if k < before.len() {
                        assert(after[k] == before[k]);
                    }
                }
            }
            round = round + 1;
        }
        proof {
            assert forall|k: int| 0 <= k < stumps@.len() implies (#[trigger] stumps@[k]).wf() by {
                assert(is_round(m, y, stumps@, k));
            }
        }
        self.classifiers = stumps;
        self.dataset.free_dset_memory();
        Ok(())
    }
}

} // verus!

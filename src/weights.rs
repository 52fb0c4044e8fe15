//! The sample weight distribution, held as integer masses.
//!
//! Sample `i` has the share `masses[i] / total(masses)` of the distribution, so the
//! shares always sum to exactly one. The masses themselves are kept positive and
//! renormalized after every round so that their total stays within
//! `[WEIGHT_SCALE, WEIGHT_SCALE + n]`.

use vstd::prelude::*;
use crate::tally::{add_limbs, ceil_quotient, from_u64, lemma_pow2_positive, mul_small, pow2, power_of_two, value};

verus! {

/// The total mass that the weights are renormalized to (2^40).
pub const WEIGHT_SCALE: u64 = 1099511627776;

/// The largest number of samples the weights can hold (2^31), the bound under
/// which their integer arithmetic is proved free of overflow.
pub const MAX_SAMPLES: usize = 2147483648;

/// The sum of the first `k` entries of `w`.
pub open spec fn mass_sum(w: Seq<u64>, k: int) -> int
    decreases k,
{
    if k <= 0 {
        0
    } else {
        mass_sum(w, k - 1) + w[k - 1]
    }
}

/// The sum of all entries of `w`.
pub open spec fn total(w: Seq<u64>) -> int {
    mass_sum(w, w.len() as int)
}

/// Sample `i` is misclassified: its prediction differs from its label.
pub open spec fn is_missed(y: Seq<i64>, p: Seq<i32>, i: int) -> bool {
    p[i] as int != y[i] as int
}

/// The mass of the misclassified samples among the first `k`.
pub open spec fn missed_sum(w: Seq<u64>, y: Seq<i64>, p: Seq<i32>, k: int) -> int
    decreases k,
{
    if k <= 0 {
        0
    } else {
        missed_sum(w, y, p, k - 1) + if is_missed(y, p, k - 1) {
            w[k - 1] as int
        } else {
            0
        }
    }
}

/// The mass of the correctly classified samples among the first `k`.
pub open spec fn hit_sum(w: Seq<u64>, y: Seq<i64>, p: Seq<i32>, k: int) -> int
    decreases k,
{
    if k <= 0 {
        0
    } else {
        hit_sum(w, y, p, k - 1) + if is_missed(y, p, k - 1) {
            0
        } else {
            w[k - 1] as int
        }
    }
}

/// The weighted error mass of the predictions `p`: the mass of the samples they miss.
pub open spec fn missed_mass(w: Seq<u64>, y: Seq<i64>, p: Seq<i32>) -> int {
    missed_sum(w, y, p, w.len() as int)
}

/// `a / d` rounded up.
pub open spec fn ceil_div(a: int, d: int) -> int {
    (a + d - 1) / d
}

/// The inverse of `epsilon = 2^-1022`, the smallest positive normal `f64`.
pub open spec fn inverse_epsilon() -> int {
    pow2(1022)
}

/// The odds `(1 - e + epsilon) / (e + epsilon)` of a rule that missed mass `m` and
/// hit mass `c`, with the error `e = m / (m + c)`, multiplied out to integers:
/// the numerator `c / epsilon + m + c` ...
pub open spec fn odds_numerator(m: int, c: int) -> int {
    c * inverse_epsilon() + m + c
}

/// ... over the denominator `m / epsilon + m + c`.
pub open spec fn odds_denominator(m: int, c: int) -> int {
    m * inverse_epsilon() + m + c
}

/// `m * odds_numerator + c * odds_denominator`, which renormalizes the masses.
pub open spec fn odds_norm(m: int, c: int) -> int {
    2 * m * c * inverse_epsilon() + (m + c) * (m + c)
}

/// The new mass of a sample of mass `w` after a round whose rule missed mass `m`
/// and hit mass `c`.
///
/// The rule's vote is `alpha = ln(odds_numerator / odds_denominator) / 2`.
/// Multiplying every mass by `exp(-alpha * y * h)`, which is the square root of
/// the odds for a missed sample and its inverse for a hit one, and renormalizing
/// gives the shares `w * odds_numerator / odds_norm` to missed samples and
/// `w * odds_denominator / odds_norm` to hit ones. They are scaled to
/// `WEIGHT_SCALE` and rounded up, which keeps every mass positive.
pub open spec fn reweighted_mass(w: int, missed: bool, m: int, c: int) -> int {
    if missed {
        ceil_div(w * WEIGHT_SCALE * odds_numerator(m, c), odds_norm(m, c))
    } else {
        ceil_div(w * WEIGHT_SCALE * odds_denominator(m, c), odds_norm(m, c))
    }
}

/// Masses that form a valid weight distribution.
pub open spec fn valid_masses(w: Seq<u64>) -> bool {
    &&& 1 <= w.len() <= MAX_SAMPLES
    &&& forall|i: int| 0 <= i < w.len() ==> #[trigger] w[i] >= 1
    &&& WEIGHT_SCALE <= total(w) <= WEIGHT_SCALE + w.len()
}

proof fn lemma_mass_sum_agree(a: Seq<u64>, b: Seq<u64>, k: int)
    requires
        0 <= k <= a.len(),
        k <= b.len(),
        forall|j: int| 0 <= j < k ==> a[j] == b[j],
    ensures
        mass_sum(a, k) == mass_sum(b, k),
    decreases k,
{
    if k > 0 {
        lemma_mass_sum_agree(a, b, k - 1);
    }
}

proof fn lemma_mass_sum_monotone(w: Seq<u64>, i: int, j: int)
    requires
        0 <= i <= j <= w.len(),
    ensures
        mass_sum(w, i) <= mass_sum(w, j),
    decreases j - i,
{
    if i < j {
        lemma_mass_sum_monotone(w, i, j - 1);
    }
}

pub proof fn lemma_split_sums(w: Seq<u64>, y: Seq<i64>, p: Seq<i32>, k: int)
    requires
        0 <= k <= w.len(),
    ensures
        missed_sum(w, y, p, k) + hit_sum(w, y, p, k) == mass_sum(w, k),
        missed_sum(w, y, p, k) >= 0,
        hit_sum(w, y, p, k) >= 0,
    decreases k,
{
    if k > 0 {
        lemma_split_sums(w, y, p, k - 1);
    }
}

proof fn lemma_split_sums_monotone(w: Seq<u64>, y: Seq<i64>, p: Seq<i32>, i: int, j: int)
    requires
        0 <= i <= j <= w.len(),
    ensures
        missed_sum(w, y, p, i) <= missed_sum(w, y, p, j),
        hit_sum(w, y, p, i) <= hit_sum(w, y, p, j),
    decreases j - i,
{
    if i < j {
        lemma_split_sums_monotone(w, y, p, i, j - 1);
    }
}

/// Predictions that miss no sample miss no mass; ones that miss every sample
/// miss all of it.
pub proof fn lemma_missed_sum_extremes(w: Seq<u64>, y: Seq<i64>, p: Seq<i32>, k: int)
    requires
        0 <= k <= w.len(),
    ensures
        (forall|i: int| 0 <= i < k ==> !#[trigger] is_missed(y, p, i)) ==> missed_sum(w, y, p, k) == 0,
        (forall|i: int| 0 <= i < k ==> #[trigger] is_missed(y, p, i)) ==> missed_sum(w, y, p, k) == mass_sum(
            w,
            k,
        ),
    decreases k,
{
    if k > 0 {
        lemma_missed_sum_extremes(w, y, p, k - 1);
    }
}

/// A missed sample's mass counts toward the missed mass, a hit one's toward the
/// hit mass.
pub proof fn lemma_sums_hold_sample(w: Seq<u64>, y: Seq<i64>, p: Seq<i32>, i: int)
    requires
        0 <= i < w.len(),
    ensures
        is_missed(y, p, i) ==> missed_sum(w, y, p, w.len() as int) >= w[i],
        !is_missed(y, p, i) ==> hit_sum(w, y, p, w.len() as int) >= w[i],
{
    lemma_split_sums(w, y, p, i);
    lemma_split_sums_monotone(w, y, p, i + 1, w.len() as int);
}

proof fn lemma_ceil_div(a: int, d: int)
    requires
        a >= 0,
        d > 0,
    ensures
        a <= d * ceil_div(a, d) <= a + d - 1,
        ceil_div(a, d) >= 0,
        a >= 1 ==> ceil_div(a, d) >= 1,
{
    let q = ceil_div(a, d);
    vstd::arithmetic::div_mod::lemma_fundamental_div_mod(a + d - 1, d);
    vstd::arithmetic::div_mod::lemma_mod_pos_bound(a + d - 1, d);
    assert(q >= 0) by {
        vstd::arithmetic::div_mod::lemma_div_pos_is_pos(a + d - 1, d);
    }
    if a >= 1 {
        assert(q >= 1) by (nonlinear_arith)
            requires
                d * q >= a,
                a >= 1,
                d > 0,
        ;
    }
}

proof fn lemma_constant_sum(w: Seq<u64>, c: int, k: int)
    requires
        0 <= k <= w.len(),
        forall|i: int| 0 <= i < w.len() ==> w[i] == c,
    ensures
        mass_sum(w, k) == k * c,
    decreases k,
{
    if k > 0 {
        lemma_constant_sum(w, c, k - 1);
        assert(w[k - 1] == c);
        assert(k * c == (k - 1) * c + c) by (nonlinear_arith);
    } else {
        assert(k * c == 0) by (nonlinear_arith)
            requires
                k == 0,
        ;
    }
}

/// The weight distribution over the training samples.
pub struct SampleWeights {
    masses: Vec<u64>,
}

impl View for SampleWeights {
    type V = Seq<u64>;

    closed spec fn view(&self) -> Seq<u64> {
        self.masses@
    }
}

impl SampleWeights {
    /// A valid distribution: positive masses whose total is close to `WEIGHT_SCALE`.
    pub open spec fn wf(&self) -> bool {
        valid_masses(self@)
    }

    /// The uniform distribution over `n` samples: each mass is `WEIGHT_SCALE / n`
    /// rounded up.
    pub fn uniform(n: usize) -> (r: SampleWeights)
        requires
            1 <= n <= MAX_SAMPLES,
        ensures
            r.wf(),
            r@.len() == n,
            forall|i: int| 0 <= i < n ==> r@[i] == ceil_div(WEIGHT_SCALE as int, n as int),
    {
        let each: u64 = (WEIGHT_SCALE + (n as u64) - 1) / (n as u64);
        proof {
            lemma_ceil_div(WEIGHT_SCALE as int, n as int);
        }
        let mut masses: Vec<u64> = Vec::new();
        let mut i: usize = 0;
        while i < n
            invariant
                i <= n,
                masses@.len() == i,
                forall|k: int| 0 <= k < i ==> masses@[k] == each,
            decreases n - i,
        {
            masses.push(each);
            i = i + 1;
        }
        proof {
            lemma_constant_sum(masses@, each as int, n as int);
        }
        SampleWeights { masses }
    }

    /// The masses, one per sample.
    pub fn masses(&self) -> (r: &Vec<u64>)
        ensures
            r@ == self@,
    {
        &self.masses
    }

    /// The number of samples.
    pub fn len(&self) -> (r: usize)
        ensures
            r == self@.len(),
    {
        self.masses.len()
    }

    /// The total mass.
    pub fn total_mass(&self) -> (r: u64)
        requires
            self.wf(),
        ensures
            r == total(self@),
    {
        let n = self.masses.len();
        let mut t: u64 = 0;
        let mut i: usize = 0;
        while i < n
            invariant
                n == self@.len(),
                valid_masses(self@),
                i <= n,
                t == mass_sum(self@, i as int),
            decreases n - i,
        {
            proof {
                lemma_mass_sum_monotone(self@, i + 1, n as int);
            }
            t = t + self.masses[i];
            i = i + 1;
        }
        t
    }

    /// The mass of the samples whose prediction in `preds` differs from the label.
    pub fn missed(&self, labels: &Vec<i64>, preds: &Vec<i32>) -> (r: u64)
        requires
            self.wf(),
            labels@.len() == self@.len(),
            preds@.len() == self@.len(),
        ensures
            r == missed_mass(self@, labels@, preds@),
            r <= total(self@),
    {
        let n = self.masses.len();
        let mut m: u64 = 0;
        let mut i: usize = 0;
        while i < n
            invariant
                n == self@.len(),
                labels@.len() == n,
                preds@.len() == n,
                valid_masses(self@),
                i <= n,
                m == missed_sum(self@, labels@, preds@, i as int),
                m <= mass_sum(self@, i as int),
            decreases n - i,
        {
            proof {
                lemma_mass_sum_monotone(self@, i + 1, n as int);
            }
            if preds[i] as i64 != labels[i] {
                m = m + self.masses[i];
            }
            i = i + 1;
        }
        m
    }

    /// One round of reweighting after a rule made the predictions `preds`: each
    /// missed sample's share grows and each hit sample's share shrinks, as
    /// `reweighted_mass` states, and the distribution stays valid.
    pub fn reweight(&mut self, labels: &Vec<i64>, preds: &Vec<i32>)
        requires
            old(self).wf(),
            labels@.len() == old(self)@.len(),
            preds@.len() == old(self)@.len(),
        ensures
            final(self).wf(),
            final(self)@.len() == old(self)@.len(),
            forall|i: int|
                0 <= i < old(self)@.len() ==> #[trigger] final(self)@[i] == reweighted_mass(
                    old(self)@[i] as int,
                    is_missed(labels@, preds@, i),
                    missed_mass(old(self)@, labels@, preds@),
                    total(old(self)@) - missed_mass(old(self)@, labels@, preds@),
                ),
    {
        let ghost w = self@;
        let ghost y = labels@;
        let ghost p = preds@;
        let n = self.masses.len();
        let t = self.total_mass();
        let m = self.missed(labels, preds);
        let c = t - m;
        proof {
            lemma_split_sums(w, y, p, n as int);
            lemma_pow2_positive(1022);
        }
        let inv_eps = power_of_two(1022);
        let t_limbs = from_u64(t);
        let num_factor = add_limbs(&mul_small(&inv_eps, c), &t_limbs);
        let den_factor = add_limbs(&mul_small(&inv_eps, m), &t_limbs);
        let k_missed = mul_small(&num_factor, WEIGHT_SCALE);
        let k_hit = mul_small(&den_factor, WEIGHT_SCALE);
        let norm = add_limbs(&mul_small(&mul_small(&inv_eps, m), 2 * c), &mul_small(&t_limbs, t));
        let ghost km = value(k_missed@);
        let ghost kh = value(k_hit@);
        let ghost d = value(norm@);
        proof {
            let k = inverse_epsilon();
            assert(value(norm@) == k * m * (2 * c) + t * t);
            assert(value(k_missed@) == (k * c + t) * WEIGHT_SCALE);
            assert(value(k_hit@) == (k * m + t) * WEIGHT_SCALE);
            assert(d == 2 * m * c * k + (m + c) * (m + c)) by (nonlinear_arith)
                requires
                    d == k * m * (2 * c) + t * t,
                    t == m + c,
            ;
            assert(km == WEIGHT_SCALE * (c * k + m + c)) by (nonlinear_arith)
                requires
                    km == (k * c + t) * WEIGHT_SCALE,
                    t == m + c,
            ;
            assert(kh == WEIGHT_SCALE * (m * k + m + c)) by (nonlinear_arith)
                requires
                    kh == (k * m + t) * WEIGHT_SCALE,
                    t == m + c,
            ;
            assert(m * km + c * kh == WEIGHT_SCALE * d) by (nonlinear_arith)
                requires
                    km == WEIGHT_SCALE * (c * k + m + c),
                    kh == WEIGHT_SCALE * (m * k + m + c),
                    d == 2 * m * c * k + (m + c) * (m + c),
            ;
            assert(d >= WEIGHT_SCALE) by (nonlinear_arith)
                requires
                    d == 2 * m * c * k + (m + c) * (m + c),
                    m + c >= WEIGHT_SCALE,
                    m >= 0,
                    c >= 0,
                    k >= 1,
            ;
            assert(km >= WEIGHT_SCALE && kh >= WEIGHT_SCALE) by (nonlinear_arith)
                requires
                    km == WEIGHT_SCALE * (c * k + m + c),
                    kh == WEIGHT_SCALE * (m * k + m + c),
                    m + c >= WEIGHT_SCALE,
                    m >= 0,
                    c >= 0,
                    k >= 1,
            ;
        }
        let mut out: Vec<u64> = Vec::new();
        let ghost mut out_sum: int = 0;
        let mut i: usize = 0;
        while i < n
            invariant
                w == old(self)@,
                w == self@,
                y == labels@,
                p == preds@,
                n == w.len(),
                y.len() == n,
                p.len() == n,
                valid_masses(w),
                m == missed_mass(w, y, p),
                c == hit_sum(w, y, p, n as int),
                m + c == total(w),
                d == value(norm@),
                km == value(k_missed@),
                kh == value(k_hit@),
                d == odds_norm(m as int, c as int),
                km == WEIGHT_SCALE * odds_numerator(m as int, c as int),
                kh == WEIGHT_SCALE * odds_denominator(m as int, c as int),
                d >= WEIGHT_SCALE,
                km >= WEIGHT_SCALE,
                kh >= WEIGHT_SCALE,
                m * km + c * kh == WEIGHT_SCALE * d,
                i <= n,
                out@.len() == i,
                forall|k: int|
                    0 <= k < i ==> #[trigger] out@[k] == reweighted_mass(
                        w[k] as int,
                        is_missed(y, p, k),
                        m as int,
                        c as int,
                    ),
                forall|k: int| 0 <= k < i ==> #[trigger] out@[k] >= 1,
                out_sum == mass_sum(out@, i as int),
                d * out_sum >= missed_sum(w, y, p, i as int) * km + hit_sum(w, y, p, i as int) * kh,
                d * out_sum <= missed_sum(w, y, p, i as int) * km + hit_sum(w, y, p, i as int) * kh + i
                    * (d - 1),
            decreases n - i,
        {
            let wi = self.masses[i];
            let missed_i = preds[i] as i64 != labels[i];
            let ghost ms = missed_sum(w, y, p, i as int);
            let ghost hs = hit_sum(w, y, p, i as int);
            let ghost kx: int = if missed_i { km } else { kh };
            let num = if missed_i {
                mul_small(&k_missed, wi)
            } else {
                mul_small(&k_hit, wi)
            };
            proof {
                lemma_mass_sum_monotone(w, i + 1, n as int);
                lemma_mass_sum_monotone(w, 0, i as int);
                lemma_split_sums(w, y, p, i + 1);
                lemma_split_sums(w, y, p, i as int);
                lemma_split_sums_monotone(w, y, p, i + 1, n as int);
                assert(value(num@) == kx * wi);
                let ms1 = missed_sum(w, y, p, i + 1);
                let hs1 = hit_sum(w, y, p, i + 1);
                if missed_i {
                    assert(ms1 == ms + wi);
                    assert(hs1 == hs);
                    assert(ms1 * km == ms * km + kx * wi) by (nonlinear_arith)
                        requires
                            ms1 == ms + wi,
                            kx == km,
                    ;
                    assert(kx * wi <= ms1 * km) by (nonlinear_arith)
                        requires
                            ms1 == ms + wi,
                            kx == km,
                            ms >= 0,
                            km >= 0,
                    ;
                } else {
                    assert(ms1 == ms);
                    assert(hs1 == hs + wi);
                    assert(hs1 * kh == hs * kh + kx * wi) by (nonlinear_arith)
                        requires
                            hs1 == hs + wi,
                            kx == kh,
                    ;
                    assert(kx * wi <= hs1 * kh) by (nonlinear_arith)
                        requires
                            hs1 == hs + wi,
                            kx == kh,
                            hs >= 0,
                            kh >= 0,
                    ;
                }
                assert(ms1 * km + hs1 * kh <= WEIGHT_SCALE * d) by (nonlinear_arith)
                    requires
                        0 <= ms1 <= m,
                        0 <= hs1 <= c,
                        km >= 0,
                        kh >= 0,
                        m * km + c * kh == WEIGHT_SCALE * d,
                ;
                assert(ms1 * km >= 0 && hs1 * kh >= 0) by (nonlinear_arith)
                    requires
                        ms1 >= 0,
                        hs1 >= 0,
                        km >= 0,
                        kh >= 0,
                ;
                assert(value(num@) <= WEIGHT_SCALE * value(norm@));
            }
            let q = ceil_quotient(&num, &norm, WEIGHT_SCALE);
            proof {
                let a = kx * wi;
                assert(a >= 1) by (nonlinear_arith)
                    requires
                        wi >= 1,
                        kx >= WEIGHT_SCALE,
                        a == kx * wi,
                ;
                lemma_ceil_div(a, d);
                if missed_i {
                    assert(a == wi * WEIGHT_SCALE * odds_numerator(m as int, c as int)) by (nonlinear_arith)
                        requires
                            a == kx * wi,
                            kx == WEIGHT_SCALE * odds_numerator(m as int, c as int),
                    ;
                } else {
                    assert(a == wi * WEIGHT_SCALE * odds_denominator(m as int, c as int)) by (nonlinear_arith)
                        requires
                            a == kx * wi,
                            kx == WEIGHT_SCALE * odds_denominator(m as int, c as int),
                    ;
                }
                assert(d * (out_sum + q) == d * out_sum + d * q) by (nonlinear_arith);
                assert((i + 1) * (d - 1) == i * (d - 1) + (d - 1)) by (nonlinear_arith);
                assert(ms * km + hs * kh >= 0) by (nonlinear_arith)
                    requires
                        ms >= 0,
                        hs >= 0,
                        km >= 0,
                        kh >= 0,
                ;
                assert(out_sum >= 0) by (nonlinear_arith)
                    requires
                        d * out_sum >= 0,
                        d >= 1,
                ;
            }
            proof {
                lemma_mass_sum_agree(out@, out@.push(q), i as int);
                out_sum = out_sum + q;
            }
            out.push(q);
            i = i + 1;
        }
        proof {
            lemma_split_sums(w, y, p, n as int);
            assert(out_sum >= WEIGHT_SCALE) by (nonlinear_arith)
                requires
                    d * out_sum >= WEIGHT_SCALE * d,
                    d >= 1,
            ;
            assert(out_sum <= WEIGHT_SCALE + n) by (nonlinear_arith)
                requires
                    d * out_sum <= WEIGHT_SCALE * d + n * (d - 1),
                    d >= 1,
            ;
        }
        self.masses = out;
    }
}

} // verus!

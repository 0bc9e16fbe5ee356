//! Strategies that infer optimal bin parameters from observations.
//!
//! Each strategy learns a bin width for an equi-spaced partition from a
//! one-dimensional sample. The square-root, Rice and Sturges rules look only
//! at the sample size; Freedman-Diaconis also looks at the interquartile
//! range, retreating to ever wider quantile spans and finally to Scott's
//! rule when the spread is indistinguishable from zero; Auto picks the finer
//! of Freedman-Diaconis and Sturges.
use vstd::prelude::*;
use crate::bins::{Bins, Edges, is_strictly_increasing, lemma_sort_seq_id};
use crate::errors::BinsBuildError;
use crate::intmath::{
    floor_cbrt, floor_sqrt, lemma_div_ge, lemma_div_le, lemma_mul_le, pow2_u128, round_2cbrt,
    round_sqrt, rice_candidate, sqrt_candidate, sturges_candidate, sturges_count, trunc_div,
};
use vstd::arithmetic::power2::pow2;

verus! {

/// The smallest value of a non-empty sample (`0` for an empty one).
pub open spec fn seq_min(s: Seq<i64>) -> int
    decreases s.len(),
{
    if s.len() == 0 {
        0
    } else if s.len() == 1 {
        s[0] as int
    } else {
        let m = seq_min(s.drop_last());
        if (s.last() as int) <= m {
            s.last() as int
        } else {
            m
        }
    }
}

/// The largest value of a non-empty sample (`0` for an empty one).
pub open spec fn seq_max(s: Seq<i64>) -> int
    decreases s.len(),
{
    if s.len() == 0 {
        0
    } else if s.len() == 1 {
        s[0] as int
    } else {
        let m = seq_max(s.drop_last());
        if (s.last() as int) >= m {
            s.last() as int
        } else {
            m
        }
    }
}

/// Every element lies between the sample minimum and maximum.
pub proof fn lemma_minmax_bounds(s: Seq<i64>)
    requires
        s.len() >= 1,
    ensures
        forall|k: int| 0 <= k < s.len() ==> seq_min(s) <= #[trigger] s[k] <= seq_max(s),
        seq_min(s) <= seq_max(s),
        i64::MIN <= seq_min(s),
        seq_max(s) <= i64::MAX,
    decreases s.len(),
{
    if s.len() > 1 {
        lemma_minmax_bounds(s.drop_last());
        assert forall|k: int| 0 <= k < s.len() implies seq_min(s) <= #[trigger] s[k] <= seq_max(s) by {
            if k < s.len() - 1 {
                assert(s[k] == s.drop_last()[k]);
            }
        }
    }
}

/// An equi-spaced partition builder for one axis.
#[derive(Clone, Copy, Debug, PartialEq, Eq)]
pub struct EquiSpaced {
    /// The uniform width of each bin.
    pub bin_width: i64,
    /// The smallest observed value.
    pub min: i64,
    /// The largest observed value.
    pub max: i64,
}

/// What `EquiSpaced::new` returns: construction succeeds exactly when the
/// width is positive and the range is non-degenerate.
pub open spec fn equi_new_spec(bin_width: i64, min: i64, max: i64) -> Result<
    EquiSpaced,
    BinsBuildError,
> {
    if bin_width <= 0 || min >= max {
        Err(BinsBuildError::Strategy)
    } else {
        Ok(EquiSpaced { bin_width, min, max })
    }
}

impl EquiSpaced {
    /// A positive width over a non-degenerate range.
    pub open spec fn wf(&self) -> bool {
        self.bin_width > 0 && self.min < self.max
    }

    /// The number of bins: `ceil((max - min) / bin_width + 1/2)`, so that
    /// the covered range ends past `max`, saturated at the largest
    /// representable count.
    pub open spec fn spec_n_bins(&self) -> nat {
        let raw = (2 * (self.max - self.min) + 3 * self.bin_width - 1) / (2 * self.bin_width);
        if raw > usize::MAX as int {
            usize::MAX as nat
        } else {
            raw as nat
        }
    }

    /// Fails if and only if `bin_width <= 0` or `min >= max`.
    pub fn new(bin_width: i64, min: i64, max: i64) -> (r: Result<EquiSpaced, BinsBuildError>)
        ensures
            r == equi_new_spec(bin_width, min, max),
            r is Ok <==> (bin_width > 0 && min < max),
            r matches Ok(b) ==> b.wf() && b == (EquiSpaced { bin_width, min, max }),
    {
        if bin_width <= 0 || min >= max {
            Err(BinsBuildError::Strategy)
        } else {
            Ok(EquiSpaced { bin_width, min, max })
        }
    }

    /// The fitted bin width.
    pub fn bin_width(&self) -> (r: i64)
        ensures
            r == self.bin_width,
    {
        self.bin_width
    }

    /// The number of bins.
    pub fn n_bins(&self) -> (r: usize)
        requires
            self.wf(),
        ensures
            r as nat == self.spec_n_bins(),
    {
        let range: u128 = ((self.max as i128) - (self.min as i128)) as u128;
        let w: u128 = self.bin_width as u128;
        let num: u128 = 2 * range + 3 * w - 1;
        let den: u128 = 2 * w;
        let q: u128 = num / den;
        if q > usize::MAX as u128 {
            usize::MAX
        } else {
            q as usize
        }
    }

    /// Emits the `n_bins() + 1` boundaries `min + i * bin_width`; the last
    /// one lies strictly past `max`, so the final half-open bin contains the
    /// maximum observed value.
    pub fn build(&self) -> (r: Bins)
        requires
            self.wf(),
            self.spec_n_bins() < usize::MAX as nat,
            self.min + self.spec_n_bins() * self.bin_width <= i64::MAX,
        ensures
            r.wf(),
            r@.len() == self.spec_n_bins() + 1,
            forall|i: int| 0 <= i < r@.len() ==> r@[i] == self.min + i * self.bin_width,
            r@[0] == self.min,
            r@.last() > self.max,
    {
        let nb = self.n_bins();
        let ghost nbi = nb as int;
        let ghost w = self.bin_width as int;
        let ghost mn = self.min as int;
        proof {
            lemma_mul_le(0, nbi, w);
        }
        let mut edges_vec: Vec<i64> = Vec::new();
        let mut i: usize = 0;
        while i <= nb
            invariant
                i <= nb + 1,
                nb < usize::MAX,
                nbi == nb as int,
                self.wf(),
                nbi == self.spec_n_bins(),
                w == self.bin_width as int,
                mn == self.min as int,
                mn + nbi * w <= i64::MAX,
                edges_vec@.len() == i,
                forall|k: int| 0 <= k < i ==> edges_vec@[k] == mn + k * w,
            decreases nb + 1 - i,
        {
            proof {
                lemma_mul_le(i as int, nbi, w);
                lemma_mul_le(0, i as int, w);
            }
            let e: i64 = ((self.min as i128) + (i as i128) * (self.bin_width as i128)) as i64;
            edges_vec.push(e);
            i = i + 1;
        }
        proof {
            assert forall|p: int, q: int|
                0 <= p < q < edges_vec@.len() implies edges_vec@[p] < edges_vec@[q] by {
                assert(edges_vec@[q] - edges_vec@[p] == (q - p) * w) by (nonlinear_arith)
                    requires
                        edges_vec@[p] == mn + p * w,
                        edges_vec@[q] == mn + q * w;
                lemma_mul_le(1, q - p, w);
            }
            assert(is_strictly_increasing(edges_vec@));
            lemma_sort_seq_id(edges_vec@);
            crate::bins::lemma_dedup_adj_id(edges_vec@);
            // the last edge lies past max
            let raw = (2 * (self.max - self.min) + 3 * self.bin_width - 1) / (2 * self.bin_width);
            vstd::arithmetic::div_mod::lemma_fundamental_div_mod(
                2 * (self.max - self.min) + 3 * self.bin_width - 1,
                2 * self.bin_width,
            );
            assert(nbi * w > self.max - self.min) by (nonlinear_arith)
                requires
                    nbi == raw,
                    w == self.bin_width as int,
                    w >= 1,
                    (2 * self.bin_width) * raw >= 2 * (self.max - self.min) + self.bin_width,
            ;
            assert(edges_vec@.last() == mn + nbi * w);
        }
        let edges = Edges::from_vec(edges_vec);
        Bins::new(edges)
    }
}

/// A single scan for the smallest and largest sample values.
fn min_max(a: &Vec<i64>) -> (r: (i64, i64))
    requires
        a@.len() >= 1,
    ensures
        r.0 as int == seq_min(a@),
        r.1 as int == seq_max(a@),
{
    let mut mn = a[0];
    let mut mx = a[0];
    let mut i: usize = 1;
    proof {
        assert(a@.subrange(0, 1) =~= seq![a@[0]]);
    }
    while i < a.len()
        invariant
            1 <= i <= a@.len(),
            mn as int == seq_min(a@.subrange(0, i as int)),
            mx as int == seq_max(a@.subrange(0, i as int)),
        decreases a@.len() - i,
    {
        proof {
            assert(a@.subrange(0, i as int + 1).drop_last() =~= a@.subrange(0, i as int));
            assert(a@.subrange(0, i as int + 1).last() == a@[i as int]);
        }
        let x = a[i];
        if x < mn {
            mn = x;
        }
        if x > mx {
            mx = x;
        }
        i = i + 1;
    }
    proof {
        assert(a@.subrange(0, a@.len() as int) =~= a@);
    }
    (mn, mx)
}

/// `(max - min) / n_bins`, the width shared by the size-only strategies.
fn compute_bin_width(min: i64, max: i64, n_bins: usize) -> (r: i64)
    requires
        n_bins >= 1,
        min <= max,
        max as int - min as int <= i64::MAX,
    ensures
        r as int == (max - min) / (n_bins as int),
{
    let range: u128 = ((max as i128) - (min as i128)) as u128;
    let w: u128 = range / (n_bins as u128);
    proof {
        lemma_mul_le(1, n_bins as int, range as int);
        lemma_div_le(range as int, range as int, n_bins as int);
    }
    w as i64
}

/// The outcome that a size-only strategy reaches with candidate bin count
/// `c`: the sample must be non-empty, the derived width positive (constant
/// data makes it zero), and the resulting bin count within the cap.
pub open spec fn fit_with_count(s: Seq<i64>, c: nat, maxb: nat) -> Result<
    EquiSpaced,
    BinsBuildError,
>
    recommends
        c >= 1,
{
    if s.len() == 0 {
        Err(BinsBuildError::EmptyInput)
    } else {
        let w = (seq_max(s) - seq_min(s)) / (c as int);
        match equi_new_spec(w as i64, seq_min(s) as i64, seq_max(s) as i64) {
            Err(e) => Err(e),
            Ok(b) => {
                if b.spec_n_bins() > maxb {
                    Err(BinsBuildError::Strategy)
                } else {
                    Ok(b)
                }
            },
        }
    }
}

/// Square root (of data size) strategy.
///
/// For `n` observations the candidate bin count is `round(sqrt(n))`. The
/// data must not be empty and not constant.
#[derive(Clone, Copy, Debug, PartialEq, Eq)]
pub struct Sqrt {
    /// The fitted equi-spaced partition.
    pub builder: EquiSpaced,
}

/// Rice strategy: the candidate bin count is `round(2 * cbrt(n))`, from the
/// data size alone.
#[derive(Clone, Copy, Debug, PartialEq, Eq)]
pub struct Rice {
    /// The fitted equi-spaced partition.
    pub builder: EquiSpaced,
}

/// Sturges strategy: the candidate bin count is `1 + round(log2(n))`, from
/// the data size alone.
#[derive(Clone, Copy, Debug, PartialEq, Eq)]
pub struct Sturges {
    /// The fitted equi-spaced partition.
    pub builder: EquiSpaced,
}

impl Sqrt {
    /// The outcome of fitting this strategy to a sample.
    pub open spec fn fit_spec(s: Seq<i64>, maxb: nat) -> Result<Sqrt, BinsBuildError> {
        match fit_with_count(s, round_sqrt(s.len()), maxb) {
            Ok(b) => Ok(Sqrt { builder: b }),
            Err(e) => Err(e),
        }
    }

    /// Fits the strategy, capping the bin count at `max_n_bins`.
    ///
    /// Fails with `EmptyInput` on an empty sample and with `Strategy` on
    /// constant data or when the bin count would exceed the cap.
    pub fn from_array_with_max(a: &Vec<i64>, max_n_bins: usize) -> (r: Result<
        Sqrt,
        BinsBuildError,
    >)
        requires
            a@.len() == 0 || seq_max(a@) - seq_min(a@) <= i64::MAX,
        ensures
            r == Self::fit_spec(a@, max_n_bins as nat),
            r matches Ok(f) ==> f.wf(),
            a@.len() == 0 <==> r == Result::<Sqrt, BinsBuildError>::Err(BinsBuildError::EmptyInput),
    {
        if a.len() == 0 {
            return Err(BinsBuildError::EmptyInput);
        }
        let c = sqrt_candidate(a.len());
        proof {
            crate::intmath::lemma_round_sqrt_is_nearest(a@.len());
            lemma_minmax_bounds(a@);
        }
        match fit_from_candidate(a, c, max_n_bins) {
            Ok(b) => Ok(Sqrt { builder: b }),
            Err(e) => Err(e),
        }
    }

    /// Fits the strategy with the default cap of `65535` bins.
    pub fn from_array(a: &Vec<i64>) -> (r: Result<Sqrt, BinsBuildError>)
        requires
            a@.len() == 0 || seq_max(a@) - seq_min(a@) <= i64::MAX,
        ensures
            r == Self::fit_spec(a@, 65535),
            a@.len() == 0 <==> r == Result::<Sqrt, BinsBuildError>::Err(BinsBuildError::EmptyInput),
    {
        Self::from_array_with_max(a, 65535)
    }

    /// The fitted partition is well-formed.
    pub open spec fn wf(&self) -> bool {
        self.builder.wf()
    }

    /// Builds the fitted bins.
    pub fn build(&self) -> (r: Bins)
        requires
            self.wf(),
            self.builder.spec_n_bins() < usize::MAX as nat,
            self.builder.min + self.builder.spec_n_bins() * self.builder.bin_width <= i64::MAX,
        ensures
            r.wf(),
            r@.len() == self.builder.spec_n_bins() + 1,
            forall|i: int|
                0 <= i < r@.len() ==> r@[i] == self.builder.min + i * self.builder.bin_width,
            r@.last() > self.builder.max,
    {
        self.builder.build()
    }

    /// The fitted number of bins.
    pub fn n_bins(&self) -> (r: usize)
        requires
            self.wf(),
        ensures
            r as nat == self.builder.spec_n_bins(),
    {
        self.builder.n_bins()
    }

    /// The fitted bin width.
    pub fn bin_width(&self) -> (r: i64)
        ensures
            r == self.builder.bin_width,
    {
        self.builder.bin_width()
    }
}

impl Rice {
    /// The outcome of fitting this strategy to a sample.
    pub open spec fn fit_spec(s: Seq<i64>, maxb: nat) -> Result<Rice, BinsBuildError> {
        match fit_with_count(s, round_2cbrt(s.len()), maxb) {
            Ok(b) => Ok(Rice { builder: b }),
            Err(e) => Err(e),
        }
    }

    /// Fits the strategy, capping the bin count at `max_n_bins`.
    ///
    /// Fails with `EmptyInput` on an empty sample and with `Strategy` on
    /// constant data or when the bin count would exceed the cap.
    pub fn from_array_with_max(a: &Vec<i64>, max_n_bins: usize) -> (r: Result<
        Rice,
        BinsBuildError,
    >)
        requires
            a@.len() == 0 || seq_max(a@) - seq_min(a@) <= i64::MAX,
        ensures
            r == Self::fit_spec(a@, max_n_bins as nat),
            r matches Ok(f) ==> f.wf(),
            a@.len() == 0 <==> r == Result::<Rice, BinsBuildError>::Err(BinsBuildError::EmptyInput),
    {
        if a.len() == 0 {
            return Err(BinsBuildError::EmptyInput);
        }
        let c = rice_candidate(a.len());
        proof {
            crate::intmath::lemma_round_2cbrt_is_nearest(a@.len());
            lemma_minmax_bounds(a@);
        }
        match fit_from_candidate(a, c, max_n_bins) {
            Ok(b) => Ok(Rice { builder: b }),
            Err(e) => Err(e),
        }
    }

    /// Fits the strategy with the default cap of `65535` bins.
    pub fn from_array(a: &Vec<i64>) -> (r: Result<Rice, BinsBuildError>)
        requires
            a@.len() == 0 || seq_max(a@) - seq_min(a@) <= i64::MAX,
        ensures
            r == Self::fit_spec(a@, 65535),
            a@.len() == 0 <==> r == Result::<Rice, BinsBuildError>::Err(BinsBuildError::EmptyInput),
    {
        Self::from_array_with_max(a, 65535)
    }

    /// The fitted partition is well-formed.
    pub open spec fn wf(&self) -> bool {
        self.builder.wf()
    }

    /// Builds the fitted bins.
    pub fn build(&self) -> (r: Bins)
        requires
            self.wf(),
            self.builder.spec_n_bins() < usize::MAX as nat,
            self.builder.min + self.builder.spec_n_bins() * self.builder.bin_width <= i64::MAX,
        ensures
            r.wf(),
            r@.len() == self.builder.spec_n_bins() + 1,
            forall|i: int|
                0 <= i < r@.len() ==> r@[i] == self.builder.min + i * self.builder.bin_width,
            r@.last() > self.builder.max,
    {
        self.builder.build()
    }

    /// The fitted number of bins.
    pub fn n_bins(&self) -> (r: usize)
        requires
            self.wf(),
        ensures
            r as nat == self.builder.spec_n_bins(),
    {
        self.builder.n_bins()
    }

    /// The fitted bin width.
    pub fn bin_width(&self) -> (r: i64)
        ensures
            r == self.builder.bin_width,
    {
        self.builder.bin_width()
    }
}

impl Sturges {
    /// The outcome of fitting this strategy to a sample.
    pub open spec fn fit_spec(s: Seq<i64>, maxb: nat) -> Result<Sturges, BinsBuildError> {
        match fit_with_count(s, sturges_count(s.len()), maxb) {
            Ok(b) => Ok(Sturges { builder: b }),
            Err(e) => Err(e),
        }
    }

    /// Fits the strategy, capping the bin count at `max_n_bins`.
    ///
    /// Fails with `EmptyInput` on an empty sample and with `Strategy` on
    /// constant data or when the bin count would exceed the cap.
    pub fn from_array_with_max(a: &Vec<i64>, max_n_bins: usize) -> (r: Result<
        Sturges,
        BinsBuildError,
    >)
        requires
            a@.len() == 0 || seq_max(a@) - seq_min(a@) <= i64::MAX,
        ensures
            r == Self::fit_spec(a@, max_n_bins as nat),
            r matches Ok(f) ==> f.wf(),
            a@.len() == 0 <==> r == Result::<Sturges, BinsBuildError>::Err(BinsBuildError::EmptyInput),
    {
        if a.len() == 0 {
            return Err(BinsBuildError::EmptyInput);
        }
        let c = sturges_candidate(a.len());
        proof {
            lemma_minmax_bounds(a@);
        }
        match fit_from_candidate(a, c, max_n_bins) {
            Ok(b) => Ok(Sturges { builder: b }),
            Err(e) => Err(e),
        }
    }

    /// Fits the strategy with the default cap of `65535` bins.
    pub fn from_array(a: &Vec<i64>) -> (r: Result<Sturges, BinsBuildError>)
        requires
            a@.len() == 0 || seq_max(a@) - seq_min(a@) <= i64::MAX,
        ensures
            r == Self::fit_spec(a@, 65535),
            a@.len() == 0 <==> r == Result::<Sturges, BinsBuildError>::Err(BinsBuildError::EmptyInput),
    {
        Self::from_array_with_max(a, 65535)
    }

    /// The fitted partition is well-formed.
    pub open spec fn wf(&self) -> bool {
        self.builder.wf()
    }

    /// Builds the fitted bins.
    pub fn build(&self) -> (r: Bins)
        requires
            self.wf(),
            self.builder.spec_n_bins() < usize::MAX as nat,
            self.builder.min + self.builder.spec_n_bins() * self.builder.bin_width <= i64::MAX,
        ensures
            r.wf(),
            r@.len() == self.builder.spec_n_bins() + 1,
            forall|i: int|
                0 <= i < r@.len() ==> r@[i] == self.builder.min + i * self.builder.bin_width,
            r@.last() > self.builder.max,
    {
        self.builder.build()
    }

    /// The fitted number of bins.
    pub fn n_bins(&self) -> (r: usize)
        requires
            self.wf(),
        ensures
            r as nat == self.builder.spec_n_bins(),
    {
        self.builder.n_bins()
    }

    /// The fitted bin width.
    pub fn bin_width(&self) -> (r: i64)
        ensures
            r == self.builder.bin_width,
    {
        self.builder.bin_width()
    }
}

/// The shared tail of the size-only strategies: derive the width from the
/// candidate count, construct the builder, apply the cap.
fn fit_from_candidate(a: &Vec<i64>, c: usize, max_n_bins: usize) -> (r: Result<
    EquiSpaced,
    BinsBuildError,
>)
    requires
        a@.len() >= 1,
        c >= 1,
        seq_max(a@) - seq_min(a@) <= i64::MAX,
    ensures
        r == fit_with_count(a@, c as nat, max_n_bins as nat),
        r matches Ok(b) ==> b.wf(),
{
    proof {
        lemma_minmax_bounds(a@);
    }
    let (mn, mx) = min_max(a);
    let bin_width = compute_bin_width(mn, mx, c);
    let builder = match EquiSpaced::new(bin_width, mn, mx) {
        Ok(b) => b,
        Err(e) => {
            return Err(e);
        },
    };
    if builder.n_bins() > max_n_bins {
        Err(BinsBuildError::Strategy)
    } else {
        Ok(builder)
    }
}

/// The sum of the sample values.
pub open spec fn seq_sum(s: Seq<i64>) -> int
    decreases s.len(),
{
    if s.len() == 0 {
        0
    } else {
        seq_sum(s.drop_last()) + s.last()
    }
}

/// The sum of the squared deviations of the sample values from `m`.
pub open spec fn sum_sq_dev(s: Seq<i64>, m: int) -> int
    decreases s.len(),
{
    if s.len() == 0 {
        0
    } else {
        sum_sq_dev(s.drop_last(), m) + (s.last() - m) * (s.last() - m)
    }
}

/// The sample sum is bounded by the extreme representable values times the
/// length.
proof fn lemma_seq_sum_bounds(s: Seq<i64>)
    ensures
        s.len() * (i64::MIN as int) <= seq_sum(s) <= s.len() * (i64::MAX as int),
    decreases s.len(),
{
    if s.len() > 0 {
        lemma_seq_sum_bounds(s.drop_last());
    }
}

/// A square is non-negative.
proof fn lemma_sq_nonneg(a: int)
    by (nonlinear_arith)
    ensures
        0 <= a * a,
{
}

/// The squared deviations are non-negative, so a prefix sum never exceeds
/// the whole sum.
proof fn lemma_sum_sq_dev_prefix(s: Seq<i64>, m: int, i: int)
    requires
        0 <= i <= s.len(),
    ensures
        0 <= sum_sq_dev(s.subrange(0, i), m) <= sum_sq_dev(s, m),
    decreases s.len() - i,
{
    if i == s.len() {
        assert(s.subrange(0, i) =~= s);
        lemma_sum_sq_dev_nonneg(s, m);
    } else {
        lemma_sum_sq_dev_prefix(s, m, i + 1);
        assert(s.subrange(0, i + 1).drop_last() =~= s.subrange(0, i));
        lemma_sq_nonneg(s.subrange(0, i + 1).last() - m);
        lemma_sum_sq_dev_nonneg(s.subrange(0, i), m);
    }
}

/// A sum of squares is non-negative.
proof fn lemma_sum_sq_dev_nonneg(s: Seq<i64>, m: int)
    ensures
        0 <= sum_sq_dev(s, m),
    decreases s.len(),
{
    if s.len() > 0 {
        lemma_sum_sq_dev_nonneg(s.drop_last(), m);
        lemma_sq_nonneg(s.last() - m);
    }
}

/// The truncated mean lies within the representable range.
proof fn lemma_mean_in_range(s: Seq<i64>)
    requires
        s.len() >= 1,
    ensures
        i64::MIN as int <= trunc_div(seq_sum(s), s.len() as int) <= i64::MAX as int,
{
    lemma_seq_sum_bounds(s);
    let sum = seq_sum(s);
    let n = s.len() as int;
    if sum >= 0 {
        lemma_div_le(sum, i64::MAX as int, n);
    } else {
        lemma_div_le(-sum, -(i64::MIN as int), n);
    }
}

/// An element of the sorted sample lies between the sample extremes.
proof fn lemma_sorted_elem_bounds(s: Seq<i64>, idx: int)
    requires
        s.len() >= 1,
        0 <= idx < crate::sorting::sort_seq(s).len(),
    ensures
        seq_min(s) <= crate::sorting::sort_seq(s)[idx] <= seq_max(s),
{
    broadcast use vstd::seq_lib::group_to_multiset_ensures;

    let t = crate::sorting::sort_seq(s);
    crate::sorting::lemma_sort_seq(s);
    assert(t.contains(t[idx]));
    assert(s.to_multiset().contains(t[idx]));
    assert(s.contains(t[idx]));
    let w = choose|w: int| 0 <= w < s.len() && s[w] == t[idx];
    lemma_minmax_bounds(s);
    assert(seq_min(s) <= s[w] <= seq_max(s));
}

/// The index that the nearest-value interpolation strategy selects for the
/// quantile `num / den` over a sample of the given length: the continuous
/// index `(num / den) * (len - 1)` rounded to the nearer of its floor and
/// ceiling, upward from the midpoint.
pub open spec fn nearest_rank(num: nat, den: nat, len: nat) -> nat
    recommends
        den >= 1,
        num <= den,
        len >= 1,
{
    let t = num * ((len - 1) as nat);
    if 2 * (t % den) < den {
        t / den
    } else {
        t / den + 1
    }
}

/// The selected rank is a valid index.
proof fn lemma_nearest_rank_bound(num: nat, den: nat, len: nat)
    requires
        den >= 1,
        num <= den,
        len >= 1,
    ensures
        nearest_rank(num, den, len) < len,
{
    let l1 = (len - 1) as nat;
    let t = num * l1;
    lemma_mul_le(num as int, den as int, l1 as int);
    lemma_div_le(t as int, l1 as int, den as int);
    vstd::arithmetic::div_mod::lemma_fundamental_div_mod(t as int, den as int);
    if !(2 * (t % den) < den) {
        if t / den == l1 {
            lemma_mul_le(l1 as int, t as int / den as int, den as int);
            assert(den * (t / den) == (t / den) * den) by (nonlinear_arith);
            assert(t % den == 0);
        }
    }
}

/// The selected rank grows with the quantile.
proof fn lemma_nearest_rank_mono(num1: nat, num2: nat, den: nat, len: nat)
    requires
        den >= 1,
        num1 <= num2 <= den,
        len >= 1,
    ensures
        nearest_rank(num1, den, len) <= nearest_rank(num2, den, len),
{
    let l1 = (len - 1) as nat;
    let t1 = num1 * l1;
    let t2 = num2 * l1;
    lemma_mul_le(num1 as int, num2 as int, l1 as int);
    vstd::arithmetic::div_mod::lemma_div_is_ordered(t1 as int, t2 as int, den as int);
    vstd::arithmetic::div_mod::lemma_fundamental_div_mod(t1 as int, den as int);
    vstd::arithmetic::div_mod::lemma_fundamental_div_mod(t2 as int, den as int);
}

/// The value at the rank the nearest-value strategy selects for quantile
/// `num / den` in a sorted sample.
pub open spec fn fd_quantile(t: Seq<i64>, num: nat, den: nat) -> i64 {
    t[nearest_rank(num, den, t.len()) as int]
}

/// The denominator `trunc((1 - 2 * at) * cbrt(n))` of the Freedman-Diaconis
/// width at trim fraction `at = 1 / 2^(k+1)`, computed exactly: with
/// `p = 2^k - 1` and `q = 2^k` it is `floor(p * cbrt(n) / q)`.
pub open spec fn fd_denom(k: nat, n: nat) -> nat {
    let p = (pow2(k) - 1) as nat;
    let q = pow2(k);
    floor_cbrt(p * p * p * n) / q
}

/// One rung of the Freedman-Diaconis retry ladder, for trim fractions
/// `1/4, 1/8, ..., 1/512` (`k = 1..8` with `at = 1 / 2^(k+1)`). A rung whose
/// denominator rounds to zero, or whose bin count exceeds the cap, hands
/// over to the next rung; `None` means the whole ladder was exhausted.
pub open spec fn fd_ladder(t: Seq<i64>, mn: int, mx: int, n: nat, maxb: nat, k: nat) -> Option<
    Result<EquiSpaced, BinsBuildError>,
>
    recommends
        t.len() == n,
        n >= 1,
    decreases 9 - k,
{
    if k > 8 {
        None
    } else {
        let d = fd_denom(k, n);
        if d == 0 {
            fd_ladder(t, mn, mx, n, maxb, k + 1)
        } else {
            let lower = fd_quantile(t, 1, pow2(k + 1));
            let upper = fd_quantile(t, (pow2(k + 1) - 1) as nat, pow2(k + 1));
            let w = (upper - lower) / (d as int);
            match equi_new_spec(w as i64, mn as i64, mx as i64) {
                Err(e) => Some(Err(e)),
                Ok(b) => {
                    if b.spec_n_bins() > maxb {
                        fd_ladder(t, mn, mx, n, maxb, k + 1)
                    } else {
                        Some(Ok(b))
                    }
                },
            }
        }
    }
}

/// `floor(3.49 * s)` where `s = sqrt(v)` is the sample standard deviation:
/// exactly `floor(sqrt(349^2 * v)) / 100`.
pub open spec fn scott_m349(s: Seq<i64>) -> nat {
    let n = s.len();
    let m = trunc_div(seq_sum(s), n as int);
    let v = sum_sq_dev(s, m) / (n - 1);
    floor_sqrt((121801 * v) as nat) / 100
}

/// Scott's rule width: `trunc(3.49 * sqrt(variance)) / trunc(cbrt(n))`,
/// with the unbiased sample variance.
pub open spec fn scott_width(s: Seq<i64>) -> int {
    (scott_m349(s) / floor_cbrt(s.len())) as int
}

/// Whether the Freedman-Diaconis fit falls through its whole trim ladder
/// and reaches the Scott fallback.
pub open spec fn fd_needs_scott(s: Seq<i64>, maxb: nat) -> bool {
    s.len() > 0 && fd_ladder(
        crate::sorting::sort_seq(s),
        seq_min(s),
        seq_max(s),
        s.len(),
        maxb,
        1,
    ) is None
}

/// Machine limits under which the Scott fallback is computable: the sum of
/// squared deviations leaves room for the scaling constant, and the scaled
/// standard deviation is representable.
pub open spec fn scott_fits(s: Seq<i64>) -> bool {
    let m = trunc_div(seq_sum(s), s.len() as int);
    sum_sq_dev(s, m) <= (u128::MAX as int) / 121801 && scott_m349(s) <= i64::MAX as nat
}

/// The outcome of the Scott fallback.
pub open spec fn fd_scott_result(s: Seq<i64>, maxb: nat) -> Result<EquiSpaced, BinsBuildError> {
    let w = scott_width(s);
    match equi_new_spec(w as i64, seq_min(s) as i64, seq_max(s) as i64) {
        Err(e) => Err(e),
        Ok(b) => {
            if b.spec_n_bins() > maxb {
                Err(BinsBuildError::Strategy)
            } else {
                Ok(b)
            }
        },
    }
}

/// The complete Freedman-Diaconis outcome: the trim ladder over the sorted
/// sample, then the Scott fallback.
pub open spec fn fd_fit(s: Seq<i64>, maxb: nat) -> Result<EquiSpaced, BinsBuildError> {
    if s.len() == 0 {
        Err(BinsBuildError::EmptyInput)
    } else {
        match fd_ladder(crate::sorting::sort_seq(s), seq_min(s), seq_max(s), s.len(), maxb, 1) {
            Some(r) => r,
            None => fd_scott_result(s, maxb),
        }
    }
}

/// The selected rank, executably.
fn nearest_rank_exec(num: u64, den: u64, len: usize) -> (r: usize)
    requires
        den >= 1,
        num <= den,
        len >= 1,
    ensures
        r as nat == nearest_rank(num as nat, den as nat, len as nat),
        r < len,
{
    proof {
        lemma_nearest_rank_bound(num as nat, den as nat, len as nat);
        assert((num as int) * ((len - 1) as int)
            < 0x1_0000_0000_0000_0000_0000_0000_0000_0000int) by (nonlinear_arith)
            requires
                0 <= num as int,
                (num as int) < 0x1_0000_0000_0000_0000int,
                0 <= (len - 1) as int,
                ((len - 1) as int) < 0x1_0000_0000_0000_0000int,
        ;
    }
    let t: u128 = (num as u128) * ((len - 1) as u128);
    let d: u128 = den as u128;
    let fl: u128 = t / d;
    let rem: u128 = t % d;
    let r128: u128 = if 2 * rem < d {
        fl
    } else {
        fl + 1
    };
    r128 as usize
}

/// The ladder denominator, executably.
fn fd_denom_exec(k: u32, n: usize) -> (r: u64)
    requires
        1 <= k <= 8,
    ensures
        r as nat == fd_denom(k as nat, n as nat),
{
    proof {
        vstd::arithmetic::power2::lemma2_to64();
        vstd::arithmetic::power2::lemma_pow2_strictly_increases(k as nat, 9);
        vstd::arithmetic::power2::lemma_pow2_pos(k as nat);
    }
    let q: u64 = pow2_u128(k) as u64;
    let p: u64 = q - 1;
    proof {
        let pi = p as int;
        let ni = n as int;
        assert(pi * pi < 0x40000int) by (nonlinear_arith)
            requires
                0 <= pi,
                pi < 512,
        ;
        assert(pi * pi * pi < 0x8000000int) by (nonlinear_arith)
            requires
                0 <= pi,
                pi < 512,
        ;
        assert(pi * pi * pi * ni < 0x1_0000_0000_0000_0000_0000_0000int) by (nonlinear_arith)
            requires
                0 <= pi,
                pi < 512,
                0 <= ni,
                ni < 0x1_0000_0000_0000_0000int,
        ;
    }
    let x: u128 = (p as u128) * (p as u128) * (p as u128) * (n as u128);
    let c = crate::intmath::icbrt_u128(x);
    proof {
        crate::intmath::lemma_floor_cbrt(x as nat);
        if floor_cbrt(x as nat) >= 0x1_0000_0000 {
            crate::intmath::lemma_cube_mono(0x1_0000_0000int, floor_cbrt(x as nat) as int);
        }
    }
    (c as u64) / (q as u64)
}

/// The sample sum, executably.
fn seq_sum_exec(a: &Vec<i64>) -> (r: i128)
    ensures
        r as int == seq_sum(a@),
{
    let mut r: i128 = 0;
    let mut i: usize = 0;
    proof {
        assert(a@.subrange(0, 0) =~= Seq::<i64>::empty());
    }
    while i < a.len()
        invariant
            i <= a@.len(),
            r as int == seq_sum(a@.subrange(0, i as int)),
        decreases a@.len() - i,
    {
        proof {
            assert(a@.subrange(0, i as int + 1).drop_last() =~= a@.subrange(0, i as int));
            lemma_seq_sum_bounds(a@.subrange(0, i as int));
        }
        r = r + (a[i] as i128);
        i = i + 1;
    }
    proof {
        assert(a@.subrange(0, a@.len() as int) =~= a@);
    }
    r
}

/// The truncated mean, executably.
fn mean_exec(sum: i128, n: usize) -> (r: i128)
    requires
        n >= 1,
        sum > i128::MIN,
    ensures
        r as int == trunc_div(sum as int, n as int),
{
    if sum >= 0 {
        ((sum as u128) / (n as u128)) as i128
    } else {
        let mag: u128 = (-sum) as u128;
        let q: u128 = mag / (n as u128);
        proof {
            lemma_mul_le(1, n as int, mag as int);
            lemma_div_le(mag as int, mag as int, n as int);
        }
        -(q as i128)
    }
}

/// The sum of squared deviations, executably.
fn sum_sq_dev_exec(a: &Vec<i64>, m: i128) -> (r: u128)
    requires
        i64::MIN as int <= m as int <= i64::MAX as int,
        sum_sq_dev(a@, m as int) <= u128::MAX as int,
    ensures
        r as int == sum_sq_dev(a@, m as int),
{
    let mut r: u128 = 0;
    let mut i: usize = 0;
    proof {
        assert(a@.subrange(0, 0) =~= Seq::<i64>::empty());
    }
    while i < a.len()
        invariant
            i <= a@.len(),
            i64::MIN as int <= m as int <= i64::MAX as int,
            sum_sq_dev(a@, m as int) <= u128::MAX as int,
            r as int == sum_sq_dev(a@.subrange(0, i as int), m as int),
        decreases a@.len() - i,
    {
        let ghost pre = a@.subrange(0, i as int);
        let ghost pre1 = a@.subrange(0, i as int + 1);
        proof {
            assert(pre1.drop_last() =~= pre);
            assert(pre1.last() == a@[i as int]);
            lemma_sum_sq_dev_prefix(a@, m as int, i as int + 1);
        }
        let diff: i128 = (a[i] as i128) - m;
        let mag: u128 = if diff >= 0 {
            diff as u128
        } else {
            (-diff) as u128
        };
        proof {
            crate::intmath::lemma_sq_mono(mag as int, 0xffff_ffff_ffff_ffffint);
            assert((mag as int) * (mag as int) == (diff as int) * (diff as int))
                by (nonlinear_arith)
                requires
                    mag as int == diff as int || mag as int == -(diff as int),
            ;
        }
        let sq: u128 = mag * mag;
        r = r + sq;
        i = i + 1;
    }
    proof {
        assert(a@.subrange(0, a@.len() as int) =~= a@);
    }
    r
}

/// The ladder never reports an empty input, and any builder it yields is
/// well-formed.
proof fn lemma_fd_ladder_no_empty(t: Seq<i64>, mn: int, mx: int, n: nat, maxb: nat, k: nat)
    ensures
        match fd_ladder(t, mn, mx, n, maxb, k) {
            Some(r) => r != Result::<EquiSpaced, BinsBuildError>::Err(BinsBuildError::EmptyInput)
                && (r matches Ok(b) ==> b.wf()),
            None => true,
        },
    decreases 9 - k,
{
    if k <= 8 {
        lemma_fd_ladder_no_empty(t, mn, mx, n, maxb, k + 1);
    }
}

/// Robust (resilient to outliers) strategy that takes into account data
/// variability and data size.
///
/// The bin width is the interquartile range scaled by the cube root of the
/// sample size. When the spread between the trimmed quantiles rounds to
/// nothing, the trim fraction is halved, down to `1/512`; when the whole
/// ladder fails, Scott's rule (from the standard deviation) is the last
/// resort, and only its failure surfaces as a `Strategy` error.
#[derive(Clone, Copy, Debug, PartialEq, Eq)]
pub struct FreedmanDiaconis {
    /// The fitted equi-spaced partition.
    pub builder: EquiSpaced,
}

impl FreedmanDiaconis {
    /// The outcome of fitting this strategy to a sample.
    pub open spec fn fit_spec(s: Seq<i64>, maxb: nat) -> Result<FreedmanDiaconis, BinsBuildError> {
        match fd_fit(s, maxb) {
            Ok(b) => Ok(FreedmanDiaconis { builder: b }),
            Err(e) => Err(e),
        }
    }

    /// The fitted partition is well-formed.
    pub open spec fn wf(&self) -> bool {
        self.builder.wf()
    }

    /// Fits the strategy, capping the bin count at `max_n_bins`.
    ///
    /// Fails with `EmptyInput` on an empty sample; fails with `Strategy`
    /// when no trim fraction and not even Scott's rule can produce a
    /// positive width within the cap.
    pub fn from_array_with_max(a: &Vec<i64>, max_n_bins: usize) -> (r: Result<
        FreedmanDiaconis,
        BinsBuildError,
    >)
        requires
            a@.len() == 0 || seq_max(a@) - seq_min(a@) <= i64::MAX,
            fd_needs_scott(a@, max_n_bins as nat) && seq_min(a@) < seq_max(a@) ==> scott_fits(a@),
        ensures
            r == Self::fit_spec(a@, max_n_bins as nat),
            r matches Ok(f) ==> f.wf(),
            a@.len() == 0 <==> r == Result::<FreedmanDiaconis, BinsBuildError>::Err(
                BinsBuildError::EmptyInput,
            ),
    {
        let n = a.len();
        if n == 0 {
            return Err(BinsBuildError::EmptyInput);
        }
        let ghost mb = max_n_bins as nat;
        proof {
            lemma_minmax_bounds(a@);
            crate::sorting::lemma_sort_seq(a@);
            lemma_fd_ladder_no_empty(a@, 0, 0, 0, 0, 9);
        }
        let (mn, mx) = min_max(a);
        let sorted = crate::sorting::sort_vec(a);
        let ghost t = sorted@;
        let ghost mni = mn as int;
        let ghost mxi = mx as int;
        let mut k: u32 = 1;
        let mut out: Option<Result<EquiSpaced, BinsBuildError>> = None;
        while k <= 8 && out.is_none()
            invariant
                1 <= k <= 9,
                n == a@.len(),
                n >= 1,
                t == crate::sorting::sort_seq(a@),
                sorted@ == t,
                t.len() == n,
                crate::sorting::is_sorted(t),
                mni == seq_min(a@),
                mxi == seq_max(a@),
                mn as int == mni,
                mx as int == mxi,
                mxi - mni <= i64::MAX,
                mni <= mxi,
                out is None ==> fd_ladder(t, mni, mxi, n as nat, mb, 1) == fd_ladder(
                    t,
                    mni,
                    mxi,
                    n as nat,
                    mb,
                    k as nat,
                ),
                out matches Some(res) ==> fd_ladder(t, mni, mxi, n as nat, mb, 1) == Some(res),
                mb == max_n_bins as nat,
            decreases 9 - k,
        {
            let ghost kk = k as nat;
            proof {
                vstd::arithmetic::power2::lemma2_to64();
                vstd::arithmetic::power2::lemma_pow2_strictly_increases(k as nat + 1, 10);
                vstd::arithmetic::power2::lemma_pow2_pos(k as nat + 1);
            }
            let den_q: u64 = pow2_u128(k + 1) as u64;
            let d = fd_denom_exec(k, n);
            if d != 0 {
                let rank_lo = nearest_rank_exec(1, den_q, n);
                let rank_hi = nearest_rank_exec(den_q - 1, den_q, n);
                proof {
                    lemma_nearest_rank_mono(1, (den_q - 1) as nat, den_q as nat, n as nat);
                    lemma_sorted_elem_bounds(a@, rank_lo as int);
                    lemma_sorted_elem_bounds(a@, rank_hi as int);
                }
                let lower = sorted[rank_lo];
                let upper = sorted[rank_hi];
                let iqr: i64 = upper - lower;
                let w64: u64 = (iqr as u64) / d;
                proof {
                    lemma_mul_le(1, d as int, iqr as int);
                    lemma_div_le(iqr as int, iqr as int, d as int);
                }
                let w: i64 = w64 as i64;
                let ghost spec_w = (upper as int - lower as int) / (fd_denom(kk, n as nat) as int);
                proof {
                    assert(fd_quantile(t, 1, pow2(kk + 1)) == lower);
                    assert(fd_quantile(t, (pow2(kk + 1) - 1) as nat, pow2(kk + 1)) == upper);
                    assert(w as int == spec_w);
                }
                match EquiSpaced::new(w, mn, mx) {
                    Err(e) => {
                        proof {
                            assert(fd_ladder(t, mni, mxi, n as nat, mb, kk) == Some(
                                Result::<EquiSpaced, BinsBuildError>::Err(e),
                            ));
                        }
                        out = Some(Err(e));
                    },
                    Ok(b) => {
                        if b.n_bins() > max_n_bins {
                            proof {
                                assert(fd_ladder(t, mni, mxi, n as nat, mb, kk) == fd_ladder(
                                    t,
                                    mni,
                                    mxi,
                                    n as nat,
                                    mb,
                                    kk + 1,
                                ));
                            }
                        } else {
                            proof {
                                assert(fd_ladder(t, mni, mxi, n as nat, mb, kk) == Some(
                                    Result::<EquiSpaced, BinsBuildError>::Ok(b),
                                ));
                            }
                            out = Some(Ok(b));
                        }
                    },
                }
            } else {
                proof {
                    assert(fd_ladder(t, mni, mxi, n as nat, mb, kk) == fd_ladder(
                        t,
                        mni,
                        mxi,
                        n as nat,
                        mb,
                        kk + 1,
                    ));
                }
            }
            k = k + 1;
        }
        match out {
            Some(Ok(b)) => {
                proof {
                    lemma_fd_ladder_no_empty(t, mni, mxi, n as nat, mb, 1);
                }
                Ok(FreedmanDiaconis { builder: b })
            },
            Some(Err(e)) => {
                proof {
                    lemma_fd_ladder_no_empty(t, mni, mxi, n as nat, mb, 1);
                }
                Err(e)
            },
            None => {
                proof {
                    assert(k == 9);
                    assert(fd_ladder(t, mni, mxi, n as nat, mb, 9) is None);
                    assert(fd_needs_scott(a@, mb));
                }
                if mn >= mx {
                    // a degenerate range fails before any variance matters,
                    // exactly as the Scott outcome does
                    proof {
                        assert(fd_scott_result(a@, mb) == Result::<
                            EquiSpaced,
                            BinsBuildError,
                        >::Err(BinsBuildError::Strategy));
                    }
                    return Err(BinsBuildError::Strategy);
                }
                proof {
                    if n < 2 {
                        assert(seq_min(a@) == seq_max(a@));
                        assert(false);
                    }
                }
                let sum = seq_sum_exec(a);
                proof {
                    lemma_seq_sum_bounds(a@);
                    lemma_mean_in_range(a@);
                }
                let m = mean_exec(sum, n);
                let ssd = sum_sq_dev_exec(a, m);
                let v: u128 = ssd / ((n - 1) as u128);
                proof {
                    lemma_mul_le(1, n as int - 1, ssd as int);
                    lemma_div_le(ssd as int, ssd as int, n as int - 1);
                    vstd::arithmetic::div_mod::lemma_fundamental_div_mod(
                        u128::MAX as int,
                        121801,
                    );
                    lemma_mul_le(v as int, (u128::MAX as int) / 121801, 121801);
                    assert(121801 * (v as int) == (v as int) * 121801) by (nonlinear_arith);
                    assert(((u128::MAX as int) / 121801) * 121801 == 121801 * ((u128::MAX
                        as int) / 121801)) by (nonlinear_arith);
                }
                let x: u128 = 121801 * v;
                let m349: u128 = crate::intmath::isqrt_u128(x) / 100;
                proof {
                    crate::intmath::lemma_floor_cbrt(n as nat);
                    let f = floor_cbrt(n as nat);
                    assert(f == 0 ==> (f + 1) * (f + 1) * (f + 1) == 1) by (nonlinear_arith);
                    if f == 0 {
                        assert(false);
                    }
                }
                let ncb: u128 = crate::intmath::icbrt_u128(n as u128);
                let w128: u128 = m349 / ncb;
                proof {
                    lemma_mul_le(1, ncb as int, m349 as int);
                    lemma_div_le(m349 as int, m349 as int, ncb as int);
                    assert(m349 as nat == scott_m349(a@));
                    assert(w128 as int == scott_width(a@));
                }
                let w: i64 = w128 as i64;
                match EquiSpaced::new(w, mn, mx) {
                    Err(e) => Err(e),
                    Ok(b) => {
                        if b.n_bins() > max_n_bins {
                            Err(BinsBuildError::Strategy)
                        } else {
                            Ok(FreedmanDiaconis { builder: b })
                        }
                    },
                }
            },
        }
    }

    /// Fits the strategy with the default cap of `65535` bins.
    pub fn from_array(a: &Vec<i64>) -> (r: Result<FreedmanDiaconis, BinsBuildError>)
        requires
            a@.len() == 0 || seq_max(a@) - seq_min(a@) <= i64::MAX,
            fd_needs_scott(a@, 65535) && seq_min(a@) < seq_max(a@) ==> scott_fits(a@),
        ensures
            r == Self::fit_spec(a@, 65535),
            a@.len() == 0 <==> r == Result::<FreedmanDiaconis, BinsBuildError>::Err(
                BinsBuildError::EmptyInput,
            ),
    {
        Self::from_array_with_max(a, 65535)
    }

    /// Builds the fitted bins.
    pub fn build(&self) -> (r: Bins)
        requires
            self.wf(),
            self.builder.spec_n_bins() < usize::MAX as nat,
            self.builder.min + self.builder.spec_n_bins() * self.builder.bin_width <= i64::MAX,
        ensures
            r.wf(),
            r@.len() == self.builder.spec_n_bins() + 1,
            forall|i: int|
                0 <= i < r@.len() ==> r@[i] == self.builder.min + i * self.builder.bin_width,
            r@.last() > self.builder.max,
    {
        self.builder.build()
    }

    /// The fitted number of bins.
    pub fn n_bins(&self) -> (r: usize)
        requires
            self.wf(),
        ensures
            r as nat == self.builder.spec_n_bins(),
    {
        self.builder.n_bins()
    }

    /// The fitted bin width.
    pub fn bin_width(&self) -> (r: i64)
        ensures
            r == self.builder.bin_width,
    {
        self.builder.bin_width()
    }
}

/// The winner of the automatic choice.
#[derive(Clone, Copy, Debug, PartialEq, Eq)]
pub enum SturgesOrFD {
    /// Sturges won.
    Sturges(Sturges),
    /// Freedman-Diaconis won.
    FreedmanDiaconis(FreedmanDiaconis),
}

/// Maximum of the Sturges and Freedman-Diaconis strategies: whichever
/// yields the smaller bin width, with ties going to Freedman-Diaconis;
/// when only one fits, that one; when neither fits, the Freedman-Diaconis
/// error.
#[derive(Clone, Copy, Debug, PartialEq, Eq)]
pub struct Auto {
    /// The winning fitted strategy.
    pub builder: SturgesOrFD,
}

impl Auto {
    /// The outcome of fitting this strategy to a sample.
    pub open spec fn fit_spec(s: Seq<i64>, maxb: nat) -> Result<Auto, BinsBuildError> {
        let fd = fd_fit(s, maxb);
        let st = fit_with_count(s, sturges_count(s.len()), maxb);
        match (fd, st) {
            (Err(_), Ok(stb)) => Ok(
                Auto { builder: SturgesOrFD::Sturges(Sturges { builder: stb }) },
            ),
            (Ok(fdb), Err(_)) => Ok(
                Auto {
                    builder: SturgesOrFD::FreedmanDiaconis(FreedmanDiaconis { builder: fdb }),
                },
            ),
            (Ok(fdb), Ok(stb)) => {
                if fdb.bin_width > stb.bin_width {
                    Ok(Auto { builder: SturgesOrFD::Sturges(Sturges { builder: stb }) })
                } else {
                    Ok(
                        Auto {
                            builder: SturgesOrFD::FreedmanDiaconis(
                                FreedmanDiaconis { builder: fdb },
                            ),
                        },
                    )
                }
            },
            (Err(e), Err(_)) => Err(e),
        }
    }

    /// The inner fitted partition.
    pub open spec fn spec_builder(&self) -> EquiSpaced {
        match self.builder {
            SturgesOrFD::Sturges(b) => b.builder,
            SturgesOrFD::FreedmanDiaconis(b) => b.builder,
        }
    }

    /// The fitted partition is well-formed.
    pub open spec fn wf(&self) -> bool {
        self.spec_builder().wf()
    }

    /// Fits the strategy, capping the bin count at `max_n_bins`.
    ///
    /// Attempts Freedman-Diaconis and Sturges independently. When both
    /// succeed, the one with the strictly smaller bin width wins and a tie
    /// goes to Freedman-Diaconis; when both fail, the Freedman-Diaconis
    /// error is returned.
    pub fn from_array_with_max(a: &Vec<i64>, max_n_bins: usize) -> (r: Result<
        Auto,
        BinsBuildError,
    >)
        requires
            a@.len() == 0 || seq_max(a@) - seq_min(a@) <= i64::MAX,
            fd_needs_scott(a@, max_n_bins as nat) && seq_min(a@) < seq_max(a@) ==> scott_fits(a@),
        ensures
            r == Self::fit_spec(a@, max_n_bins as nat),
            r matches Ok(f) ==> f.wf(),
            a@.len() == 0 <==> r == Result::<Auto, BinsBuildError>::Err(BinsBuildError::EmptyInput),
    {
        let fd_builder = FreedmanDiaconis::from_array_with_max(a, max_n_bins);
        let sturges_builder = Sturges::from_array_with_max(a, max_n_bins);
        match (fd_builder, sturges_builder) {
            (Err(_), Ok(sturges_builder)) => Ok(
                Auto { builder: SturgesOrFD::Sturges(sturges_builder) },
            ),
            (Ok(fd_builder), Err(_)) => Ok(
                Auto { builder: SturgesOrFD::FreedmanDiaconis(fd_builder) },
            ),
            (Ok(fd_builder), Ok(sturges_builder)) => {
                let builder = if fd_builder.bin_width() > sturges_builder.bin_width() {
                    SturgesOrFD::Sturges(sturges_builder)
                } else {
                    SturgesOrFD::FreedmanDiaconis(fd_builder)
                };
                Ok(Auto { builder })
            },
            (Err(err), Err(_)) => Err(err),
        }
    }

    /// Fits the strategy with the default cap of `65535` bins.
    pub fn from_array(a: &Vec<i64>) -> (r: Result<Auto, BinsBuildError>)
        requires
            a@.len() == 0 || seq_max(a@) - seq_min(a@) <= i64::MAX,
            fd_needs_scott(a@, 65535) && seq_min(a@) < seq_max(a@) ==> scott_fits(a@),
        ensures
            r == Self::fit_spec(a@, 65535),
            a@.len() == 0 <==> r == Result::<Auto, BinsBuildError>::Err(BinsBuildError::EmptyInput),
    {
        Self::from_array_with_max(a, 65535)
    }

    /// Builds the fitted bins.
    pub fn build(&self) -> (r: Bins)
        requires
            self.wf(),
            self.spec_builder().spec_n_bins() < usize::MAX as nat,
            self.spec_builder().min + self.spec_builder().spec_n_bins()
                * self.spec_builder().bin_width <= i64::MAX,
        ensures
            r.wf(),
            r@.len() == self.spec_builder().spec_n_bins() + 1,
            forall|i: int|
                0 <= i < r@.len() ==> r@[i] == self.spec_builder().min + i
                    * self.spec_builder().bin_width,
            r@[0] == self.spec_builder().min,
            r@.last() > self.spec_builder().max,
    {
        match &self.builder {
            SturgesOrFD::FreedmanDiaconis(b) => b.build(),
            SturgesOrFD::Sturges(b) => b.build(),
        }
    }

    /// The fitted number of bins.
    pub fn n_bins(&self) -> (r: usize)
        requires
            self.wf(),
        ensures
            r as nat == self.spec_builder().spec_n_bins(),
    {
        match &self.builder {
            SturgesOrFD::FreedmanDiaconis(b) => b.n_bins(),
            SturgesOrFD::Sturges(b) => b.n_bins(),
        }
    }

    /// The fitted bin width.
    pub fn bin_width(&self) -> (r: i64)
        ensures
            r == self.spec_builder().bin_width,
    {
        match &self.builder {
            SturgesOrFD::FreedmanDiaconis(b) => b.bin_width(),
            SturgesOrFD::Sturges(b) => b.bin_width(),
        }
    }
}

/// Constant data law, size-only strategies: on a non-empty sample whose
/// minimum equals its maximum, any candidate bin count yields a zero width,
/// so the fit fails with `Strategy` (and, being verified, cannot panic).
pub proof fn lemma_constant_data_strategy(s: Seq<i64>, c: nat, maxb: nat)
    requires
        s.len() >= 1,
        c >= 1,
        seq_min(s) == seq_max(s),
    ensures
        fit_with_count(s, c, maxb) == Result::<EquiSpaced, BinsBuildError>::Err(
            BinsBuildError::Strategy,
        ),
{
    vstd::arithmetic::div_mod::lemma_div_multiples_vanish(0, c as int);
    assert((seq_max(s) - seq_min(s)) / (c as int) == 0);
}

/// On a one-element sample every ladder denominator truncates to zero:
/// `trunc((1 - 2 * at) * cbrt(1)) == 0` for every trim fraction.
proof fn lemma_fd_ladder_singleton(t: Seq<i64>, mn: int, mx: int, maxb: nat, k: nat)
    requires
        1 <= k <= 9,
    ensures
        fd_ladder(t, mn, mx, 1, maxb, k) is None,
    decreases 9 - k,
{
    if k <= 8 {
        let p = (pow2(k) - 1) as nat;
        let q = pow2(k);
        vstd::arithmetic::power2::lemma_pow2_pos(k);
        crate::intmath::lemma_cube_strict(p as int, p as int + 1);
        crate::intmath::lemma_cbrt_unique((p * p * p) as nat, p);
        assert(p * p * p * 1 == p * p * p) by (nonlinear_arith);
        vstd::arithmetic::div_mod::lemma_basic_div(p as int, q as int);
        assert(fd_denom(k, 1) == 0);
        lemma_fd_ladder_singleton(t, mn, mx, maxb, k + 1);
    }
}

proof fn lemma_constant_fd_ladder(t: Seq<i64>, mn: int, mx: int, n: nat, maxb: nat, k: nat)
    requires
        mn == mx,
        n >= 2,
        1 <= k <= 8,
    ensures
        fd_ladder(t, mn, mx, n, maxb, k) == Some(
            Result::<EquiSpaced, BinsBuildError>::Err(BinsBuildError::Strategy),
        ),
    decreases 9 - k,
{
    let d = fd_denom(k, n);
    if d == 0 {
        if k == 8 {
            vstd::arithmetic::power2::lemma2_to64();
            assert(pow2(8) == 256);
            let x = (255 * 255 * 255 * n) as nat;
            crate::intmath::lemma_mul_le(2, n as int, 16581375);
            assert(16581375 * 2 <= x) by (nonlinear_arith)
                requires
                    n >= 2,
                    x == 255 * 255 * 255 * n,
            ;
            crate::intmath::lemma_floor_cbrt(x);
            let f = floor_cbrt(x);
            if f < 256 {
                crate::intmath::lemma_cube_mono(f as int + 1, 256);
                assert((f + 1) * (f + 1) * (f + 1) <= 256 * 256 * 256);
                assert(false);
            }
            lemma_div_ge(f as int, 1, 256);
            assert(false);
        } else {
            lemma_constant_fd_ladder(t, mn, mx, n, maxb, k + 1);
        }
    }
}

/// Constant data law, Freedman-Diaconis: on any non-empty sample whose
/// minimum equals its maximum (a one-element sample included) the whole fit
/// fails with `Strategy`.
pub proof fn lemma_constant_data_fd(s: Seq<i64>, maxb: nat)
    requires
        s.len() >= 1,
        seq_min(s) == seq_max(s),
    ensures
        fd_fit(s, maxb) == Result::<EquiSpaced, BinsBuildError>::Err(BinsBuildError::Strategy),
{
    if s.len() == 1 {
        lemma_fd_ladder_singleton(
            crate::sorting::sort_seq(s),
            seq_min(s),
            seq_max(s),
            maxb,
            1,
        );
        assert(fd_scott_result(s, maxb) == Result::<EquiSpaced, BinsBuildError>::Err(
            BinsBuildError::Strategy,
        ));
    } else {
        lemma_constant_fd_ladder(
            crate::sorting::sort_seq(s),
            seq_min(s),
            seq_max(s),
            s.len(),
            maxb,
            1,
        );
    }
}

/// Success law for the size-only strategies: a non-constant sample whose
/// truncated width is positive and whose bin count fits the cap is always
/// fitted, and the fitted width is exactly `(max - min) / c`. The candidate
/// count `c` is a function of the sample size alone, never of the values.
pub proof fn lemma_fit_with_count_ok(s: Seq<i64>, c: nat, maxb: nat)
    requires
        s.len() >= 1,
        c >= 1,
        seq_min(s) < seq_max(s),
        seq_max(s) - seq_min(s) <= i64::MAX,
        (seq_max(s) - seq_min(s)) / (c as int) >= 1,
        (EquiSpaced {
            bin_width: ((seq_max(s) - seq_min(s)) / (c as int)) as i64,
            min: seq_min(s) as i64,
            max: seq_max(s) as i64,
        }).spec_n_bins() <= maxb,
    ensures
        fit_with_count(s, c, maxb) == Ok::<EquiSpaced, BinsBuildError>(
            EquiSpaced {
                bin_width: ((seq_max(s) - seq_min(s)) / (c as int)) as i64,
                min: seq_min(s) as i64,
                max: seq_max(s) as i64,
            },
        ),
{
    lemma_minmax_bounds(s);
}

/// Auto's choice is deterministic: when both Freedman-Diaconis and Sturges
/// fit, the strictly smaller bin width wins, a tie goes to
/// Freedman-Diaconis, and the chosen width is the minimum of the two.
pub proof fn lemma_auto_choice(s: Seq<i64>, maxb: nat)
    requires
        fd_fit(s, maxb) is Ok,
        fit_with_count(s, sturges_count(s.len()), maxb) is Ok,
    ensures
        Auto::fit_spec(s, maxb) is Ok,
        ({
            let fdb = fd_fit(s, maxb)->Ok_0;
            let stb = fit_with_count(s, sturges_count(s.len()), maxb)->Ok_0;
            let chosen = Auto::fit_spec(s, maxb)->Ok_0;
            &&& (fdb.bin_width > stb.bin_width ==> chosen.builder == SturgesOrFD::Sturges(
                Sturges { builder: stb },
            ))
            &&& (fdb.bin_width <= stb.bin_width ==> chosen.builder
                == SturgesOrFD::FreedmanDiaconis(FreedmanDiaconis { builder: fdb }))
            &&& chosen.spec_builder().bin_width == (if fdb.bin_width <= stb.bin_width {
                fdb.bin_width
            } else {
                stb.bin_width
            })
        }),
{
}

/// The sample sum of values within `[-b, b]` is within `len * b`.
proof fn lemma_sum_abs_bound(s: Seq<i64>, b: int)
    requires
        0 <= b,
        forall|k: int| 0 <= k < s.len() ==> -b <= #[trigger] s[k] <= b,
    ensures
        -(s.len() * b) <= seq_sum(s) <= s.len() * b,
    decreases s.len(),
{
    if s.len() > 0 {
        assert forall|k: int| 0 <= k < s.drop_last().len() implies -b <= #[trigger] s.drop_last()[
            k
        ] <= b by {
            assert(s.drop_last()[k] == s[k]);
        }
        lemma_sum_abs_bound(s.drop_last(), b);
        let n = s.len() as int;
        assert((n - 1) * b + b == n * b) by (nonlinear_arith);
    }
}

/// Squared deviations within `[-c, c]` sum to at most `len * c^2`.
proof fn lemma_sum_sq_dev_abs_bound(s: Seq<i64>, m: int, c: int)
    requires
        0 <= c,
        forall|k: int| 0 <= k < s.len() ==> -c <= #[trigger] s[k] - m <= c,
    ensures
        sum_sq_dev(s, m) <= s.len() * (c * c),
    decreases s.len(),
{
    if s.len() > 0 {
        assert forall|k: int| 0 <= k < s.drop_last().len() implies -c <= #[trigger] s.drop_last()[
            k
        ] - m <= c by {
            assert(s.drop_last()[k] == s[k]);
        }
        lemma_sum_sq_dev_abs_bound(s.drop_last(), m, c);
        let d = s.last() - m;
        assert(d * d <= c * c) by (nonlinear_arith)
            requires
                -c <= d,
                d <= c,
                0 <= c;
        let n = s.len() as int;
        assert((n - 1) * (c * c) + c * c == n * (c * c)) by (nonlinear_arith);
    }
}

/// A checkable route to the Scott machine limit: a sample of at most `2^32`
/// values, each within `[-2^31, 2^31]`, satisfies `scott_fits`, so a caller
/// can discharge the Freedman-Diaconis precondition by bounding its data.
pub proof fn lemma_scott_fits_bounded(s: Seq<i64>)
    requires
        2 <= s.len() <= 0x1_0000_0000,
        forall|k: int| 0 <= k < s.len() ==> -0x8000_0000 <= #[trigger] s[k] <= 0x8000_0000,
    ensures
        scott_fits(s),
{
    let b = 0x8000_0000int;
    let n = s.len() as int;
    let sum = seq_sum(s);
    let m = trunc_div(sum, n);
    lemma_sum_abs_bound(s, b);
    // the truncated mean is within the same bound
    if sum >= 0 {
        lemma_div_le(sum, b, n);
    } else {
        lemma_div_le(-sum, b, n);
    }
    assert(-b <= m <= b);
    let c = 0x1_0000_0000int;
    lemma_sum_sq_dev_abs_bound(s, m, c);
    let ssd = sum_sq_dev(s, m);
    lemma_mul_le(n, 0x1_0000_0000int, c * c);
    assert(ssd <= 0x1_0000_0000_0000_0000_0000_0000int);
    // room for the squared scaling constant under u128
    lemma_div_ge(u128::MAX as int, 0x1_0000_0000_0000_0000_0000_0000int, 121801);
    // the scaled standard deviation is far below the representable widths
    lemma_sum_sq_dev_nonneg(s, m);
    let v = ssd / (n - 1);
    lemma_mul_le(1, n - 1, ssd);
    lemma_div_le(ssd, ssd, n - 1);
    assert(0 <= v <= ssd) by {
        vstd::arithmetic::div_mod::lemma_div_is_ordered(0, ssd, n - 1);
        vstd::arithmetic::div_mod::lemma_basic_div(0, n - 1);
    }
    lemma_mul_le(v, 0x1_0000_0000_0000_0000_0000_0000int, 121801);
    assert(121801 * v == v * 121801) by (nonlinear_arith);
    let x = (121801 * v) as nat;
    assert(x <= 0x2_0000_0000_0000_0000_0000_0000_0000int);
    crate::intmath::lemma_floor_sqrt(x);
    let f = floor_sqrt(x);
    if f >= 0x2_0000_0000_0000_0000int {
        crate::intmath::lemma_sq_mono(0x2_0000_0000_0000_0000int, f as int);
        assert(false);
    }
    lemma_div_le(f as int, f as int, 100);
    lemma_mul_le(1, 100, f as int);
}

} // verus!

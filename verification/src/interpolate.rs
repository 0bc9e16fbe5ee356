//! Interpolation strategies for estimating quantiles between two order
//! statistics.
use vstd::prelude::*;
use crate::errors::QuantileError;
use crate::intmath::{lemma_div_le, lemma_mul_le};

verus! {

/// An exact fractional quantile `num / den`; well-formed when it lies in
/// `[0, 1]`.
#[derive(Clone, Copy, Debug, PartialEq, Eq)]
pub struct Quantile {
    /// The numerator.
    pub num: u64,
    /// The denominator.
    pub den: u64,
}

impl Quantile {
    /// The fraction is defined and lies in `[0, 1]`.
    pub open spec fn wf(&self) -> bool {
        1 <= self.den && self.num <= self.den
    }

    /// Wraps a fraction, rejecting one outside `[0, 1]`.
    pub fn new(num: u64, den: u64) -> (r: Result<Quantile, QuantileError>)
        ensures
            r is Ok <==> (1 <= den && num <= den),
            r matches Ok(q) ==> q == (Quantile { num, den }) && q.wf(),
            r matches Err(e) ==> e == QuantileError::InvalidQuantile(Quantile { num, den }),
    {
        if 1 <= den && num <= den {
            Ok(Quantile { num, den })
        } else {
            Err(QuantileError::InvalidQuantile(Quantile { num, den }))
        }
    }
}

/// The numerator of the continuous index `q * (len - 1)` over the
/// denominator `q.den`.
pub open spec fn index_num(q: Quantile, len: nat) -> nat {
    (q.num * ((len - 1) as nat)) as nat
}

/// The index of the value on the lower side of the quantile: the floor of
/// the continuous index.
pub open spec fn lower_index_of(q: Quantile, len: nat) -> nat {
    index_num(q, len) / (q.den as nat)
}

/// The index of the value on the higher side of the quantile: the ceiling
/// of the continuous index.
pub open spec fn higher_index_of(q: Quantile, len: nat) -> nat {
    if index_num(q, len) % (q.den as nat) == 0 {
        lower_index_of(q, len)
    } else {
        lower_index_of(q, len) + 1
    }
}

/// Whether the fractional part of the continuous index is below one half,
/// in which case the lower side is the nearer one.
pub open spec fn fraction_lt_half(q: Quantile, len: nat) -> bool {
    2 * (index_num(q, len) % (q.den as nat)) < q.den as nat
}

/// The nearer of the two indices is exactly the rank that the
/// Freedman-Diaconis estimator reads its quantiles at.
pub proof fn lemma_nearest_is_fd_rank(q: Quantile, len: nat)
    requires
        q.wf(),
        len >= 1,
    ensures
        (if fraction_lt_half(q, len) {
            lower_index_of(q, len)
        } else {
            higher_index_of(q, len)
        }) == crate::strategies::nearest_rank(q.num as nat, q.den as nat, len),
{
    if !fraction_lt_half(q, len) {
        assert(index_num(q, len) % (q.den as nat) != 0);
    }
}

/// The fractional part of the continuous index, scaled by `diff` and
/// truncated toward zero: `trunc(fraction * diff)`.
pub open spec fn fraction_times(q: Quantile, len: nat, diff: int) -> int {
    let rem = index_num(q, len) % (q.den as nat);
    if diff >= 0 {
        (rem * diff) / (q.den as int)
    } else {
        -((rem * (-diff)) / (q.den as int))
    }
}

/// Computes the remainder of the continuous index: `(q.num * (len - 1)) mod q.den`.
fn index_rem_exec(q: &Quantile, len: usize) -> (r: u64)
    requires
        q.wf(),
        len >= 1,
    ensures
        r as nat == index_num(*q, len as nat) % (q.den as nat),
{
    proof {
        assert((q.num as int) * ((len - 1) as int)
            < 0x1_0000_0000_0000_0000_0000_0000_0000_0000int) by (nonlinear_arith)
            requires
                0 <= (q.num as int),
                (q.num as int) < 0x1_0000_0000_0000_0000int,
                0 <= ((len - 1) as int),
                ((len - 1) as int) < 0x1_0000_0000_0000_0000int,
        ;
    }
    let t: u128 = (q.num as u128) * ((len - 1) as u128);
    (t % (q.den as u128)) as u64
}

/// The capability shared by the interpolation strategies. The set of
/// strategies is closed: each tells the caller which of the two order
/// statistics it needs, and interpolates between them.
pub trait Interpolate: Sized {
    /// Whether the lower order statistic is needed.
    spec fn spec_needs_lower(q: Quantile, len: nat) -> bool;

    /// Whether the higher order statistic is needed.
    spec fn spec_needs_higher(q: Quantile, len: nat) -> bool;

    /// The interpolated value.
    spec fn spec_interpolate(lower: Option<i64>, higher: Option<i64>, q: Quantile, len: nat) -> int;

    /// Returns `true` iff the lower value is needed to compute the
    /// interpolated value.
    fn needs_lower(q: &Quantile, len: usize) -> (r: bool)
        requires
            q.wf(),
            len >= 1,
        ensures
            r == Self::spec_needs_lower(*q, len as nat),
    ;

    /// Returns `true` iff the higher value is needed to compute the
    /// interpolated value.
    fn needs_higher(q: &Quantile, len: usize) -> (r: bool)
        requires
            q.wf(),
            len >= 1,
        ensures
            r == Self::spec_needs_higher(*q, len as nat),
    ;

    /// Computes the interpolated value. A value that the strategy's own
    /// `needs_*` answer demands must be present.
    fn interpolate(lower: Option<i64>, higher: Option<i64>, q: &Quantile, len: usize) -> (r: i64)
        requires
            q.wf(),
            len >= 1,
            Self::spec_needs_lower(*q, len as nat) ==> lower is Some,
            Self::spec_needs_higher(*q, len as nat) ==> higher is Some,
        ensures
            r as int == Self::spec_interpolate(lower, higher, *q, len as nat),
    ;
}

/// Select the higher value.
pub struct Higher;

/// Select the lower value.
pub struct Lower;

/// Select the nearest value.
pub struct Nearest;

/// Select the midpoint of the two values (`lower + (higher - lower) / 2`).
pub struct Midpoint;

/// Linearly interpolate between the two values
/// (`lower + fraction * (higher - lower)`, where `fraction` is the
/// fractional part of the index surrounded by `lower` and `higher`).
pub struct Linear;

impl Interpolate for Higher {
    open spec fn spec_needs_lower(q: Quantile, len: nat) -> bool {
        false
    }

    open spec fn spec_needs_higher(q: Quantile, len: nat) -> bool {
        true
    }

    open spec fn spec_interpolate(
        lower: Option<i64>,
        higher: Option<i64>,
        q: Quantile,
        len: nat,
    ) -> int {
        higher.unwrap() as int
    }

    fn needs_lower(q: &Quantile, len: usize) -> (r: bool) {
        false
    }

    fn needs_higher(q: &Quantile, len: usize) -> (r: bool) {
        true
    }

    fn interpolate(lower: Option<i64>, higher: Option<i64>, q: &Quantile, len: usize) -> (r: i64) {
        higher.unwrap()
    }
}

impl Interpolate for Lower {
    open spec fn spec_needs_lower(q: Quantile, len: nat) -> bool {
        true
    }

    open spec fn spec_needs_higher(q: Quantile, len: nat) -> bool {
        false
    }

    open spec fn spec_interpolate(
        lower: Option<i64>,
        higher: Option<i64>,
        q: Quantile,
        len: nat,
    ) -> int {
        lower.unwrap() as int
    }

    fn needs_lower(q: &Quantile, len: usize) -> (r: bool) {
        true
    }

    fn needs_higher(q: &Quantile, len: usize) -> (r: bool) {
        false
    }

    fn interpolate(lower: Option<i64>, higher: Option<i64>, q: &Quantile, len: usize) -> (r: i64) {
        lower.unwrap()
    }
}

impl Interpolate for Nearest {
    open spec fn spec_needs_lower(q: Quantile, len: nat) -> bool {
        fraction_lt_half(q, len)
    }

    open spec fn spec_needs_higher(q: Quantile, len: nat) -> bool {
        !fraction_lt_half(q, len)
    }

    open spec fn spec_interpolate(
        lower: Option<i64>,
        higher: Option<i64>,
        q: Quantile,
        len: nat,
    ) -> int {
        if fraction_lt_half(q, len) {
            lower.unwrap() as int
        } else {
            higher.unwrap() as int
        }
    }

    fn needs_lower(q: &Quantile, len: usize) -> (r: bool) {
        let rem = index_rem_exec(q, len);
        2 * (rem as u128) < (q.den as u128)
    }

    fn needs_higher(q: &Quantile, len: usize) -> (r: bool) {
        let rem = index_rem_exec(q, len);
        !(2 * (rem as u128) < (q.den as u128))
    }

    fn interpolate(lower: Option<i64>, higher: Option<i64>, q: &Quantile, len: usize) -> (r: i64) {
        let rem = index_rem_exec(q, len);
        if 2 * (rem as u128) < (q.den as u128) {
            lower.unwrap()
        } else {
            higher.unwrap()
        }
    }
}

impl Interpolate for Midpoint {
    open spec fn spec_needs_lower(q: Quantile, len: nat) -> bool {
        true
    }

    open spec fn spec_needs_higher(q: Quantile, len: nat) -> bool {
        true
    }

    open spec fn spec_interpolate(
        lower: Option<i64>,
        higher: Option<i64>,
        q: Quantile,
        len: nat,
    ) -> int {
        lower.unwrap() + crate::intmath::trunc_div(higher.unwrap() - lower.unwrap(), 2)
    }

    fn needs_lower(q: &Quantile, len: usize) -> (r: bool) {
        true
    }

    fn needs_higher(q: &Quantile, len: usize) -> (r: bool) {
        true
    }

    fn interpolate(lower: Option<i64>, higher: Option<i64>, q: &Quantile, len: usize) -> (r: i64) {
        let l = lower.unwrap();
        let h = higher.unwrap();
        if h >= l {
            let half: u128 = (((h as i128) - (l as i128)) as u128) / 2;
            (((l as i128) + (half as i128))) as i64
        } else {
            let half: u128 = (((l as i128) - (h as i128)) as u128) / 2;
            (((l as i128) - (half as i128))) as i64
        }
    }
}

impl Interpolate for Linear {
    open spec fn spec_needs_lower(q: Quantile, len: nat) -> bool {
        true
    }

    open spec fn spec_needs_higher(q: Quantile, len: nat) -> bool {
        true
    }

    open spec fn spec_interpolate(
        lower: Option<i64>,
        higher: Option<i64>,
        q: Quantile,
        len: nat,
    ) -> int {
        lower.unwrap() + fraction_times(q, len, higher.unwrap() - lower.unwrap())
    }

    fn needs_lower(q: &Quantile, len: usize) -> (r: bool) {
        true
    }

    fn needs_higher(q: &Quantile, len: usize) -> (r: bool) {
        true
    }

    fn interpolate(lower: Option<i64>, higher: Option<i64>, q: &Quantile, len: usize) -> (r: i64) {
        let l = lower.unwrap();
        let h = higher.unwrap();
        let rem = index_rem_exec(q, len);
        let den: u128 = q.den as u128;
        let mag: u128 = if h >= l {
            ((h as i128) - (l as i128)) as u128
        } else {
            ((l as i128) - (h as i128)) as u128
        };
        proof {
            assert((rem as int) * (mag as int)
                < 0x1_0000_0000_0000_0000_0000_0000_0000_0000int) by (nonlinear_arith)
                requires
                    0 <= (rem as int),
                    (rem as int) < 0x1_0000_0000_0000_0000int,
                    0 <= (mag as int),
                    (mag as int) <= 0x1_0000_0000_0000_0000int,
            ;
            lemma_mul_le(rem as int, den as int, mag as int);
            assert((den as int) * (mag as int) == (mag as int) * (den as int))
                by (nonlinear_arith);
            lemma_div_le((rem as int) * (mag as int), mag as int, den as int);
        }
        let add: u128 = ((rem as u128) * mag) / den;
        if h >= l {
            (((l as i128) + (add as i128))) as i64
        } else {
            (((l as i128) - (add as i128))) as i64
        }
    }
}

} // verus!

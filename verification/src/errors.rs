//! Errors returned by the statistics routines of this crate.
use vstd::prelude::*;

verus! {

/// An error that indicates that the input array was empty.
#[derive(Clone, Copy, Debug, PartialEq, Eq)]
pub struct EmptyInput;

/// An error computing a minimum/maximum value.
#[derive(Clone, Copy, Debug, PartialEq, Eq)]
pub enum MinMaxError {
    /// The input was empty.
    EmptyInput,
    /// The ordering between a tested pair of values was undefined.
    UndefinedOrder,
}

impl From<EmptyInput> for MinMaxError {
    fn from(e: EmptyInput) -> (r: MinMaxError) {
        MinMaxError::EmptyInput
    }
}

impl vstd::std_specs::convert::FromSpecImpl<EmptyInput> for MinMaxError {
    open spec fn obeys_from_spec() -> bool {
        true
    }

    open spec fn from_spec(e: EmptyInput) -> MinMaxError {
        MinMaxError::EmptyInput
    }
}

/// An error used by methods and functions that take two arrays as argument and
/// expect them to have exactly the same shape.
#[derive(Clone, Debug, PartialEq, Eq)]
pub struct ShapeMismatch {
    /// Shape of first argument.
    pub first_shape: Vec<usize>,
    /// Shape of second argument.
    pub second_shape: Vec<usize>,
}

/// An error for methods that take multiple non-empty array inputs.
#[derive(Clone, Debug, PartialEq, Eq)]
pub enum MultiInputError {
    /// One or more of the arrays were empty.
    EmptyInput,
    /// The arrays did not have the same shape.
    ShapeMismatch(ShapeMismatch),
}

impl MultiInputError {
    /// Returns whether `self` is the `EmptyInput` variant.
    pub fn is_empty_input(&self) -> (r: bool)
        ensures
            r <==> self is EmptyInput,
    {
        matches!(self, MultiInputError::EmptyInput)
    }

    /// Returns whether `self` is the `ShapeMismatch` variant.
    pub fn is_shape_mismatch(&self) -> (r: bool)
        ensures
            r <==> self is ShapeMismatch,
    {
        matches!(self, MultiInputError::ShapeMismatch(_))
    }
}

impl From<EmptyInput> for MultiInputError {
    fn from(e: EmptyInput) -> (r: MultiInputError) {
        MultiInputError::EmptyInput
    }
}

impl vstd::std_specs::convert::FromSpecImpl<EmptyInput> for MultiInputError {
    open spec fn obeys_from_spec() -> bool {
        true
    }

    open spec fn from_spec(e: EmptyInput) -> MultiInputError {
        MultiInputError::EmptyInput
    }
}

impl From<ShapeMismatch> for MultiInputError {
    fn from(e: ShapeMismatch) -> (r: MultiInputError)
        ensures
            r == MultiInputError::ShapeMismatch(e),
    {
        MultiInputError::ShapeMismatch(e)
    }
}

impl vstd::std_specs::convert::FromSpecImpl<ShapeMismatch> for MultiInputError {
    open spec fn obeys_from_spec() -> bool {
        true
    }

    open spec fn from_spec(e: ShapeMismatch) -> MultiInputError {
        MultiInputError::ShapeMismatch(e)
    }
}

/// An error that indicates that no bin width or bin count could be inferred
/// from the data by a bin-building strategy.
#[derive(Clone, Copy, Debug, PartialEq, Eq)]
pub enum BinsBuildError {
    /// The input array was empty.
    EmptyInput,
    /// No strategy-compatible bin parameter could be determined, for example
    /// because the data is constant or the inferred bin count is too large.
    Strategy,
}

impl BinsBuildError {
    /// Returns whether `self` is the `EmptyInput` variant.
    pub fn is_empty_input(&self) -> (r: bool)
        ensures
            r <==> self is EmptyInput,
    {
        matches!(self, BinsBuildError::EmptyInput)
    }

    /// Returns whether `self` is the `Strategy` variant.
    pub fn is_strategy(&self) -> (r: bool)
        ensures
            r <==> self is Strategy,
    {
        matches!(self, BinsBuildError::Strategy)
    }
}

impl From<EmptyInput> for BinsBuildError {
    fn from(e: EmptyInput) -> (r: BinsBuildError) {
        BinsBuildError::EmptyInput
    }
}

impl vstd::std_specs::convert::FromSpecImpl<EmptyInput> for BinsBuildError {
    open spec fn obeys_from_spec() -> bool {
        true
    }

    open spec fn from_spec(e: EmptyInput) -> BinsBuildError {
        BinsBuildError::EmptyInput
    }
}

/// An error that indicates that an observation's coordinates fall outside the
/// range covered by a grid on at least one axis.
#[derive(Clone, Copy, Debug, PartialEq, Eq)]
pub struct BinNotFound;

/// An error computing a quantile.
#[derive(Clone, Copy, Debug, PartialEq, Eq)]
pub enum QuantileError {
    /// The input was empty.
    EmptyInput,
    /// The quantile was not between `0` and `1` (inclusive).
    InvalidQuantile(crate::interpolate::Quantile),
}

impl From<EmptyInput> for QuantileError {
    fn from(e: EmptyInput) -> (r: QuantileError) {
        QuantileError::EmptyInput
    }
}

impl vstd::std_specs::convert::FromSpecImpl<EmptyInput> for QuantileError {
    open spec fn obeys_from_spec() -> bool {
        true
    }

    open spec fn from_spec(e: EmptyInput) -> QuantileError {
        QuantileError::EmptyInput
    }
}

} // verus!

use ndarray_histogram::errors::{
    BinsBuildError, EmptyInput, MinMaxError, MultiInputError, ShapeMismatch,
};

#[test]
fn multi_input_error_variant_tests() {
    let e = MultiInputError::EmptyInput;
    assert!(e.is_empty_input());
    assert!(!e.is_shape_mismatch());
    let s = MultiInputError::ShapeMismatch(ShapeMismatch {
        first_shape: vec![2, 3],
        second_shape: vec![3, 2],
    });
    assert!(s.is_shape_mismatch());
    assert!(!s.is_empty_input());
}

#[test]
fn errors_convert_from_empty_input() {
    assert_eq!(MinMaxError::from(EmptyInput), MinMaxError::EmptyInput);
    assert_eq!(
        MultiInputError::from(EmptyInput),
        MultiInputError::EmptyInput
    );
    assert_eq!(BinsBuildError::from(EmptyInput), BinsBuildError::EmptyInput);
}

#[test]
fn bins_build_error_variant_tests() {
    assert!(BinsBuildError::EmptyInput.is_empty_input());
    assert!(!BinsBuildError::EmptyInput.is_strategy());
    assert!(BinsBuildError::Strategy.is_strategy());
    assert!(!BinsBuildError::Strategy.is_empty_input());
}

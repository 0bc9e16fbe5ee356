use ndarray_histogram::errors::BinsBuildError;
use ndarray_histogram::strategies::{Auto, EquiSpaced, FreedmanDiaconis, Rice, Sqrt, Sturges, SturgesOrFD};

#[test]
fn bin_width_has_to_be_positive() {
    assert!(EquiSpaced::new(0, 0, 200).is_err());
}

#[test]
fn min_has_to_be_strictly_smaller_than_max() {
    assert!(EquiSpaced::new(10, 0, 0).is_err());
}

#[test]
fn sqrt_constant_array_are_bad() {
    assert!(Sqrt::from_array(&vec![1, 1, 1, 1, 1, 1, 1])
        .unwrap_err()
        .is_strategy());
}

#[test]
fn sqrt_empty_arrays_are_bad() {
    let empty: Vec<i64> = vec![];
    assert!(Sqrt::from_array(&empty).unwrap_err().is_empty_input());
}

#[test]
fn rice_constant_array_are_bad() {
    assert!(Rice::from_array(&vec![1, 1, 1, 1, 1, 1, 1])
        .unwrap_err()
        .is_strategy());
}

#[test]
fn rice_empty_arrays_are_bad() {
    let empty: Vec<i64> = vec![];
    assert!(Rice::from_array(&empty).unwrap_err().is_empty_input());
}

#[test]
fn sturges_constant_array_are_bad() {
    assert!(Sturges::from_array(&vec![1, 1, 1, 1, 1, 1, 1])
        .unwrap_err()
        .is_strategy());
}

#[test]
fn sturges_empty_arrays_are_bad() {
    let empty: Vec<i64> = vec![];
    assert!(Sturges::from_array(&empty).unwrap_err().is_empty_input());
}

#[test]
fn fd_constant_array_are_bad() {
    assert!(FreedmanDiaconis::from_array(&vec![1, 1, 1, 1, 1, 1, 1])
        .unwrap_err()
        .is_strategy());
}

#[test]
fn zero_iqr_is_bad() {
    assert!(
        FreedmanDiaconis::from_array(&vec![-20, 1, 1, 1, 1, 1, 1, 1, 1, 1, 1, 1, 1, 20])
            .unwrap_err()
            .is_strategy()
    );
}

#[test]
fn fd_single_element_is_constant_data() {
    // A one-element sample is constant: Strategy, no panic. Every trim
    // fraction's denominator truncates to zero and the Scott fallback sees
    // a degenerate range.
    assert!(FreedmanDiaconis::from_array(&vec![5])
        .unwrap_err()
        .is_strategy());
}

#[test]
fn fd_empty_arrays_are_bad() {
    let empty: Vec<i64> = vec![];
    assert!(FreedmanDiaconis::from_array(&empty)
        .unwrap_err()
        .is_empty_input());
}

#[test]
fn auto_constant_array_are_bad() {
    assert!(Auto::from_array(&vec![1, 1, 1, 1, 1, 1, 1])
        .unwrap_err()
        .is_strategy());
}

#[test]
fn zero_iqr_is_handled_by_sturged() {
    assert!(Auto::from_array(&vec![-20, 1, 1, 1, 1, 1, 1, 1, 1, 1, 1, 1, 1, 20]).is_ok());
}

#[test]
fn auto_single_element_is_constant_data() {
    assert!(Auto::from_array(&vec![5]).unwrap_err().is_strategy());
}

#[test]
fn auto_empty_arrays_are_bad() {
    let empty: Vec<i64> = vec![];
    assert!(Auto::from_array(&empty).unwrap_err().is_empty_input());
}

// The candidate counts match the textbook formulas exactly.
#[test]
fn sqrt_bin_count_matches_formula() {
    // n = 16, round(sqrt(16)) = 4 candidate bins over [0, 15]: width 3.
    let sample: Vec<i64> = (0..16).collect();
    let fitted = Sqrt::from_array(&sample).unwrap();
    assert_eq!(fitted.bin_width(), 3);
    // ceil(15 / 3 + 1/2) = 6 bins, one extra past the maximum.
    assert_eq!(fitted.n_bins(), 6);
}

#[test]
fn rice_bin_count_matches_formula() {
    // n = 8, round(2 * cbrt(8)) = 4 candidate bins over [0, 7]: width 1.
    let sample: Vec<i64> = (0..8).collect();
    let fitted = Rice::from_array(&sample).unwrap();
    assert_eq!(fitted.bin_width(), 1);
    assert_eq!(fitted.n_bins(), 8);
}

#[test]
fn sturges_bin_count_matches_formula() {
    // n = 16, 1 + round(log2(16)) = 5 candidate bins over [0, 15]: width 3.
    let sample: Vec<i64> = (0..16).collect();
    let fitted = Sturges::from_array(&sample).unwrap();
    assert_eq!(fitted.bin_width(), 3);
    assert_eq!(fitted.n_bins(), 6);
}

#[test]
fn fd_positive_iqr_matches_first_rung() {
    // n = 14 over 0..=13: at = 1/4 gives quartile ranks 3 and 10, so the
    // IQR is 7 and the denominator rounds to 1: width 7 at the first rung.
    let sample: Vec<i64> = (0..14).collect();
    let fitted = FreedmanDiaconis::from_array(&sample).unwrap();
    assert_eq!(fitted.bin_width(), 7);
    assert_eq!(fitted.n_bins(), 3);
}

#[test]
fn fd_scott_fallback_still_respects_the_cap() {
    // Every trim fraction yields two bins, over a cap of one; the Scott
    // fallback then sees a variance whose truncated value is zero and the
    // whole fit fails with `Strategy`.
    assert!(
        FreedmanDiaconis::from_array_with_max(&vec![0, 1, 1, 2], 1)
            .unwrap_err()
            .is_strategy()
    );
}

#[test]
fn auto_prefers_smaller_bin_width() {
    // Sturges gives width 3, Freedman-Diaconis width 7: Sturges wins.
    let sample: Vec<i64> = (0..16).collect();
    let fitted = Auto::from_array(&sample).unwrap();
    assert_eq!(fitted.bin_width(), 3);
    assert!(matches!(fitted.builder, SturgesOrFD::Sturges(_)));
}

#[test]
fn auto_tie_goes_to_freedman_diaconis() {
    // Both widths are 2 on this sample: the tie goes to Freedman-Diaconis.
    let sample: Vec<i64> = vec![0, 1, 1, 1, 2, 2, 2, 2, 2, 2, 2, 4, 5, 6, 8, 10];
    let fitted = Auto::from_array(&sample).unwrap();
    assert_eq!(fitted.bin_width(), 2);
    assert!(matches!(fitted.builder, SturgesOrFD::FreedmanDiaconis(_)));
}

#[test]
fn equi_spaced_succeeds_on_any_valid_range() {
    // Positive width, non-degenerate range: construction always succeeds.
    for (w, mn, mx) in [(1i64, -5i64, 5i64), (100, 0, 1), (3, -7, -6)] {
        let b = EquiSpaced::new(w, mn, mx).unwrap();
        assert_eq!(b.bin_width(), w);
    }
}

#[test]
fn build_covers_the_maximum() {
    let sample: Vec<i64> = (0..16).collect();
    for bins in [
        Sqrt::from_array(&sample).unwrap().build(),
        Rice::from_array(&sample).unwrap().build(),
        Sturges::from_array(&sample).unwrap().build(),
        FreedmanDiaconis::from_array(&sample).unwrap().build(),
        Auto::from_array(&sample).unwrap().build(),
    ] {
        let last = bins.edge(bins.n_bins());
        assert!(last > 15);
        assert_eq!(bins.edge(0), 0);
    }
}

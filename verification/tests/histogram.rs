use ndarray_histogram::bins::{Bins, Edges};
use ndarray_histogram::histograms::{Grid, Histogram, histogram};

fn axis(edges: Vec<i64>) -> Bins {
    Bins::new(Edges::from_vec(edges))
}

#[test]
fn edges_are_sorted_and_deduplicated() {
    let e = Edges::from_vec(vec![2, -1, 1, 0, 1]);
    assert_eq!(e.len(), 4);
    assert_eq!(
        (e.get(0), e.get(1), e.get(2), e.get(3)),
        (-1, 0, 1, 2)
    );
}

#[test]
fn bins_are_left_closed_right_open() {
    let bins = axis(vec![-1, 0, 1, 2]);
    assert_eq!(bins.n_bins(), 3);
    assert_eq!(bins.index_of(-1), Some(0));
    assert_eq!(bins.index_of(0), Some(1));
    assert_eq!(bins.index_of(1), Some(2));
    assert_eq!(bins.index_of(-2), None);
    assert_eq!(bins.index_of(2), None);
}

#[test]
fn histogram_counts_every_in_range_observation() {
    let grid = Grid::from_bins(vec![axis(vec![-1, 0, 1, 2])]);
    let mut hist = Histogram::new(grid);
    for v in [-1i64, 0, 1, 1, 0, -1, 1] {
        hist.add_observation(&vec![v]).unwrap();
    }
    let counts = hist.counts();
    assert_eq!(counts, vec![2, 2, 3]);
    assert_eq!(counts.iter().sum::<usize>(), 7);
}

#[test]
fn out_of_range_observation_is_bin_not_found() {
    let grid = Grid::from_bins(vec![axis(vec![-1, 0, 1, 2])]);
    let mut hist = Histogram::new(grid);
    hist.add_observation(&vec![0]).unwrap();
    assert!(hist.add_observation(&vec![5]).is_err());
    // the miss left the counts unchanged
    assert_eq!(hist.counts(), vec![0, 1, 0]);
}

#[test]
fn two_dimensional_scenario() {
    // Two axes with edges [-2, 0, 2, 4]; the four observations land in the
    // cells (2,1), (0,2), (0,0) and (1,0), so the count matrix in row-major
    // order is [[1,0,1],[1,0,0],[0,1,0]].
    let grid = Grid::from_bins(vec![axis(vec![-2, 0, 2, 4]), axis(vec![-2, 0, 2, 4])]);
    let observations: Vec<Vec<i64>> = vec![
        vec![2, 1],
        vec![-1, 2],
        vec![-2, -1],
        vec![1, -2],
    ];
    let hist = histogram(&observations, grid);
    assert_eq!(hist.ndim(), 2);
    assert_eq!(hist.counts(), vec![1, 0, 1, 1, 0, 0, 0, 1, 0]);
}

#[test]
fn bulk_ingestion_drops_out_of_range_points() {
    let grid = Grid::from_bins(vec![axis(vec![0, 10])]);
    let observations: Vec<Vec<i64>> = vec![vec![5], vec![50], vec![9], vec![-3]];
    let hist = histogram(&observations, grid);
    assert_eq!(hist.counts(), vec![2]);
}

#[test]
fn new_histogram_is_all_zeros() {
    let grid = Grid::from_bins(vec![axis(vec![0, 1, 2]), axis(vec![0, 5, 9])]);
    let hist = Histogram::new(grid);
    assert_eq!(hist.counts(), vec![0, 0, 0, 0]);
    assert_eq!(hist.grid().ndim(), 2);
}

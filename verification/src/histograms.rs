//! The multi-dimensional grid of cells and the histogram over it.
use vstd::prelude::*;
use crate::bins::{Bins, bin_index};
use crate::errors::BinNotFound;
use crate::intmath::lemma_mul_le;

verus! {

/// A rectangular partition of d-dimensional space: one `Bins` per axis,
/// viewed as the per-axis boundary sequences.
pub struct Grid {
    projections: Vec<Bins>,
}

impl View for Grid {
    type V = Seq<Seq<i64>>;

    closed spec fn view(&self) -> Seq<Seq<i64>> {
        Seq::new(self.projections@.len(), |d: int| self.projections@[d]@)
    }
}

/// Whether every coordinate of the point falls into some bin of its axis.
pub open spec fn grid_hit(grid: Seq<Seq<i64>>, point: Seq<i64>) -> bool {
    forall|d: int| 0 <= d < grid.len() ==> (#[trigger] bin_index(grid[d], point[d])) is Some
}

/// The cell that a point falls into, axis by axis (meaningful only under
/// `grid_hit`).
pub open spec fn grid_cell(grid: Seq<Seq<i64>>, point: Seq<i64>) -> Seq<usize> {
    Seq::new(
        grid.len(),
        |d: int|
            match bin_index(grid[d], point[d]) {
                Some(i) => i as usize,
                None => 0,
            },
    )
}

impl Grid {
    /// Every axis is a well-formed partition.
    pub open spec fn wf(&self) -> bool {
        forall|d: int|
            0 <= d < self@.len() ==> crate::bins::is_strictly_increasing(#[trigger] self@[d])
                && 2 <= self@[d].len() <= usize::MAX
    }

    /// The per-axis bin counts.
    pub open spec fn spec_shape(&self) -> Seq<usize> {
        Seq::new(self@.len(), |d: int| (self@[d].len() - 1) as usize)
    }

    /// Combines one partition per axis into a grid.
    pub fn from_bins(projections: Vec<Bins>) -> (r: Grid)
        requires
            forall|d: int| 0 <= d < projections@.len() ==> (#[trigger] projections@[d]).wf(),
        ensures
            r.wf(),
            r@.len() == projections@.len(),
            forall|d: int| 0 <= d < projections@.len() ==> r@[d] == (#[trigger] projections@[d])@,
    {
        Grid { projections }
    }

    /// The number of dimensions of the space the grid is covering.
    pub fn ndim(&self) -> (r: usize)
        ensures
            r == self@.len(),
    {
        self.projections.len()
    }

    /// The number of bins along each axis.
    pub fn shape(&self) -> (r: Vec<usize>)
        requires
            self.wf(),
        ensures
            r@ == self.spec_shape(),
    {
        let mut shape: Vec<usize> = Vec::new();
        let mut d: usize = 0;
        while d < self.projections.len()
            invariant
                d <= self.projections@.len(),
                self.wf(),
                self@.len() == self.projections@.len(),
                forall|q: int| 0 <= q < self@.len() ==> self@[q] == (#[trigger] self.projections@[q])@,
                shape@.len() == d,
                forall|q: int| 0 <= q < d ==> shape@[q] as int == self@[q].len() - 1,
            decreases self.projections@.len() - d,
        {
            let b = &self.projections[d];
            shape.push(b.n_bins());
            d = d + 1;
        }
        proof {
            assert(shape@ =~= self.spec_shape());
        }
        shape
    }

    /// Maps a d-dimensional point to the cell that contains it, or reports
    /// a miss when any coordinate falls outside its axis's covered range.
    ///
    /// The point must have exactly as many coordinates as the grid has
    /// dimensions.
    pub fn index_of(&self, point: &Vec<i64>) -> (r: Option<Vec<usize>>)
        requires
            self.wf(),
            point@.len() == self@.len(),
        ensures
            r is Some <==> grid_hit(self@, point@),
            r matches Some(idx) ==> idx@ == grid_cell(self@, point@),
    {
        let mut idx: Vec<usize> = Vec::new();
        let mut d: usize = 0;
        while d < self.projections.len()
            invariant
                d <= self.projections@.len(),
                self.wf(),
                point@.len() == self@.len(),
                self@.len() == self.projections@.len(),
                forall|q: int| 0 <= q < self@.len() ==> self@[q] == (#[trigger] self.projections@[q])@,
                idx@.len() == d,
                forall|q: int|
                    0 <= q < d ==> ((#[trigger] bin_index(self@[q], point@[q])) matches Some(i)
                        && idx@[q] == i),
            decreases self.projections@.len() - d,
        {
            let b = &self.projections[d];
            match b.index_of(point[d]) {
                Some(i) => {
                    idx.push(i);
                },
                None => {
                    return None;
                },
            }
            d = d + 1;
        }
        proof {
            assert(idx@ =~= grid_cell(self@, point@));
        }
        Some(idx)
    }
}

/// The number of cells of a count array with the given shape.
pub open spec fn shape_product(shape: Seq<usize>) -> int
    decreases shape.len(),
{
    if shape.len() == 0 {
        1
    } else {
        shape_product(shape.drop_last()) * shape.last()
    }
}

/// The row-major offset of a cell index within a shape.
pub open spec fn flat_index(shape: Seq<usize>, idx: Seq<usize>) -> int
    decreases shape.len(),
{
    if shape.len() == 0 {
        0
    } else {
        flat_index(shape.drop_last(), idx.drop_last()) * shape.last() + idx.last()
    }
}

/// An in-bounds cell index has an in-bounds row-major offset.
proof fn lemma_flat_index_bound(shape: Seq<usize>, idx: Seq<usize>)
    requires
        idx.len() == shape.len(),
        forall|d: int| 0 <= d < shape.len() ==> (#[trigger] idx[d]) < shape[d],
    ensures
        0 <= flat_index(shape, idx) < shape_product(shape),
        shape_product(shape) >= 1,
    decreases shape.len(),
{
    if shape.len() > 0 {
        lemma_flat_index_bound(shape.drop_last(), idx.drop_last());
        let fp = flat_index(shape.drop_last(), idx.drop_last());
        let pp = shape_product(shape.drop_last());
        let l = shape.last() as int;
        lemma_mul_le(0, fp, l);
        lemma_mul_le(fp, pp - 1, l);
        assert(idx.last() < shape.last());
        assert(fp * l + idx.last() < pp * l) by (nonlinear_arith)
            requires
                fp * l <= (pp - 1) * l,
                (idx.last() as int) < l,
        ;
        lemma_mul_le(1, pp, l);
    }
}

/// The sum of the counts.
pub open spec fn counts_sum(s: Seq<usize>) -> int
    decreases s.len(),
{
    if s.len() == 0 {
        0
    } else {
        counts_sum(s.drop_last()) + s.last()
    }
}

/// Incrementing one cell increments the sum.
proof fn lemma_counts_sum_update(s: Seq<usize>, i: int)
    requires
        0 <= i < s.len(),
        s[i] < usize::MAX,
    ensures
        counts_sum(s.update(i, (s[i] + 1) as usize)) == counts_sum(s) + 1,
    decreases s.len(),
{
    let u = s.update(i, (s[i] + 1) as usize);
    if i == s.len() - 1 {
        assert(u.drop_last() =~= s.drop_last());
    } else {
        assert(u.drop_last() =~= s.drop_last().update(i, (s[i] + 1) as usize));
        lemma_counts_sum_update(s.drop_last(), i);
    }
}

/// Each cell's count is at most the sum of all counts.
proof fn lemma_count_le_sum(s: Seq<usize>, i: int)
    requires
        0 <= i < s.len(),
    ensures
        0 <= s[i] <= counts_sum(s),
        0 <= counts_sum(s),
    decreases s.len(),
{
    if i == s.len() - 1 {
        if s.len() > 1 {
            lemma_count_le_sum(s.drop_last(), 0);
        }
    } else {
        lemma_count_le_sum(s.drop_last(), i);
    }
}

/// A fresh array of zeros sums to zero.
proof fn lemma_counts_sum_zeros(n: nat)
    ensures
        counts_sum(Seq::new(n, |i: int| 0usize)) == 0,
    decreases n,
{
    if n > 0 {
        lemma_counts_sum_zeros((n - 1) as nat);
        assert(Seq::new(n, |i: int| 0usize).drop_last() =~= Seq::new(
            (n - 1) as nat,
            |i: int| 0usize,
        ));
    }
}

/// Holds the n-dimensional count array. `ndarray`'s array types cannot be
/// declared to the verifier (their storage parameter is bound by a trait of
/// that crate), so the array lives inside this opaque holder and is reached
/// only through the trusted wrappers below.
#[verifier::external_body]
pub struct CountsArray {
    arr: ndarray::ArrayD<usize>,
}

/// The elements of the count array in row-major (logical) order.
pub uninterp spec fn counts_elems(c: CountsArray) -> Seq<usize>;

/// The shape of the count array.
pub uninterp spec fn counts_shape(c: CountsArray) -> Seq<usize>;

/// Relies on `ndarray::ArrayD::zeros`: a freshly allocated array of the
/// given shape holds a zero in each of its `prod(shape)` cells. The call
/// panics when the product of the non-zero axis lengths overflows `isize`;
/// with every length positive, the full product bounds that product.
#[verifier::external_body]
fn counts_zeros(shape: &Vec<usize>) -> (c: CountsArray)
    requires
        forall|d: int| 0 <= d < shape@.len() ==> (#[trigger] shape@[d]) >= 1,
        shape_product(shape@) <= isize::MAX as int,
    ensures
        counts_shape(c) == shape@,
        counts_elems(c) == Seq::new(shape_product(shape@) as nat, |i: int| 0usize),
{
    CountsArray { arr: ndarray::ArrayD::zeros(ndarray::IxDyn(shape.as_slice())) }
}

/// Relies on `ndarray` indexing with `IxDyn`: an in-bounds logical index
/// reads the element at its row-major offset.
#[verifier::external_body]
fn counts_get(c: &CountsArray, idx: &Vec<usize>) -> (r: usize)
    requires
        idx@.len() == counts_shape(*c).len(),
        forall|d: int| 0 <= d < idx@.len() ==> (#[trigger] idx@[d]) < counts_shape(*c)[d],
        0 <= flat_index(counts_shape(*c), idx@) < counts_elems(*c).len(),
    ensures
        r == counts_elems(*c)[flat_index(counts_shape(*c), idx@)],
{
    c.arr[ndarray::IxDyn(idx.as_slice())]
}

/// Relies on `ndarray` indexing with `IxDyn`: writing through an in-bounds
/// logical index replaces the element at its row-major offset and nothing
/// else.
#[verifier::external_body]
fn counts_set(c: &mut CountsArray, idx: &Vec<usize>, v: usize)
    requires
        idx@.len() == counts_shape(*old(c)).len(),
        forall|d: int| 0 <= d < idx@.len() ==> (#[trigger] idx@[d]) < counts_shape(*old(c))[d],
        0 <= flat_index(counts_shape(*old(c)), idx@) < counts_elems(*old(c)).len(),
    ensures
        counts_shape(*final(c)) == counts_shape(*old(c)),
        counts_elems(*final(c)) == counts_elems(*old(c)).update(
            flat_index(counts_shape(*old(c)), idx@),
            v,
        ),
{
    c.arr[ndarray::IxDyn(idx.as_slice())] = v;
}

/// Relies on `ndarray::ArrayBase::iter`: iteration visits the elements in
/// row-major (logical) order.
#[verifier::external_body]
fn counts_to_vec(c: &CountsArray) -> (r: Vec<usize>)
    ensures
        r@ == counts_elems(*c),
{
    c.arr.iter().copied().collect()
}

/// Histogram data structure: an n-dimensional count array sized to a grid's
/// shape, plus the grid itself.
pub struct Histogram {
    counts: CountsArray,
    grid: Grid,
}

impl Histogram {
    /// The counts match the grid's shape.
    pub closed spec fn wf(&self) -> bool {
        self.grid.wf() && counts_shape(self.counts) == self.grid.spec_shape() && counts_elems(
            self.counts,
        ).len() == shape_product(self.grid.spec_shape())
    }

    /// The shape of the count array.
    pub closed spec fn spec_shape(&self) -> Seq<usize> {
        counts_shape(self.counts)
    }

    /// The grid's boundary sequences.
    pub closed spec fn spec_grid(&self) -> Seq<Seq<i64>> {
        self.grid@
    }

    /// The counts in row-major order.
    pub closed spec fn spec_counts(&self) -> Seq<usize> {
        counts_elems(self.counts)
    }

    /// Returns a new histogram over the given grid with every count zero.
    pub fn new(grid: Grid) -> (r: Histogram)
        requires
            grid.wf(),
            shape_product(grid.spec_shape()) <= isize::MAX as int,
        ensures
            r.wf(),
            r.spec_grid() == grid@,
            r.spec_shape() == grid.spec_shape(),
            r.spec_counts() == Seq::new(
                shape_product(grid.spec_shape()) as nat,
                |i: int| 0usize,
            ),
            counts_sum(r.spec_counts()) == 0,
    {
        let shape = grid.shape();
        proof {
            lemma_counts_sum_zeros(shape_product(grid.spec_shape()) as nat);
            assert(shape_product(grid.spec_shape()) >= 0) by {
                lemma_shape_product_nonneg(grid.spec_shape());
            }
            assert forall|d: int| 0 <= d < shape@.len() implies (#[trigger] shape@[d]) >= 1 by {
                assert(shape@[d] == grid.spec_shape()[d]);
                assert(grid@[d].len() >= 2);
            }
        }
        let counts = counts_zeros(&shape);
        Histogram { counts, grid }
    }

    /// Adds a single observation: on a hit the containing cell's count goes
    /// up by one (and so does the total count); on a miss the histogram is
    /// unchanged and `BinNotFound` is returned.
    ///
    /// The observation must have exactly as many coordinates as the grid
    /// has dimensions.
    pub fn add_observation(&mut self, observation: &Vec<i64>) -> (r: Result<(), BinNotFound>)
        requires
            old(self).wf(),
            observation@.len() == old(self).spec_grid().len(),
            counts_sum(old(self).spec_counts()) < usize::MAX,
        ensures
            final(self).wf(),
            final(self).spec_grid() == old(self).spec_grid(),
            r is Ok <==> grid_hit(old(self).spec_grid(), observation@),
            r is Ok ==> final(self).spec_counts() == old(self).spec_counts().update(
                flat_index(old(self).spec_shape(), grid_cell(old(self).spec_grid(), observation@)),
                (old(self).spec_counts()[flat_index(
                    old(self).spec_shape(),
                    grid_cell(old(self).spec_grid(), observation@),
                )] + 1) as usize,
            ),
            r is Ok ==> counts_sum(final(self).spec_counts()) == counts_sum(
                old(self).spec_counts(),
            ) + 1,
            r is Err ==> *final(self) == *old(self),
    {
        match self.grid.index_of(observation) {
            Some(cell) => {
                proof {
                    let shape = counts_shape(self.counts);
                    let gc = grid_cell(self.grid@, observation@);
                    assert(cell@.len() == shape.len());
                    assert forall|d: int| 0 <= d < cell@.len() implies (#[trigger] cell@[d])
                        < shape[d] by {
                        assert(bin_index(self.grid@[d], observation@[d]) is Some);
                        crate::bins::lemma_bin_index_char(self.grid@[d], observation@[d]);
                        assert(cell@[d] == gc[d]);
                        assert(shape[d] == self.grid.spec_shape()[d]);
                        match bin_index(self.grid@[d], observation@[d]) {
                            Some(i) => {
                                assert(gc[d] == i as usize);
                                assert(i + 1 < self.grid@[d].len());
                                assert(shape[d] as int == self.grid@[d].len() - 1);
                            },
                            None => {
                                assert(false);
                            },
                        }
                    }
                    lemma_flat_index_bound(shape, cell@);
                    lemma_count_le_sum(
                        counts_elems(self.counts),
                        flat_index(shape, cell@),
                    );
                    lemma_counts_sum_update(
                        counts_elems(self.counts),
                        flat_index(shape, cell@),
                    );
                }
                let cur = counts_get(&self.counts, &cell);
                counts_set(&mut self.counts, &cell, cur + 1);
                Ok(())
            },
            None => Err(BinNotFound),
        }
    }

    /// The number of dimensions of the space the histogram is covering.
    pub fn ndim(&self) -> (r: usize)
        ensures
            r == self.spec_grid().len(),
    {
        self.grid.ndim()
    }

    /// A snapshot of the histogram counts in row-major order.
    pub fn counts(&self) -> (r: Vec<usize>)
        ensures
            r@ == self.spec_counts(),
    {
        counts_to_vec(&self.counts)
    }

    /// Borrows the histogram grid.
    pub fn grid(&self) -> (r: &Grid)
        ensures
            r@ == self.spec_grid(),
    {
        &self.grid
    }
}

/// A shape's cell count is at least one per earlier factor.
proof fn lemma_shape_product_nonneg(shape: Seq<usize>)
    ensures
        shape_product(shape) >= 0,
    decreases shape.len(),
{
    if shape.len() > 0 {
        lemma_shape_product_nonneg(shape.drop_last());
        lemma_mul_le(0, shape_product(shape.drop_last()), shape.last() as int);
    }
}

/// The counts after bulk ingestion of the given rows into the given counts:
/// each in-range row increments its cell, rows outside the grid's coverage
/// are dropped.
pub open spec fn ingest(
    grid: Seq<Seq<i64>>,
    shape: Seq<usize>,
    counts: Seq<usize>,
    rows: Seq<Seq<i64>>,
) -> Seq<usize>
    decreases rows.len(),
{
    if rows.len() == 0 {
        counts
    } else {
        let prev = ingest(grid, shape, counts, rows.drop_last());
        let p = rows.last();
        if grid_hit(grid, p) {
            let f = flat_index(shape, grid_cell(grid, p));
            prev.update(f, (prev[f] + 1) as usize)
        } else {
            prev
        }
    }
}

/// The number of rows that fall inside the grid's coverage.
pub open spec fn count_hits(grid: Seq<Seq<i64>>, rows: Seq<Seq<i64>>) -> int
    decreases rows.len(),
{
    if rows.len() == 0 {
        0
    } else {
        count_hits(grid, rows.drop_last()) + if grid_hit(grid, rows.last()) {
            1int
        } else {
            0int
        }
    }
}

/// Returns the histogram of a collection of d-dimensional points, one row
/// per observation. Points outside the grid's coverage are silently
/// dropped: bulk histogramming is lossy at the boundaries by design.
///
/// Every row must have exactly as many coordinates as the grid has
/// dimensions.
pub fn histogram(points: &Vec<Vec<i64>>, grid: Grid) -> (r: Histogram)
    requires
        grid.wf(),
        shape_product(grid.spec_shape()) <= isize::MAX as int,
        points@.len() < usize::MAX,
        forall|i: int| 0 <= i < points@.len() ==> (#[trigger] points@[i])@.len() == grid@.len(),
    ensures
        r.wf(),
        r.spec_grid() == grid@,
        r.spec_counts() == ingest(
            grid@,
            grid.spec_shape(),
            Seq::new(shape_product(grid.spec_shape()) as nat, |i: int| 0usize),
            Seq::new(points@.len(), |i: int| points@[i]@),
        ),
        counts_sum(r.spec_counts()) == count_hits(
            grid@,
            Seq::new(points@.len(), |i: int| points@[i]@),
        ),
{
    let ghost rows = Seq::new(points@.len(), |i: int| points@[i]@);
    let ghost zeros = Seq::new(shape_product(grid.spec_shape()) as nat, |i: int| 0usize);
    let ghost g = grid@;
    let ghost shape = grid.spec_shape();
    let mut hist = Histogram::new(grid);
    let mut i: usize = 0;
    while i < points.len()
        invariant
            i <= points@.len(),
            points@.len() < usize::MAX,
            hist.wf(),
            hist.spec_grid() == g,
            hist.spec_shape() == shape,
            rows == Seq::new(points@.len(), |i: int| points@[i]@),
            forall|q: int| 0 <= q < points@.len() ==> (#[trigger] points@[q])@.len() == g.len(),
            hist.spec_counts() == ingest(g, shape, zeros, rows.subrange(0, i as int)),
            counts_sum(hist.spec_counts()) == count_hits(g, rows.subrange(0, i as int)),
        decreases points@.len() - i,
    {
        proof {
            assert(rows.subrange(0, i as int + 1).drop_last() =~= rows.subrange(0, i as int));
            assert(rows.subrange(0, i as int + 1).last() == points@[i as int]@);
            assert(count_hits(g, rows.subrange(0, i as int)) <= i) by {
                lemma_count_hits_le(g, rows.subrange(0, i as int));
            }
        }
        let row = &points[i];
        let _ = hist.add_observation(row);
        i = i + 1;
    }
    proof {
        assert(rows.subrange(0, points@.len() as int) =~= rows);
    }
    hist
}

/// At most one hit per row.
proof fn lemma_count_hits_le(grid: Seq<Seq<i64>>, rows: Seq<Seq<i64>>)
    ensures
        0 <= count_hits(grid, rows) <= rows.len(),
    decreases rows.len(),
{
    if rows.len() > 0 {
        lemma_count_hits_le(grid, rows.drop_last());
    }
}

/// Histogram invariant: ingesting rows that all fall inside the grid's
/// coverage raises the total count by exactly the number of rows.
pub proof fn lemma_ingest_total(
    grid: Seq<Seq<i64>>,
    shape: Seq<usize>,
    counts: Seq<usize>,
    rows: Seq<Seq<i64>>,
)
    requires
        shape.len() == grid.len(),
        forall|d: int|
            0 <= d < grid.len() ==> crate::bins::is_strictly_increasing(#[trigger] grid[d])
                && 2 <= grid[d].len() <= usize::MAX,
        forall|d: int| 0 <= d < grid.len() ==> (#[trigger] shape[d]) as int == grid[d].len() - 1,
        counts.len() == shape_product(shape),
        counts_sum(counts) + rows.len() <= usize::MAX,
        forall|i: int|
            0 <= i < rows.len() ==> (#[trigger] rows[i]).len() == grid.len() && grid_hit(
                grid,
                rows[i],
            ),
    ensures
        counts_sum(ingest(grid, shape, counts, rows)) == counts_sum(counts) + rows.len(),
        ingest(grid, shape, counts, rows).len() == counts.len(),
    decreases rows.len(),
{
    if rows.len() > 0 {
        assert forall|i: int| 0 <= i < rows.drop_last().len() implies (#[trigger] rows.drop_last()[
            i
        ]).len() == grid.len() && grid_hit(grid, rows.drop_last()[i]) by {
            assert(rows.drop_last()[i] == rows[i]);
        }
        lemma_ingest_total(grid, shape, counts, rows.drop_last());
        let prev = ingest(grid, shape, counts, rows.drop_last());
        let p = rows.last();
        assert(grid_hit(grid, p) && p.len() == grid.len());
        let gc = grid_cell(grid, p);
        assert forall|d: int| 0 <= d < shape.len() implies (#[trigger] gc[d]) < shape[d] by {
            assert(bin_index(grid[d], p[d]) is Some);
            crate::bins::lemma_bin_index_char(grid[d], p[d]);
            match bin_index(grid[d], p[d]) {
                Some(i) => {
                    assert(gc[d] == i as usize);
                    assert(i + 1 < grid[d].len());
                },
                None => {
                    assert(false);
                },
            }
        }
        lemma_flat_index_bound(shape, gc);
        let f = flat_index(shape, gc);
        lemma_count_le_sum(prev, f);
        lemma_counts_sum_update(prev, f);
    }
}

} // verus!

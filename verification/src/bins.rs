//! One-dimensional partitions: boundary sequences and half-open bins.
use vstd::prelude::*;
use crate::sorting::{is_sorted, sort_seq, sort_vec};

verus! {

/// A sequence is strictly increasing.
pub open spec fn is_strictly_increasing(s: Seq<i64>) -> bool {
    forall|i: int, j: int| 0 <= i < j < s.len() ==> s[i] < s[j]
}

/// Removes adjacent duplicates; on a sorted sequence this removes every
/// duplicate.
pub open spec fn dedup_adj(s: Seq<i64>) -> Seq<i64>
    decreases s.len(),
{
    if s.len() <= 1 {
        s
    } else {
        let rest = dedup_adj(s.drop_last());
        if s[s.len() - 1] == s[s.len() - 2] {
            rest
        } else {
            rest.push(s.last())
        }
    }
}

proof fn lemma_dedup_adj(s: Seq<i64>)
    requires
        is_sorted(s),
    ensures
        is_strictly_increasing(dedup_adj(s)),
        s.len() > 0 ==> dedup_adj(s).len() > 0 && dedup_adj(s).last() == s.last(),
        dedup_adj(s).len() <= s.len(),
    decreases s.len(),
{
    if s.len() > 1 {
        assert(is_sorted(s.drop_last()));
        lemma_dedup_adj(s.drop_last());
        let rest = dedup_adj(s.drop_last());
        if s[s.len() - 1] != s[s.len() - 2] {
            assert(s[s.len() - 2] < s[s.len() - 1]);
            let all = rest.push(s.last());
            assert forall|i: int, j: int| 0 <= i < j < all.len() implies all[i] < all[j] by {
                if j < all.len() - 1 {
                    assert(all[i] == rest[i] && all[j] == rest[j]);
                } else {
                    assert(all[j] == s.last());
                    assert(all[i] == rest[i]);
                    if i < rest.len() - 1 {
                        assert(rest[i] < rest[rest.len() - 1]);
                    }
                    assert(rest[rest.len() - 1] == s.drop_last().last());
                }
            }
        }
    }
}

/// A strictly increasing sequence has no adjacent duplicates to remove.
pub proof fn lemma_dedup_adj_id(s: Seq<i64>)
    requires
        is_strictly_increasing(s),
    ensures
        dedup_adj(s) == s,
    decreases s.len(),
{
    if s.len() > 1 {
        assert(is_strictly_increasing(s.drop_last()));
        lemma_dedup_adj_id(s.drop_last());
        assert(s[s.len() - 2] < s[s.len() - 1]);
        assert(dedup_adj(s) =~= s.drop_last().push(s.last()));
        assert(s.drop_last().push(s.last()) =~= s);
    }
}

/// A sorted sequence stays as it is when sorted again.
pub proof fn lemma_sort_seq_id(s: Seq<i64>)
    requires
        is_sorted(s),
    ensures
        sort_seq(s) == s,
{
    crate::sorting::lemma_sort_seq(s);
    crate::sorting::lemma_sorted_unique(s, sort_seq(s));
}

/// The ordered, deduplicated boundary values of one axis.
pub struct Edges {
    vec: Vec<i64>,
}

impl View for Edges {
    type V = Seq<i64>;

    closed spec fn view(&self) -> Seq<i64> {
        self.vec@
    }
}

impl Edges {
    /// Boundaries are strictly increasing.
    pub open spec fn wf(&self) -> bool {
        is_strictly_increasing(self@)
    }

    /// Builds the boundary sequence from arbitrary values: they are sorted
    /// and duplicates are dropped.
    pub fn from_vec(v: Vec<i64>) -> (r: Edges)
        ensures
            r@ == dedup_adj(sort_seq(v@)),
            r.wf(),
    {
        let sorted = sort_vec(&v);
        let mut out: Vec<i64> = Vec::new();
        let mut i: usize = 0;
        proof {
            crate::sorting::lemma_sort_seq(v@);
        }
        while i < sorted.len()
            invariant
                i <= sorted.len(),
                sorted@ == sort_seq(v@),
                is_sorted(sorted@),
                out@ == dedup_adj(sorted@.subrange(0, i as int)),
            decreases sorted.len() - i,
        {
            let ghost prefix = sorted@.subrange(0, i as int);
            let ghost prefix1 = sorted@.subrange(0, i as int + 1);
            proof {
                assert(is_sorted(prefix));
                assert(is_sorted(prefix1));
                lemma_dedup_adj(prefix);
                assert(prefix1.drop_last() =~= prefix);
            }
            let e = sorted[i];
            if out.len() == 0 {
                out.push(e);
                proof {
                    assert(prefix.len() == 0);
                    assert(prefix1 =~= seq![e]);
                }
            } else {
                let last = out[out.len() - 1];
                proof {
                    assert(last == dedup_adj(prefix).last());
                    assert(last == prefix.last());
                    assert(prefix1[i as int] == e && prefix1[i as int - 1] == prefix.last());
                }
                if last != e {
                    out.push(e);
                }
            }
            i = i + 1;
        }
        proof {
            assert(sorted@.subrange(0, sorted@.len() as int) =~= sorted@);
            lemma_dedup_adj(sorted@);
        }
        Edges { vec: out }
    }

    /// The number of boundary values.
    pub fn len(&self) -> (r: usize)
        ensures
            r == self@.len(),
    {
        self.vec.len()
    }

    /// The boundary at the given position.
    pub fn get(&self, i: usize) -> (r: i64)
        requires
            i < self@.len(),
        ensures
            r == self@[i as int],
    {
        self.vec[i]
    }
}

/// The index of the half-open interval `[edges[i], edges[i + 1])` that
/// contains the value, if any.
pub open spec fn bin_index(edges: Seq<i64>, v: i64) -> Option<int>
    decreases edges.len(),
{
    if edges.len() < 2 {
        None
    } else if edges[0] <= v && v < edges[1] {
        Some(0)
    } else {
        match bin_index(edges.drop_first(), v) {
            Some(i) => Some(i + 1),
            None => None,
        }
    }
}

/// Over strictly increasing edges, `bin_index` finds exactly the interval
/// that contains the value, and misses exactly the values outside the
/// covered range.
pub proof fn lemma_bin_index_char(edges: Seq<i64>, v: i64)
    requires
        is_strictly_increasing(edges),
        edges.len() >= 2,
    ensures
        match bin_index(edges, v) {
            Some(i) => 0 <= i && i + 1 < edges.len() && edges[i] <= v && v < edges[i + 1],
            None => v < edges[0] || v >= edges.last(),
        },
    decreases edges.len(),
{
    if !(edges[0] <= v && v < edges[1]) {
        if edges.len() == 2 {
        } else {
            assert(is_strictly_increasing(edges.drop_first()));
            lemma_bin_index_char(edges.drop_first(), v);
            match bin_index(edges.drop_first(), v) {
                Some(i) => {
                    assert(edges.drop_first()[i] == edges[i + 1]);
                    assert(edges.drop_first()[i + 1] == edges[i + 2]);
                }
                None => {
                    assert(edges.drop_first()[0] == edges[1]);
                    assert(edges.drop_first().last() == edges.last());
                    if v >= edges[0] && v < edges[1] {
                        assert(false);
                    }
                }
            }
        }
    }
}

/// A sequence of `len(edges) - 1` half-open intervals on one axis.
pub struct Bins {
    edges: Edges,
}

impl View for Bins {
    type V = Seq<i64>;

    closed spec fn view(&self) -> Seq<i64> {
        self.edges@
    }
}

impl Bins {
    /// Boundaries are strictly increasing, representable in number, and
    /// delimit at least one bin.
    pub open spec fn wf(&self) -> bool {
        is_strictly_increasing(self@) && 2 <= self@.len() <= usize::MAX
    }

    /// Wraps boundary values as a partition into half-open intervals; a
    /// partition has at least one interval.
    pub fn new(edges: Edges) -> (r: Bins)
        requires
            edges.wf(),
            edges@.len() >= 2,
        ensures
            r@ == edges@,
            r.wf(),
    {
        let n = edges.len();
        proof {
            assert(edges@.len() == n as int);
        }
        Bins { edges }
    }

    /// The number of intervals.
    pub fn n_bins(&self) -> (r: usize)
        requires
            self.wf(),
        ensures
            r as int == self@.len() - 1,
    {
        self.edges.len() - 1
    }

    /// The boundary at the given position.
    pub fn edge(&self, i: usize) -> (r: i64)
        requires
            i < self@.len(),
        ensures
            r == self@[i as int],
    {
        self.edges.get(i)
    }

    /// Finds the interval that contains the value by binary search over the
    /// boundaries.
    pub fn index_of(&self, value: i64) -> (r: Option<usize>)
        requires
            self.wf(),
        ensures
            r matches Some(i) ==> Some(i as int) == bin_index(self@, value),
            r is None ==> bin_index(self@, value) is None,
    {
        proof {
            lemma_bin_index_char(self@, value);
        }
        let n = self.edges.len();
        if value < self.edges.get(0) || value >= self.edges.get(n - 1) {
            proof {
                match bin_index(self@, value) {
                    Some(i) => {
                        assert(self@[i] <= value && value < self@[i + 1]);
                        assert(self@[0] <= self@[i]);
                        assert(self@[i + 1] <= self@[n - 1]);
                    }
                    None => {}
                }
            }
            return None;
        }
        let mut lo: usize = 0;
        let mut hi: usize = n - 1;
        while lo + 1 < hi
            invariant
                0 <= lo < hi < self@.len(),
                self@[lo as int] <= value,
                value < self@[hi as int],
                self.wf(),
            decreases hi - lo,
        {
            let mid = lo + (hi - lo) / 2;
            if self.edges.get(mid) <= value {
                lo = mid;
            } else {
                hi = mid;
            }
        }
        proof {
            match bin_index(self@, value) {
                Some(i) => {
                    if i < lo {
                        assert(self@[i + 1] <= self@[lo as int]);
                        assert(false);
                    }
                    if i > lo {
                        assert(self@[lo + 1] <= self@[i]);
                        assert(false);
                    }
                }
                None => {
                    assert(self@[lo as int] <= value);
                    assert(value < self@[lo + 1]);
                    assert(self@[0] <= value || lo == 0);
                    assert(false);
                }
            }
        }
        Some(lo)
    }
}

} // verus!

//! A verified insertion sort over integer samples.
//!
//! The Freedman-Diaconis estimator reads order statistics from a scratch
//! copy of the sample; sorting the copy once provides every rank it needs.
use vstd::prelude::*;
use vstd::multiset::Multiset;
use vstd::seq_lib::group_to_multiset_ensures;

verus! {

/// A sequence is sorted in non-decreasing order.
pub open spec fn is_sorted(s: Seq<i64>) -> bool {
    forall|i: int, j: int| 0 <= i < j < s.len() ==> s[i] <= s[j]
}

/// Inserts a value into a sorted sequence, keeping it sorted.
pub open spec fn insert_sorted(x: i64, s: Seq<i64>) -> Seq<i64>
    decreases s.len(),
{
    if s.len() == 0 {
        seq![x]
    } else if x <= s[0] {
        seq![x] + s
    } else {
        seq![s[0]] + insert_sorted(x, s.drop_first())
    }
}

/// The sequence reordered into non-decreasing order.
pub open spec fn sort_seq(s: Seq<i64>) -> Seq<i64>
    decreases s.len(),
{
    if s.len() == 0 {
        Seq::empty()
    } else {
        insert_sorted(s[0], sort_seq(s.drop_first()))
    }
}

proof fn lemma_insert_sorted(x: i64, s: Seq<i64>)
    requires
        is_sorted(s),
    ensures
        is_sorted(insert_sorted(x, s)),
        insert_sorted(x, s).to_multiset() == s.to_multiset().insert(x),
        insert_sorted(x, s).len() == s.len() + 1,
    decreases s.len(),
{
    broadcast use group_to_multiset_ensures;

    if s.len() == 0 {
        assert(seq![x] =~= Seq::<i64>::empty().push(x));
        assert(seq![x].to_multiset() == s.to_multiset().insert(x));
    } else if x <= s[0] {
        assert(seq![x] + s =~= s.insert(0, x));
        vstd::seq_lib::to_multiset_insert(s, 0, x);
    } else {
        let rest = insert_sorted(x, s.drop_first());
        lemma_insert_sorted(x, s.drop_first());
        let all = seq![s[0]] + rest;
        assert forall|i: int, j: int| 0 <= i < j < all.len() implies all[i] <= all[j] by {
            if i == 0 {
                if rest.to_multiset().count(all[j]) > 0 {
                }
                assert(rest.contains(all[j]));
                if s.drop_first().to_multiset().count(all[j]) > 0 {
                    assert(s.drop_first().contains(all[j]));
                    let w = choose|w: int|
                        0 <= w < s.drop_first().len() && s.drop_first()[w] == all[j];
                    assert(s[w + 1] == all[j]);
                }
            } else {
                assert(all[i] == rest[i - 1] && all[j] == rest[j - 1]);
            }
        }
        assert(s =~= seq![s[0]] + s.drop_first());
        vstd::seq_lib::lemma_multiset_commutative(seq![s[0]], s.drop_first());
        vstd::seq_lib::lemma_multiset_commutative(seq![s[0]], rest);
        assert(all.to_multiset() == s.to_multiset().insert(x)) by {
            assert(all.to_multiset() == seq![s[0]].to_multiset().add(rest.to_multiset()));
            assert(s.to_multiset() == seq![s[0]].to_multiset().add(s.drop_first().to_multiset()));
        }
    }
}

/// Sorting returns a sorted permutation of the input.
pub proof fn lemma_sort_seq(s: Seq<i64>)
    ensures
        is_sorted(sort_seq(s)),
        sort_seq(s).to_multiset() == s.to_multiset(),
        sort_seq(s).len() == s.len(),
    decreases s.len(),
{
    broadcast use group_to_multiset_ensures;

    if s.len() > 0 {
        lemma_sort_seq(s.drop_first());
        lemma_insert_sorted(s[0], sort_seq(s.drop_first()));
        assert(s =~= seq![s[0]] + s.drop_first());
        vstd::seq_lib::lemma_multiset_commutative(seq![s[0]], s.drop_first());
        assert(seq![s[0]].to_multiset() == Multiset::<i64>::empty().insert(s[0])) by {
            assert(seq![s[0]] =~= Seq::<i64>::empty().push(s[0]));
        }
        assert(s.to_multiset() == s.drop_first().to_multiset().insert(s[0])) by {
            assert(s.to_multiset() == seq![s[0]].to_multiset().add(s.drop_first().to_multiset()));
            assert(Multiset::<i64>::empty().insert(s[0]).add(s.drop_first().to_multiset())
                == s.drop_first().to_multiset().insert(s[0]));
        }
    }
}

/// Two sorted sequences over the same multiset of values are equal.
pub proof fn lemma_sorted_unique(x: Seq<i64>, y: Seq<i64>)
    requires
        is_sorted(x),
        is_sorted(y),
        x.to_multiset() == y.to_multiset(),
    ensures
        x == y,
    decreases x.len(),
{
    broadcast use group_to_multiset_ensures;

    if x.len() == 0 || y.len() == 0 {
        assert(x.to_multiset().len() == y.to_multiset().len());
        assert(x =~= y);
    } else {
        assert(x.to_multiset().contains(x[0]));
        assert(y.to_multiset().contains(y[0]));
        assert(x.contains(y[0]));
        assert(y.contains(x[0]));
        let i = choose|i: int| 0 <= i < x.len() && x[i] == y[0];
        let j = choose|j: int| 0 <= j < y.len() && y[j] == x[0];
        assert(x[0] <= x[i]);
        assert(y[0] <= y[j]);
        assert(x[0] == y[0]);
        assert(x.drop_first() =~= x.remove(0));
        assert(y.drop_first() =~= y.remove(0));
        vstd::seq_lib::to_multiset_remove(x, 0);
        vstd::seq_lib::to_multiset_remove(y, 0);
        lemma_sorted_unique(x.drop_first(), y.drop_first());
        assert(x.to_multiset().len() == x.len());
        assert(y.to_multiset().len() == y.len());
        assert(x.len() == y.len());
        assert forall|k: int| 0 <= k < x.len() implies x[k] == y[k] by {
            if k > 0 {
                assert(x[k] == x.drop_first()[k - 1]);
                assert(y[k] == y.drop_first()[k - 1]);
            }
        }
        assert(x =~= y);
    }
}

/// Sorts a copy of the sample.
pub fn sort_vec(v: &Vec<i64>) -> (r: Vec<i64>)
    ensures
        r@ == sort_seq(v@),
{
    broadcast use group_to_multiset_ensures;

    let mut out: Vec<i64> = Vec::new();
    let mut i: usize = 0;
    while i < v.len()
        invariant
            i <= v.len(),
            is_sorted(out@),
            out@.to_multiset() == v@.subrange(0, i as int).to_multiset(),
            out@.len() == i,
        decreases v.len() - i,
    {
        let x = v[i];
        let ghost prev = out@;
        let mut j: usize = 0;
        while j < out.len() && out[j] <= x
            invariant
                j <= out.len(),
                out@ == prev,
                forall|k: int| 0 <= k < j ==> out@[k] <= x,
            decreases out.len() - j,
        {
            j = j + 1;
        }
        out.insert(j, x);
        proof {
            assert(out@ == prev.insert(j as int, x));
            assert forall|p: int, q: int| 0 <= p < q < out@.len() implies out@[p] <= out@[q] by {
                assert(out@ =~= prev.subrange(0, j as int).push(x) + prev.subrange(
                    j as int,
                    prev.len() as int,
                ));
                if p < j && q < j {
                    assert(out@[p] == prev[p] && out@[q] == prev[q]);
                } else if p < j && q == j {
                    assert(out@[p] == prev[p] && out@[q] == x);
                } else if p < j && q > j {
                    assert(out@[p] == prev[p] && out@[q] == prev[q - 1]);
                } else if p == j && q > j {
                    assert(out@[p] == x && out@[q] == prev[q - 1]);
                    assert(prev[j as int] <= prev[q - 1]);
                } else if p > j {
                    assert(out@[p] == prev[p - 1] && out@[q] == prev[q - 1]);
                }
            }
            vstd::seq_lib::to_multiset_insert(prev, j as int, x);
            assert(v@.subrange(0, i as int + 1) =~= v@.subrange(0, i as int).push(x));
            vstd::seq_lib::to_multiset_build(v@.subrange(0, i as int), x);
        }
        i = i + 1;
    }
    proof {
        assert(v@.subrange(0, v@.len() as int) =~= v@);
        lemma_sort_seq(v@);
        lemma_sorted_unique(out@, sort_seq(v@));
    }
    out
}

} // verus!

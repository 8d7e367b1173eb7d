//! Grouping by sorting: the named positions sorted by name fall into runs
//! of equal names, one run per group. This finds the groups of a naming
//! (see `group_heads` and `group_members`) in `n log n` comparisons.
use vstd::prelude::*;
use vstd::relations::{sorted_by, total_ordering};
use crate::groups::{
    group_heads, group_members, head_pred, is_group_head, member_pred, name_key, name_keys,
    name_sort_keys, opt_strings_equal, opt_views,
};
use crate::library::{index_range, lemma_filter_range_count, lemma_filter_range_step};
use crate::text::opt_view;
use crate::order::{
    index_le, key_at, key_lt, lemma_count_distinct, lemma_index_le_total,
    lemma_is_sort_by, lemma_key_lt_irreflexive, lemma_key_lt_transitive, lemma_sorted_count,
    sort_indices, sorted_indices,
};

verus! {

// ---------------------------------------------------------------------
// Positions in the order of their names
// ---------------------------------------------------------------------

/// Whether a position has a name.
pub open spec fn named_pred(names: Seq<Option<Seq<char>>>) -> spec_fn(usize) -> bool {
    |i: usize| names[i as int] is Some
}

/// The positions that have a name, in increasing order.
pub open spec fn named_positions(names: Seq<Option<Seq<char>>>) -> Seq<usize> {
    index_range(names.len()).filter(named_pred(names))
}

/// `ord` lists each named position once, and nothing else, in the order
/// of the names, positions with equal names in increasing order.
pub open spec fn name_ordered(names: Seq<Option<Seq<char>>>, ord: Seq<usize>) -> bool {
    &&& sorted_by(ord, index_le(name_keys(names)))
    &&& forall|x: usize| #[trigger]
        ord.to_multiset().count(x) == if x < names.len() && names[x as int] is Some {
            1nat
        } else {
            0nat
        }
}

/// Positions `b..e` of `ord` make a run: they hold one name, and the
/// positions just outside hold other names.
pub open spec fn is_run(names: Seq<Option<Seq<char>>>, ord: Seq<usize>, b: int, e: int) -> bool {
    &&& 0 <= b < e <= ord.len()
    &&& forall|q: int| b <= q < e ==> #[trigger] names[ord[q] as int] == names[ord[b] as int]
    &&& b > 0 ==> names[ord[b - 1] as int] != names[ord[b] as int]
    &&& e < ord.len() ==> names[ord[e] as int] != names[ord[b] as int]
}

/// The named positions sorted by name are in name order.
pub proof fn lemma_name_order(names: Seq<Option<Seq<char>>>)
    requires
        names.len() <= usize::MAX,
    ensures
        name_ordered(names, sorted_indices(named_positions(names), name_keys(names))),
{
    let keys = name_keys(names);
    let items = named_positions(names);
    lemma_index_le_total(keys);
    items.lemma_sort_by_ensures(index_le(keys));
    assert forall|x: usize| #[trigger]
        sorted_indices(items, keys).to_multiset().count(x) == if x < names.len()
            && names[x as int] is Some {
            1nat
        } else {
            0nat
        } by {
        lemma_sorted_count(items, keys, x);
        lemma_filter_range_count(names.len(), named_pred(names), x);
    }
}

/// A position listed in name order is a named position.
pub proof fn lemma_ordered_elem(names: Seq<Option<Seq<char>>>, ord: Seq<usize>, q: int)
    requires
        name_ordered(names, ord),
        0 <= q < ord.len(),
    ensures
        ord[q] < names.len(),
        names[ord[q] as int] is Some,
{
    vstd::seq_lib::to_multiset_contains(ord, ord[q]);
    assert(ord.to_multiset().count(ord[q]) > 0);
}

/// A named position is listed in name order.
pub proof fn lemma_ordered_has(names: Seq<Option<Seq<char>>>, ord: Seq<usize>, x: usize) -> (q: int)
    requires
        name_ordered(names, ord),
        x < names.len(),
        names[x as int] is Some,
    ensures
        0 <= q < ord.len(),
        ord[q] == x,
{
    assert(ord.to_multiset().count(x) > 0);
    vstd::seq_lib::to_multiset_contains(ord, x);
    ord.index_of(x)
}

/// No position is listed twice in name order.
pub proof fn lemma_ordered_distinct(names: Seq<Option<Seq<char>>>, ord: Seq<usize>, p: int, q: int)
    requires
        name_ordered(names, ord),
        0 <= p < q < ord.len(),
    ensures
        ord[p] != ord[q],
{
    assert forall|x: usize| #[trigger] ord.to_multiset().count(x) <= 1 by {}
    lemma_count_distinct(ord, p, q);
}

/// Named positions with equal keys have equal names.
proof fn lemma_same_key_same_name(names: Seq<Option<Seq<char>>>, x: usize, y: usize)
    requires
        x < names.len(),
        y < names.len(),
        names[x as int] is Some,
        names[y as int] is Some,
    ensures
        (key_at(name_keys(names), x) == key_at(name_keys(names), y)) == (names[x as int]
            == names[y as int]),
{
    assert(key_at(name_keys(names), x) == name_key(names[x as int]));
    assert(key_at(name_keys(names), y) == name_key(names[y as int]));
    if name_key(names[x as int]) == name_key(names[y as int]) {
        assert(names[x as int]->0 == name_key(names[x as int]).first);
        assert(names[y as int]->0 == name_key(names[y as int]).first);
    }
}

/// In name order, a position between two with one name has that name.
pub proof fn lemma_ordered_contiguous(
    names: Seq<Option<Seq<char>>>,
    ord: Seq<usize>,
    p: int,
    r: int,
    q: int,
)
    requires
        name_ordered(names, ord),
        0 <= p <= r <= q < ord.len(),
        names[ord[p] as int] == names[ord[q] as int],
    ensures
        names[ord[r] as int] == names[ord[p] as int],
{
    let keys = name_keys(names);
    let le = index_le(keys);
    lemma_ordered_elem(names, ord, p);
    lemma_ordered_elem(names, ord, r);
    lemma_ordered_elem(names, ord, q);
    lemma_same_key_same_name(names, ord[p], ord[q]);
    lemma_same_key_same_name(names, ord[p], ord[r]);
    let kp = key_at(keys, ord[p]);
    let kr = key_at(keys, ord[r]);
    let kq = key_at(keys, ord[q]);
    if p < r {
        assert(le(ord[p], ord[r]));
    }
    if r < q {
        assert(le(ord[r], ord[q]));
    }
    if key_lt(kp, kr) {
        if key_lt(kr, kq) {
            lemma_key_lt_transitive(kp, kr, kq);
        }
        lemma_key_lt_irreflexive(kp);
    }
}

/// In name order, of two positions with one name the earlier is smaller.
pub proof fn lemma_ordered_same_name(names: Seq<Option<Seq<char>>>, ord: Seq<usize>, p: int, q: int)
    requires
        name_ordered(names, ord),
        0 <= p < q < ord.len(),
        names[ord[p] as int] == names[ord[q] as int],
    ensures
        ord[p] < ord[q],
{
    let keys = name_keys(names);
    lemma_ordered_elem(names, ord, p);
    lemma_ordered_elem(names, ord, q);
    lemma_same_key_same_name(names, ord[p], ord[q]);
    lemma_key_lt_irreflexive(key_at(keys, ord[p]));
    assert(index_le(keys)(ord[p], ord[q]));
    lemma_ordered_distinct(names, ord, p, q);
}

/// The first position of a run is the first position of its name.
pub proof fn lemma_run_start_is_head(
    names: Seq<Option<Seq<char>>>,
    ord: Seq<usize>,
    b: int,
    e: int,
)
    requires
        name_ordered(names, ord),
        is_run(names, ord, b, e),
    ensures
        is_group_head(names, ord[b] as int),
{
    let x = ord[b];
    lemma_ordered_elem(names, ord, b);
    assert forall|j: int| 0 <= j < x implies names[j] != names[x as int] by {
        if names[j] == names[x as int] {
            let q = lemma_ordered_has(names, ord, j as usize);
            if q < b {
                lemma_ordered_contiguous(names, ord, q, b - 1, b);
            } else if q > b {
                lemma_ordered_same_name(names, ord, b, q);
            }
        }
    }
}

/// A position of a run other than its first is not the first position of
/// its name.
pub proof fn lemma_run_rest_not_head(names: Seq<Option<Seq<char>>>, ord: Seq<usize>, q: int)
    requires
        name_ordered(names, ord),
        0 < q < ord.len(),
        names[ord[q - 1] as int] == names[ord[q] as int],
    ensures
        !is_group_head(names, ord[q] as int),
{
    lemma_ordered_same_name(names, ord, q - 1, q);
    lemma_ordered_elem(names, ord, q - 1);
}

/// The indices `0..n` that pass a test come in increasing order.
pub proof fn lemma_filter_range_sorted(n: nat, pred: spec_fn(usize) -> bool)
    requires
        n <= usize::MAX,
    ensures
        sorted_by(index_range(n).filter(pred), |a: usize, b: usize| a <= b),
        forall|k: int|
            0 <= k < index_range(n).filter(pred).len() ==> #[trigger] index_range(n).filter(
                pred,
            )[k] < n,
    decreases n,
{
    if n == 0 {
        reveal(Seq::filter);
        assert(index_range(0).filter(pred) =~= Seq::<usize>::empty());
    } else {
        let m = (n - 1) as nat;
        lemma_filter_range_sorted(m, pred);
        lemma_filter_range_step(m, pred);
    }
}

/// The order of indices is a total order.
pub proof fn lemma_usize_le_total()
    ensures
        total_ordering(|a: usize, b: usize| a <= b),
{
}

/// A run lists exactly the positions of its name, in increasing order.
pub proof fn lemma_run_is_group(names: Seq<Option<Seq<char>>>, ord: Seq<usize>, b: int, e: int)
    requires
        names.len() <= usize::MAX,
        name_ordered(names, ord),
        is_run(names, ord, b, e),
    ensures
        ord.subrange(b, e) == group_members(names, names[ord[b] as int]),
{
    let c = names[ord[b] as int];
    let run = ord.subrange(b, e);
    let members = group_members(names, c);
    let leq = |a: usize, b: usize| a <= b;
    lemma_ordered_elem(names, ord, b);
    lemma_filter_range_sorted(names.len(), member_pred(names, c));
    assert(sorted_by(run, leq)) by {
        assert forall|p: int, q: int| 0 <= p < q < run.len() implies #[trigger] leq(
            run[p],
            run[q],
        ) by {
            lemma_ordered_same_name(names, ord, b + p, b + q);
        }
    }
    let before = ord.take(b);
    let after = ord.skip(e);
    assert(ord =~= before + run + after);
    vstd::seq_lib::lemma_multiset_commutative(before + run, after);
    vstd::seq_lib::lemma_multiset_commutative(before, run);
    assert forall|x: usize| #[trigger] run.to_multiset().count(x) == members.to_multiset().count(
        x,
    ) by {
        lemma_filter_range_count(names.len(), member_pred(names, c), x);
        assert(ord.to_multiset().count(x) == before.to_multiset().count(x) + run.to_multiset().count(
            x,
        ) + after.to_multiset().count(x));
        if x < names.len() && names[x as int] == c {
            let q = lemma_ordered_has(names, ord, x);
            if q < b {
                lemma_ordered_contiguous(names, ord, q, b - 1, b);
            } else if q >= e {
                lemma_ordered_contiguous(names, ord, b, e, q);
            }
            assert(run[q - b] == x);
            vstd::seq_lib::to_multiset_contains(run, x);
        } else {
            if run.to_multiset().count(x) > 0 {
                vstd::seq_lib::to_multiset_contains(run, x);
                let k = run.index_of(x);
                assert(ord[b + k] == x);
                assert(names[ord[b + k] as int] == names[ord[b] as int]);
                lemma_ordered_elem(names, ord, b + k);
            }
        }
    }
    assert(run.to_multiset() =~= members.to_multiset());
    lemma_usize_le_total();
    vstd::seq_lib::lemma_sorted_unique(run, members, leq);
}

// ---------------------------------------------------------------------
// Finding the runs
// ---------------------------------------------------------------------

/// The named positions of a naming, in increasing order.
fn named_positions_of(names: &Vec<Option<String>>) -> (r: Vec<usize>)
    ensures
        r@ == named_positions(opt_views(names@)),
        forall|k: int| 0 <= k < r@.len() ==> #[trigger] r@[k] < names@.len(),
{
    let ghost nv = opt_views(names@);
    let mut r: Vec<usize> = Vec::new();
    let mut i: usize = 0;
    while i < names.len()
        invariant
            i <= names.len(),
            nv == opt_views(names@),
            r@ == index_range(i as nat).filter(named_pred(nv)),
            forall|k: int| 0 <= k < r@.len() ==> #[trigger] r@[k] < i,
        decreases names.len() - i,
    {
        proof {
            lemma_filter_range_step(i as nat, named_pred(nv));
            assert(nv[i as int] == opt_view(names@[i as int]));
        }
        if names[i].is_some() {
            r.push(i);
        }
        i = i + 1;
    }
    r
}

/// The groups of a naming, found as the runs of the named positions
/// sorted by name: the first position of each name, in the order of the
/// names, and beside each the positions of its name, in increasing order.
pub fn name_runs(names: &Vec<Option<String>>) -> (r: (Vec<usize>, Vec<Vec<usize>>))
    ensures
        r.0@ == sorted_indices(group_heads(opt_views(names@)), name_keys(opt_views(names@))),
        r.1@.len() == r.0@.len(),
        forall|t: int|
            0 <= t < r.1@.len() ==> #[trigger] r.1@[t]@ == group_members(
                opt_views(names@),
                opt_views(names@)[r.0@[t] as int],
            ),
        forall|t: int| 0 <= t < r.0@.len() ==> #[trigger] r.0@[t] < names@.len(),
        forall|t: int, q: int|
            0 <= t < r.1@.len() && 0 <= q < r.1@[t]@.len() ==> #[trigger] r.1@[t]@[q]
                < names@.len(),
{
    let ghost nv = opt_views(names@);
    let n = names.len();
    let items = named_positions_of(names);
    let keys = name_sort_keys(names);
    let ord = sort_indices(&items, &keys);
    let mut heads: Vec<usize> = Vec::new();
    let mut runs: Vec<Vec<usize>> = Vec::new();
    proof {
        assert(nv.len() == n);
        lemma_name_order(nv);
        assert(ord@.take(0) =~= Seq::<usize>::empty());
        assert forall|x: usize| #[trigger] heads@.to_multiset().count(x) == 0 by {
            vstd::seq_lib::to_multiset_contains(heads@, x);
        }
    }
    let ghost mut bounds: Seq<int> = seq![0int];
    let mut k: usize = 0;
    while k < ord.len()
        invariant
            nv == opt_views(names@),
            nv.len() == names@.len(),
            names@.len() == n,
            name_ordered(nv, ord@),
            forall|q: int| 0 <= q < ord@.len() ==> #[trigger] ord@[q] < names@.len(),
            k <= ord.len(),
            bounds.len() == runs@.len() + 1,
            heads@.len() == runs@.len(),
            bounds[0] == 0,
            bounds[runs@.len() as int] == k,
            forall|s: int, t: int|
                0 <= s < t <= runs@.len() ==> #[trigger] bounds[s] < #[trigger] bounds[t],
            forall|t: int|
                0 <= t < runs@.len() ==> #[trigger] is_run(nv, ord@, bounds[t], bounds[t + 1]),
            forall|t: int|
                0 <= t < runs@.len() ==> #[trigger] runs@[t]@ == ord@.subrange(
                    bounds[t],
                    bounds[t + 1],
                ),
            forall|t: int| 0 <= t < runs@.len() ==> #[trigger] heads@[t] == ord@[bounds[t]],
            forall|x: usize| #[trigger]
                heads@.to_multiset().count(x) == if is_group_head(nv, x as int) && ord@.take(
                    k as int,
                ).contains(x) {
                    1nat
                } else {
                    0nat
                },
        decreases ord.len() - k,
    {
        let start = k;
        let x = ord[k];
        let mut run: Vec<usize> = Vec::new();
        run.push(x);
        proof {
            assert(ord@.subrange(start as int, start + 1) =~= seq![x]);
        }
        k = k + 1;
        while k < ord.len() && opt_strings_equal(&names[ord[k]], &names[x])
            invariant
                nv == opt_views(names@),
                forall|q: int| 0 <= q < ord@.len() ==> #[trigger] ord@[q] < names@.len(),
                start < k <= ord.len(),
                x == ord@[start as int],
                run@ == ord@.subrange(start as int, k as int),
                forall|q: int| start <= q < k ==> #[trigger] nv[ord@[q] as int] == nv[x as int],
            decreases ord.len() - k,
        {
            proof {
                assert(nv[ord@[k as int] as int] == opt_view(names@[ord@[k as int] as int]));
                assert(nv[x as int] == opt_view(names@[x as int]));
            }
            run.push(ord[k]);
            proof {
                assert(ord@.subrange(start as int, k + 1) =~= ord@.subrange(
                    start as int,
                    k as int,
                ).push(ord@[k as int]));
            }
            k = k + 1;
        }
        proof {
            if k < ord.len() {
                assert(nv[ord@[k as int] as int] == opt_view(names@[ord@[k as int] as int]));
                assert(nv[x as int] == opt_view(names@[x as int]));
            }
            if start > 0 {
                let t = runs@.len() - 1;
                assert(is_run(nv, ord@, bounds[t], bounds[t + 1]));
                assert(bounds[t] < bounds[t + 1]);
                assert(nv[ord@[start - 1] as int] == nv[ord@[bounds[t]] as int]);
            }
            assert(is_run(nv, ord@, start as int, k as int));
            lemma_run_start_is_head(nv, ord@, start as int, k as int);
            let old_heads = heads@;
            assert forall|y: usize| #[trigger]
                old_heads.push(x).to_multiset().count(y) == if is_group_head(nv, y as int)
                    && ord@.take(k as int).contains(y) {
                    1nat
                } else {
                    0nat
                } by {
                vstd::seq_lib::to_multiset_build(old_heads, x);
                if y == x {
                    if ord@.take(start as int).contains(x) {
                        let q = ord@.take(start as int).index_of(x);
                        lemma_ordered_distinct(nv, ord@, q, start as int);
                    }
                    assert(ord@.take(k as int)[start as int] == x);
                } else {
                    if ord@.take(k as int).contains(y) && !ord@.take(start as int).contains(y) {
                        let q = ord@.take(k as int).index_of(y);
                        if q < start {
                            assert(ord@.take(start as int)[q] == y);
                        } else {
                            assert(q > start);
                            lemma_run_rest_not_head(nv, ord@, q);
                        }
                    }
                    if ord@.take(start as int).contains(y) {
                        let q = ord@.take(start as int).index_of(y);
                        assert(ord@.take(k as int)[q] == y);
                    }
                }
            }
        }
        heads.push(x);
        runs.push(run);
        proof {
            bounds = bounds.push(k as int);
        }
    }
    proof {
        let le = index_le(name_keys(nv));
        lemma_index_le_total(name_keys(nv));
        assert(ord@.take(k as int) =~= ord@);
        assert(sorted_by(heads@, le)) by {
            assert forall|s: int, t: int| 0 <= s < t < heads@.len() implies #[trigger] le(
                heads@[s],
                heads@[t],
            ) by {
                assert(bounds[s] < bounds[t]);
                assert(is_run(nv, ord@, bounds[t], bounds[t + 1]));
                assert(is_run(nv, ord@, bounds[s], bounds[s + 1]));
            }
        }
        assert forall|y: usize| #[trigger]
            heads@.to_multiset().count(y) == group_heads(nv).to_multiset().count(y) by {
            lemma_filter_range_count(nv.len(), head_pred(nv), y);
            if y < nv.len() && is_group_head(nv, y as int) {
                let q = lemma_ordered_has(nv, ord@, y);
            }
            if ord@.contains(y) {
                let q = ord@.index_of(y);
                lemma_ordered_elem(nv, ord@, q);
            }
        }
        assert(heads@.to_multiset() =~= group_heads(nv).to_multiset());
        lemma_is_sort_by(heads@, group_heads(nv), le);
        assert forall|t: int| 0 <= t < runs@.len() implies #[trigger] runs@[t]@ == group_members(
            nv,
            nv[heads@[t] as int],
        ) by {
            assert(is_run(nv, ord@, bounds[t], bounds[t + 1]));
            lemma_run_is_group(nv, ord@, bounds[t], bounds[t + 1]);
        }
        assert forall|t: int, q: int|
            0 <= t < runs@.len() && 0 <= q < runs@[t]@.len() implies #[trigger] runs@[t]@[q]
            < names@.len() by {
            assert(runs@[t]@[q] == ord@[bounds[t] + q]);
        }
        assert forall|t: int| 0 <= t < heads@.len() implies #[trigger] heads@[t] < names@.len() by {
            assert(is_run(nv, ord@, bounds[t], bounds[t + 1]));
        }
    }
    (heads, runs)
}

} // verus!

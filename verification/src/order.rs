//! Sort keys of the library views and the ordering of track (or group)
//! indices by them.
//!
//! A key has four parts compared in turn: two strings, a number and a
//! third string. Items with equal keys keep their index order, so sorting
//! the indices of a list with it is what a stable sort of the list by the
//! key does.
use vstd::prelude::*;
use vstd::relations::{sorted_by, total_ordering};
use vstd::seq_lib::{
    group_to_multiset_ensures, lemma_multiset_commutative, to_multiset_build, to_multiset_len,
};
use crate::text::{compare_chars, lemma_seq_lt_asymmetric, lemma_seq_lt_irreflexive,
    lemma_seq_lt_total, lemma_seq_lt_transitive, seq_lt, Cmp};

verus! {

/// A sort key: two strings, a number, and a last string.
pub struct SortKey {
    pub first: Vec<char>,
    pub second: Vec<char>,
    pub number: u32,
    pub last: Vec<char>,
}

/// The value of a sort key.
pub struct KeyView {
    pub first: Seq<char>,
    pub second: Seq<char>,
    pub number: u32,
    pub last: Seq<char>,
}

impl View for SortKey {
    type V = KeyView;

    open spec fn view(&self) -> KeyView {
        KeyView { first: self.first@, second: self.second@, number: self.number, last: self.last@ }
    }
}

/// The values of a list of keys.
pub open spec fn keys_view(keys: Seq<SortKey>) -> Seq<KeyView> {
    keys.map_values(|k: SortKey| k@)
}

/// Lexicographic "strictly less" on keys.
pub open spec fn key_lt(x: KeyView, y: KeyView) -> bool {
    ||| seq_lt(x.first, y.first)
    ||| x.first == y.first && seq_lt(x.second, y.second)
    ||| x.first == y.first && x.second == y.second && x.number < y.number
    ||| x.first == y.first && x.second == y.second && x.number == y.number && seq_lt(
        x.last,
        y.last,
    )
}

/// The key of an index; an index without a key has the smallest key.
pub open spec fn key_at(keys: Seq<KeyView>, i: usize) -> KeyView {
    if i < keys.len() {
        keys[i as int]
    } else {
        KeyView {
            first: Seq::<char>::empty(),
            second: Seq::<char>::empty(),
            number: 0,
            last: Seq::<char>::empty(),
        }
    }
}

/// The order of indices by their keys, equal keys ordered by index.
pub open spec fn index_le(keys: Seq<KeyView>) -> spec_fn(usize, usize) -> bool {
    |a: usize, b: usize|
        key_lt(key_at(keys, a), key_at(keys, b)) || (key_at(keys, a) == key_at(keys, b) && a
            <= b)
}

/// The indices `items` in the order of their keys.
pub open spec fn sorted_indices(items: Seq<usize>, keys: Seq<KeyView>) -> Seq<usize> {
    items.sort_by(index_le(keys))
}

/// No key is below itself.
pub proof fn lemma_key_lt_irreflexive(x: KeyView)
    ensures
        !key_lt(x, x),
{
    lemma_seq_lt_irreflexive(x.first);
    lemma_seq_lt_irreflexive(x.second);
    lemma_seq_lt_irreflexive(x.last);
}

/// Two keys are never below each other.
pub proof fn lemma_key_lt_asymmetric(x: KeyView, y: KeyView)
    requires
        key_lt(x, y),
    ensures
        !key_lt(y, x),
{
    lemma_seq_lt_irreflexive(x.first);
    lemma_seq_lt_irreflexive(x.second);
    lemma_seq_lt_irreflexive(x.last);
    if seq_lt(x.first, y.first) {
        lemma_seq_lt_asymmetric(x.first, y.first);
    }
    if seq_lt(x.second, y.second) {
        lemma_seq_lt_asymmetric(x.second, y.second);
    }
    if seq_lt(x.last, y.last) {
        lemma_seq_lt_asymmetric(x.last, y.last);
    }
}

/// The order of keys is transitive.
pub proof fn lemma_key_lt_transitive(x: KeyView, y: KeyView, z: KeyView)
    requires
        key_lt(x, y),
        key_lt(y, z),
    ensures
        key_lt(x, z),
{
    if seq_lt(x.first, y.first) && seq_lt(y.first, z.first) {
        lemma_seq_lt_transitive(x.first, y.first, z.first);
    }
    if seq_lt(x.second, y.second) && seq_lt(y.second, z.second) {
        lemma_seq_lt_transitive(x.second, y.second, z.second);
    }
    if seq_lt(x.last, y.last) && seq_lt(y.last, z.last) {
        lemma_seq_lt_transitive(x.last, y.last, z.last);
    }
}

/// Two distinct keys are ordered one way or the other.
pub proof fn lemma_key_lt_total(x: KeyView, y: KeyView)
    ensures
        x == y || key_lt(x, y) || key_lt(y, x),
{
    lemma_seq_lt_total(x.first, y.first);
    lemma_seq_lt_total(x.second, y.second);
    lemma_seq_lt_total(x.last, y.last);
}

/// The order of indices by key is a total order.
pub proof fn lemma_index_le_total(keys: Seq<KeyView>)
    ensures
        total_ordering(index_le(keys)),
{
    let le = index_le(keys);
    assert forall|a: usize| #[trigger] le(a, a) by {}
    assert forall|a: usize, b: usize| #[trigger] le(a, b) && #[trigger] le(b, a) implies a == b by {
        let ka = key_at(keys, a);
        let kb = key_at(keys, b);
        lemma_key_lt_irreflexive(ka);
        if key_lt(ka, kb) {
            lemma_key_lt_asymmetric(ka, kb);
        }
    }
    assert forall|a: usize, b: usize, c: usize| #[trigger] le(a, b) && #[trigger] le(b, c) implies le(
        a,
        c,
    ) by {
        let ka = key_at(keys, a);
        let kb = key_at(keys, b);
        let kc = key_at(keys, c);
        if key_lt(ka, kb) && key_lt(kb, kc) {
            lemma_key_lt_transitive(ka, kb, kc);
        }
    }
    assert forall|a: usize, b: usize| #[trigger] le(a, b) || #[trigger] le(b, a) by {
        lemma_key_lt_total(key_at(keys, a), key_at(keys, b));
    }
}

/// A sequence sorted by a total order, holding the elements of `items`
/// as often as `items` does, is `items` sorted by that order.
pub proof fn lemma_is_sort_by<A>(r: Seq<A>, items: Seq<A>, leq: spec_fn(A, A) -> bool)
    requires
        total_ordering(leq),
        sorted_by(r, leq),
        r.to_multiset() == items.to_multiset(),
    ensures
        r == items.sort_by(leq),
{
    items.lemma_sort_by_ensures(leq);
    vstd::seq_lib::lemma_sorted_unique(r, items.sort_by(leq), leq);
}

/// Sorting keeps how often each index occurs.
pub proof fn lemma_sorted_count(items: Seq<usize>, keys: Seq<KeyView>, x: usize)
    ensures
        sorted_indices(items, keys).to_multiset().count(x) == items.to_multiset().count(x),
{
    lemma_index_le_total(keys);
    items.lemma_sort_by_ensures(index_le(keys));
}

/// A sequence in which nothing occurs twice has no two equal elements.
pub proof fn lemma_count_distinct(s: Seq<usize>, p: int, q: int)
    requires
        0 <= p < q < s.len(),
        forall|x: usize| #[trigger] s.to_multiset().count(x) <= 1,
    ensures
        s[p] != s[q],
{
    if s[p] == s[q] {
        let a = s.take(q);
        let b = s.skip(q);
        assert(s =~= a + b);
        lemma_multiset_commutative(a, b);
        assert(a.contains(s[p])) by {
            assert(a[p] == s[p]);
        }
        assert(b.contains(s[q])) by {
            assert(b[0] == s[q]);
        }
        vstd::seq_lib::to_multiset_contains(a, s[p]);
        vstd::seq_lib::to_multiset_contains(b, s[q]);
        assert(s.to_multiset().count(s[p]) >= 2);
    }
}

/// Sorting indices that are the same up to order gives the same result.
pub proof fn lemma_sorted_indices_perm(a: Seq<usize>, b: Seq<usize>, keys: Seq<KeyView>)
    requires
        a.to_multiset() == b.to_multiset(),
    ensures
        sorted_indices(a, keys) == sorted_indices(b, keys),
{
    lemma_index_le_total(keys);
    a.lemma_sort_by_ensures(index_le(keys));
    b.lemma_sort_by_ensures(index_le(keys));
    vstd::seq_lib::lemma_sorted_unique(
        a.sort_by(index_le(keys)),
        b.sort_by(index_le(keys)),
        index_le(keys),
    );
}

/// Sorting keeps the number of items.
pub proof fn lemma_sorted_indices_len(items: Seq<usize>, keys: Seq<KeyView>)
    ensures
        sorted_indices(items, keys).len() == items.len(),
{
    lemma_index_le_total(keys);
    items.lemma_sort_by_ensures(index_le(keys));
    to_multiset_len(items);
    to_multiset_len(items.sort_by(index_le(keys)));
}

/// Three-way comparison of sort keys.
pub fn compare_keys(x: &SortKey, y: &SortKey) -> (r: Cmp)
    ensures
        (r == Cmp::Less) == key_lt(x@, y@),
        (r == Cmp::Equal) == (x@ == y@),
        (r == Cmp::Greater) == key_lt(y@, x@),
{
    proof {
        lemma_key_lt_irreflexive(x@);
        lemma_seq_lt_irreflexive(x.first@);
        lemma_seq_lt_irreflexive(x.second@);
        lemma_seq_lt_irreflexive(x.last@);
    }
    match compare_chars(&x.first, &y.first) {
        Cmp::Less => {
            proof {
                lemma_seq_lt_asymmetric(x.first@, y.first@);
            }
            return Cmp::Less;
        },
        Cmp::Greater => {
            proof {
                lemma_seq_lt_asymmetric(y.first@, x.first@);
            }
            return Cmp::Greater;
        },
        Cmp::Equal => {},
    }
    match compare_chars(&x.second, &y.second) {
        Cmp::Less => {
            proof {
                lemma_seq_lt_asymmetric(x.second@, y.second@);
            }
            return Cmp::Less;
        },
        Cmp::Greater => {
            proof {
                lemma_seq_lt_asymmetric(y.second@, x.second@);
            }
            return Cmp::Greater;
        },
        Cmp::Equal => {},
    }
    if x.number < y.number {
        return Cmp::Less;
    }
    if x.number > y.number {
        return Cmp::Greater;
    }
    match compare_chars(&x.last, &y.last) {
        Cmp::Less => {
            proof {
                lemma_seq_lt_asymmetric(x.last@, y.last@);
            }
            Cmp::Less
        },
        Cmp::Greater => {
            proof {
                lemma_seq_lt_asymmetric(y.last@, x.last@);
            }
            Cmp::Greater
        },
        Cmp::Equal => Cmp::Equal,
    }
}

/// Whether index `a` comes no later than index `b` by their keys.
pub fn index_le_exec(keys: &Vec<SortKey>, a: usize, b: usize) -> (r: bool)
    requires
        a < keys.len(),
        b < keys.len(),
    ensures
        r == index_le(keys_view(keys@))(a, b),
{
    let ghost kv = keys_view(keys@);
    assert(key_at(kv, a) == keys@[a as int]@);
    assert(key_at(kv, b) == keys@[b as int]@);
    match compare_keys(&keys[a], &keys[b]) {
        Cmp::Less => true,
        Cmp::Greater => {
            proof {
                lemma_key_lt_asymmetric(keys@[b as int]@, keys@[a as int]@);
                lemma_key_lt_irreflexive(keys@[a as int]@);
            }
            false
        },
        Cmp::Equal => {
            proof {
                lemma_key_lt_irreflexive(keys@[a as int]@);
            }
            a <= b
        },
    }
}

/// The indices `lo..hi` of `v`, copied.
fn copy_range(v: &Vec<usize>, lo: usize, hi: usize) -> (r: Vec<usize>)
    requires
        lo <= hi <= v.len(),
    ensures
        r@ == v@.subrange(lo as int, hi as int),
{
    let mut r: Vec<usize> = Vec::new();
    let mut i: usize = lo;
    while i < hi
        invariant
            lo <= i <= hi <= v.len(),
            r@ == v@.subrange(lo as int, i as int),
        decreases hi - i,
    {
        r.push(v[i]);
        proof {
            assert(v@.subrange(lo as int, i + 1) =~= v@.subrange(lo as int, i as int).push(
                v@[i as int],
            ));
        }
        i = i + 1;
    }
    r
}

/// Merges two lists of indices, each in key order, into one in key order.
fn merge_by_key(a: &Vec<usize>, b: &Vec<usize>, keys: &Vec<SortKey>) -> (r: Vec<usize>)
    requires
        forall|k: int| 0 <= k < a.len() ==> #[trigger] a@[k] < keys.len(),
        forall|k: int| 0 <= k < b.len() ==> #[trigger] b@[k] < keys.len(),
        sorted_by(a@, index_le(keys_view(keys@))),
        sorted_by(b@, index_le(keys_view(keys@))),
    ensures
        sorted_by(r@, index_le(keys_view(keys@))),
        r@.to_multiset() == a@.to_multiset().add(b@.to_multiset()),
        forall|k: int| 0 <= k < r.len() ==> #[trigger] r@[k] < keys.len(),
{
    broadcast use group_to_multiset_ensures;

    let ghost le = index_le(keys_view(keys@));
    proof {
        lemma_index_le_total(keys_view(keys@));
    }
    let mut r: Vec<usize> = Vec::new();
    let mut i: usize = 0;
    let mut j: usize = 0;
    while i < a.len() || j < b.len()
        invariant
            i <= a.len(),
            j <= b.len(),
            le == index_le(keys_view(keys@)),
            total_ordering(le),
            forall|k: int| 0 <= k < a.len() ==> #[trigger] a@[k] < keys.len(),
            forall|k: int| 0 <= k < b.len() ==> #[trigger] b@[k] < keys.len(),
            sorted_by(a@, le),
            sorted_by(b@, le),
            sorted_by(r@, le),
            r@.to_multiset() == a@.take(i as int).to_multiset().add(
                b@.take(j as int).to_multiset(),
            ),
            forall|k: int| 0 <= k < r.len() ==> #[trigger] r@[k] < keys.len(),
            r.len() > 0 && i < a.len() ==> le(r@.last(), a@[i as int]),
            r.len() > 0 && j < b.len() ==> le(r@.last(), b@[j as int]),
        decreases a.len() + b.len() - i - j,
    {
        let take_a = j >= b.len() || (i < a.len() && index_le_exec(keys, a[i], b[j]));
        let x = if take_a {
            a[i]
        } else {
            b[j]
        };
        let ghost old_r = r@;
        r.push(x);
        proof {
            assert forall|p: int, q: int| 0 <= p < q < r@.len() implies #[trigger] le(
                r@[p],
                r@[q],
            ) by {
                if q < old_r.len() {
                    assert(le(old_r[p], old_r[q]));
                } else if p < old_r.len() - 1 {
                    assert(le(old_r[p], old_r.last()));
                }
            }
            assert(r@ == old_r.push(x));
            to_multiset_build(old_r, x);
            if take_a {
                assert(a@.take(i + 1) =~= a@.take(i as int).push(x));
                to_multiset_build(a@.take(i as int), x);
                assert(r@.to_multiset() =~= a@.take(i + 1).to_multiset().add(
                    b@.take(j as int).to_multiset(),
                ));
                if i + 1 < a.len() {
                    assert(le(a@[i as int], a@[i + 1]));
                }
            } else {
                assert(b@.take(j + 1) =~= b@.take(j as int).push(x));
                to_multiset_build(b@.take(j as int), x);
                assert(r@.to_multiset() =~= a@.take(i as int).to_multiset().add(
                    b@.take(j + 1).to_multiset(),
                ));
                if i < a.len() {
                    assert(le(x, a@[i as int]));
                }
                if j + 1 < b.len() {
                    assert(le(b@[j as int], b@[j + 1]));
                }
            }
        }
        if take_a {
            i = i + 1;
        } else {
            j = j + 1;
        }
    }
    proof {
        assert(a@.take(i as int) =~= a@);
        assert(b@.take(j as int) =~= b@);
    }
    r
}

/// Sorts indices by their keys, merging sorted halves.
fn merge_sort_by_key(items: &Vec<usize>, keys: &Vec<SortKey>) -> (r: Vec<usize>)
    requires
        forall|i: int| 0 <= i < items.len() ==> #[trigger] items@[i] < keys.len(),
    ensures
        sorted_by(r@, index_le(keys_view(keys@))),
        r@.to_multiset() == items@.to_multiset(),
        forall|k: int| 0 <= k < r@.len() ==> #[trigger] r@[k] < keys.len(),
    decreases items.len(),
{
    let n = items.len();
    if n <= 1 {
        let r = copy_range(items, 0, n);
        proof {
            assert(r@ =~= items@);
        }
        return r;
    }
    let mid = n / 2;
    let left = copy_range(items, 0, mid);
    let right = copy_range(items, mid, n);
    let sorted_left = merge_sort_by_key(&left, keys);
    let sorted_right = merge_sort_by_key(&right, keys);
    let r = merge_by_key(&sorted_left, &sorted_right, keys);
    proof {
        assert(items@ =~= left@ + right@);
        vstd::seq_lib::lemma_multiset_commutative(left@, right@);
    }
    r
}

/// The indices `items` ordered by their keys (a stable sort by key of
/// indices given in increasing order).
pub fn sort_indices(items: &Vec<usize>, keys: &Vec<SortKey>) -> (r: Vec<usize>)
    requires
        forall|i: int| 0 <= i < items.len() ==> #[trigger] items@[i] < keys.len(),
    ensures
        r@ == sorted_indices(items@, keys_view(keys@)),
        forall|k: int| 0 <= k < r@.len() ==> #[trigger] r@[k] < keys.len(),
{
    let r = merge_sort_by_key(items, keys);
    proof {
        lemma_index_le_total(keys_view(keys@));
        lemma_is_sort_by(r@, items@, index_le(keys_view(keys@)));
    }
    r
}

} // verus!

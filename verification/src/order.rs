//! Sorting that keeps equal items in the order in which they came.

use vstd::prelude::*;

use crate::text::{comes_before, text_before};

verus! {

/// A key that items are sorted by. The order must be total up to keys that count as equal.
pub trait SortKey: Sized {
    /// Whether a key comes strictly before another.
    spec fn before(&self, other: &Self) -> bool;

    /// Whether this key comes strictly before `other`.
    fn precedes(&self, other: &Self) -> (r: bool)
        ensures
            r == self.before(other),
    ;

    /// No key comes before one that comes before it.
    proof fn asymmetric(a: &Self, b: &Self)
        requires
            a.before(b),
        ensures
            !b.before(a),
    ;

    /// Any third key comes after the first or before the last of two ordered keys.
    proof fn comparable(a: &Self, b: &Self, c: &Self)
        requires
            a.before(c),
        ensures
            a.before(b) || b.before(c),
    ;
}

impl SortKey for u64 {
    open spec fn before(&self, other: &Self) -> bool {
        *self < *other
    }

    fn precedes(&self, other: &Self) -> (r: bool) {
        *self < *other
    }

    proof fn asymmetric(a: &Self, b: &Self) {
    }

    proof fn comparable(a: &Self, b: &Self, c: &Self) {
    }
}

/// No text comes before one that comes before it.
pub proof fn lemma_text_asymmetric(a: Seq<char>, b: Seq<char>)
    requires
        text_before(a, b),
    ensures
        !text_before(b, a),
    decreases a.len(),
{
    if a.len() > 0 && a[0] == b[0] {
        lemma_text_asymmetric(a.drop_first(), b.drop_first());
    }
}

proof fn lemma_text_comparable(a: Seq<char>, b: Seq<char>, c: Seq<char>)
    requires
        text_before(a, c),
    ensures
        text_before(a, b) || text_before(b, c),
    decreases a.len(),
{
    if a.len() > 0 && b.len() > 0 {
        if a[0] == c[0] && a[0] == b[0] {
            lemma_text_comparable(a.drop_first(), b.drop_first(), c.drop_first());
        } else if a[0] != b[0] && !(a[0] < b[0]) {
            assert(b[0] < a[0] <= c[0]);
        }
    }
}

impl SortKey for String {
    open spec fn before(&self, other: &Self) -> bool {
        text_before(self@, other@)
    }

    fn precedes(&self, other: &Self) -> (r: bool) {
        comes_before(self.as_str(), other.as_str())
    }

    proof fn asymmetric(a: &Self, b: &Self) {
        lemma_text_asymmetric(a@, b@);
    }

    proof fn comparable(a: &Self, b: &Self, c: &Self) {
        lemma_text_comparable(a@, b@, c@);
    }
}

/// Whether item `a` stands before item `b` once the items are sorted: its key comes first, or the
/// keys count as equal and it came first.
pub open spec fn ranks<K: SortKey>(keys: Seq<K>, a: usize, b: usize) -> bool {
    ||| keys[a as int].before(&keys[b as int])
    ||| !keys[b as int].before(&keys[a as int]) && a < b
}

/// Whether `order` lists the positions of the first `n` keys, each once.
pub open spec fn lists_all(n: nat, order: Seq<usize>) -> bool {
    &&& order.len() == n
    &&& forall|i: int| 0 <= i < order.len() ==> #[trigger] order[i] < n
    &&& forall|v: usize| v < n ==> #[trigger] order.contains(v)
}

/// Whether `order` lists the positions of the keys in sorted order, equal keys as they came.
pub open spec fn is_stable_order<K: SortKey>(keys: Seq<K>, order: Seq<usize>) -> bool {
    &&& lists_all(keys.len(), order)
    &&& forall|i: int, j: int|
        0 <= i < j < order.len() ==> ranks(keys, #[trigger] order[i], #[trigger] order[j])
}

/// The positions of the keys in sorted order, equal keys as they came.
pub fn stable_order<K: SortKey>(keys: &Vec<K>) -> (order: Vec<usize>)
    ensures
        is_stable_order(keys@, order@),
{
    let mut order: Vec<usize> = Vec::new();
    let mut n: usize = 0;
    while n < keys.len()
        invariant
            n <= keys@.len(),
            lists_all(n as nat, order@),
            forall|i: int, j: int|
                0 <= i < j < order@.len() ==> ranks(keys@, #[trigger] order@[i], #[trigger] order@[j]),
        decreases keys@.len() - n,
    {
        let mut at: usize = order.len();
        while at > 0 && keys[n].precedes(&keys[order[at - 1]])
            invariant
                n < keys@.len(),
                at <= order@.len(),
                lists_all(n as nat, order@),
                forall|j: int|
                    at <= j < order@.len() ==> keys@[n as int].before(
                        &keys@[#[trigger] order@[j] as int],
                    ),
            decreases at,
        {
            at -= 1;
        }
        let ghost before = order@;
        order.insert(at, n);
        proof {
            assert forall|v: usize| v < n + 1 implies #[trigger] order@.contains(v) by {
                if v == n {
                    assert(order@[at as int] == v);
                } else {
                    assert(before.contains(v));
                    let k = choose|k: int| 0 <= k < before.len() && before[k] == v;
                    if k < at {
                        assert(order@[k] == v);
                    } else {
                        assert(order@[k + 1] == v);
                    }
                }
            }
            assert forall|i: int, j: int| 0 <= i < j < order@.len() implies ranks(
                keys@,
                #[trigger] order@[i],
                #[trigger] order@[j],
            ) by {
                if j == at {
                    let x = &keys@[order@[i] as int];
                    let last = &keys@[before[at - 1] as int];
                    let new = &keys@[n as int];
                    if new.before(x) {
                        K::comparable(new, last, x);
                        if i < at - 1 {
                            assert(ranks(keys@, before[i], before[at - 1]));
                            if x.before(last) {
                                K::asymmetric(x, last);
                            }
                        }
                    }
                } else if i == at {
                    assert(order@[j] == before[j - 1]);
                } else {
                    let bi = if i < at {
                        i
                    } else {
                        i - 1
                    };
                    let bj = if j < at {
                        j
                    } else {
                        j - 1
                    };
                    assert(ranks(keys@, before[bi], before[bj]));
                }
            }
        }
        n += 1;
    }
    order
}

/// There is one stable order: two lists that are each the stable order of the same keys are equal.
pub proof fn law_stable_order_is_unique<K: SortKey>(keys: Seq<K>, a: Seq<usize>, b: Seq<usize>)
    requires
        is_stable_order(keys, a),
        is_stable_order(keys, b),
    ensures
        a == b,
{
    lemma_same_prefix(keys, a, b, a.len() as int);
    assert(a =~= b);
}

proof fn lemma_same_prefix<K: SortKey>(keys: Seq<K>, a: Seq<usize>, b: Seq<usize>, n: int)
    requires
        is_stable_order(keys, a),
        is_stable_order(keys, b),
        0 <= n <= a.len(),
    ensures
        forall|i: int| 0 <= i < n ==> a[i] == b[i],
    decreases n,
{
    if n > 0 {
        let i = n - 1;
        lemma_same_prefix(keys, a, b, i);
        assert(b.contains(a[i]));
        assert(a.contains(b[i]));
        let j = choose|j: int| 0 <= j < b.len() && b[j] == a[i];
        let k = choose|k: int| 0 <= k < a.len() && a[k] == b[i];
        if j < i {
            lemma_irreflexive(keys, a[j]);
            assert(ranks(keys, a[j], a[i]));
        } else if k < i {
            lemma_irreflexive(keys, b[k]);
            assert(ranks(keys, b[k], b[i]));
        } else if j > i && k > i {
            assert(ranks(keys, a[i], a[k]));
            assert(ranks(keys, b[i], b[j]));
            let x = &keys[a[i] as int];
            let y = &keys[b[i] as int];
            if x.before(y) {
                K::asymmetric(x, y);
            }
            if y.before(x) {
                K::asymmetric(y, x);
            }
        }
    }
}

proof fn lemma_irreflexive<K: SortKey>(keys: Seq<K>, v: usize)
    ensures
        !ranks(keys, v, v),
{
    let k = &keys[v as int];
    if k.before(k) {
        K::asymmetric(k, k);
    }
}

/// Whether `sorted` holds the items in the order of their keys, items of equal keys as they came.
pub open spec fn is_sorted_by<T, K: SortKey>(items: Seq<T>, keys: Seq<K>, sorted: Seq<T>) -> bool {
    &&& keys.len() == items.len()
    &&& exists|order: Seq<usize>| #[trigger]
        is_stable_order(keys, order) && sorted == Seq::new(
            order.len(),
            |i: int| items[order[i] as int],
        )
}

/// There is one sorted list of items: two lists that each hold the items in the order of their keys
/// are equal.
pub proof fn law_sorting_is_unique<T, K: SortKey>(
    items: Seq<T>,
    keys: Seq<K>,
    a: Seq<T>,
    b: Seq<T>,
)
    requires
        is_sorted_by(items, keys, a),
        is_sorted_by(items, keys, b),
    ensures
        a == b,
{
    let x = choose|order: Seq<usize>| #[trigger]
        is_stable_order(keys, order) && a == Seq::new(order.len(), |i: int| items[order[i] as int]);
    let y = choose|order: Seq<usize>| #[trigger]
        is_stable_order(keys, order) && b == Seq::new(order.len(), |i: int| items[order[i] as int]);
    law_stable_order_is_unique(keys, x, y);
}

/// Sorting keeps every item and adds none.
pub proof fn law_sorting_keeps_the_items<T, K: SortKey>(
    items: Seq<T>,
    keys: Seq<K>,
    sorted: Seq<T>,
    x: T,
)
    requires
        is_sorted_by(items, keys, sorted),
        items.len() <= usize::MAX,
    ensures
        sorted.len() == items.len(),
        sorted.contains(x) == items.contains(x),
{
    let order = choose|order: Seq<usize>| #[trigger]
        is_stable_order(keys, order) && sorted == Seq::new(
            order.len(),
            |i: int| items[order[i] as int],
        );
    if items.contains(x) {
        let k = choose|k: int| 0 <= k < items.len() && items[k] == x;
        assert(order.contains(k as usize));
        let i = choose|i: int| 0 <= i < order.len() && order[i] == k as usize;
        assert(sorted[i] == x);
    }
    if sorted.contains(x) {
        let i = choose|i: int| 0 <= i < sorted.len() && sorted[i] == x;
        assert(items[order[i] as int] == x);
    }
}

/// Copies items in the order of their keys, items of equal keys as they came.
pub fn sort_by<T: Copy, K: SortKey>(items: &Vec<T>, keys: &Vec<K>) -> (r: Vec<T>)
    requires
        keys@.len() == items@.len(),
    ensures
        is_sorted_by(items@, keys@, r@),
{
    let order = stable_order(keys);
    let mut r: Vec<T> = Vec::new();
    let mut i: usize = 0;
    while i < order.len()
        invariant
            i <= order@.len(),
            lists_all(items@.len(), order@),
            r@.len() == i,
            forall|j: int| 0 <= j < i ==> #[trigger] r@[j] == items@[order@[j] as int],
        decreases order@.len() - i,
    {
        r.push(items[order[i]]);
        i += 1;
    }
    proof {
        assert(r@ =~= Seq::new(order@.len(), |i: int| items@[order@[i] as int]));
    }
    r
}

/// A stable order of numbers puts the smaller first and leaves equal ones as they came.
pub proof fn law_numbers_in_order(keys: Seq<u64>, order: Seq<usize>, i: int, j: int)
    requires
        is_stable_order(keys, order),
        0 <= i < j < order.len(),
    ensures
        keys[order[i] as int] <= keys[order[j] as int],
        keys[order[i] as int] == keys[order[j] as int] ==> order[i] < order[j],
        order.len() == keys.len(),
        order[i] < keys.len(),
{
    assert(ranks(keys, order[i], order[j]));
}

} // verus!

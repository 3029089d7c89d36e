//! Items of a list that have a property: the first of them, and all of them.

use vstd::prelude::*;

verus! {

/// The first position in `s`, not before `i`, of an item with the property `p`.
pub open spec fn first_from<T>(s: Seq<T>, p: spec_fn(T) -> bool, i: int) -> Option<int>
    decreases s.len() - i,
{
    if i < 0 || i >= s.len() {
        None
    } else if p(s[i]) {
        Some(i)
    } else {
        first_from(s, p, i + 1)
    }
}

/// The position of the first item with the property `p`.
pub open spec fn first_where<T>(s: Seq<T>, p: spec_fn(T) -> bool) -> Option<int> {
    first_from(s, p, 0)
}

/// `first_from` gives the first position with the property, where there is one.
pub proof fn lemma_first_from<T>(s: Seq<T>, p: spec_fn(T) -> bool, i: int)
    requires
        0 <= i,
    ensures
        match first_from(s, p, i) {
            Some(k) => i <= k < s.len() && p(s[k]) && forall|j: int| i <= j < k ==> !p(#[trigger] s[j]),
            None => forall|j: int| i <= j < s.len() ==> !p(#[trigger] s[j]),
        },
    decreases s.len() - i,
{
    if i < s.len() && !p(s[i]) {
        lemma_first_from(s, p, i + 1);
    }
}

/// A position that has the property, with none before it that has, is the first.
pub proof fn lemma_is_first<T>(s: Seq<T>, p: spec_fn(T) -> bool, i: int, k: int)
    requires
        0 <= i <= k < s.len(),
        p(s[k]),
        forall|j: int| i <= j < k ==> !p(#[trigger] s[j]),
    ensures
        first_from(s, p, i) == Some(k),
    decreases k - i,
{
    if i < k {
        assert(!p(s[i]));
        lemma_is_first(s, p, i + 1, k);
    }
}

/// Where no item from `i` on has the property, there is no first.
pub proof fn lemma_none_first<T>(s: Seq<T>, p: spec_fn(T) -> bool, i: int)
    requires
        0 <= i,
        forall|j: int| i <= j < s.len() ==> !p(#[trigger] s[j]),
    ensures
        first_from(s, p, i) is None,
    decreases s.len() - i,
{
    if i < s.len() {
        assert(!p(s[i]));
        lemma_none_first(s, p, i + 1);
    }
}

/// The items with the property `p`, in order.
pub open spec fn kept<T>(s: Seq<T>, p: spec_fn(T) -> bool) -> Seq<T>
    decreases s.len(),
{
    if s.len() == 0 {
        Seq::empty()
    } else if p(s.last()) {
        kept(s.drop_last(), p).push(s.last())
    } else {
        kept(s.drop_last(), p)
    }
}

/// The kept items of the first `n + 1` are those of the first `n` and, if it has the property, the
/// next one.
pub proof fn lemma_kept_step<T>(s: Seq<T>, p: spec_fn(T) -> bool, n: int)
    requires
        0 <= n < s.len(),
    ensures
        kept(s.take(n + 1), p) == (if p(s[n]) {
            kept(s.take(n), p).push(s[n])
        } else {
            kept(s.take(n), p)
        }),
{
    assert(s.take(n + 1).drop_last() =~= s.take(n));
    assert(s.take(n + 1).last() == s[n]);
}

/// An item is kept exactly if it is in the list and has the property.
pub proof fn lemma_kept_contains<T>(s: Seq<T>, p: spec_fn(T) -> bool, x: T)
    ensures
        kept(s, p).contains(x) <==> s.contains(x) && p(x),
    decreases s.len(),
{
    if s.len() > 0 {
        let r = s.drop_last();
        lemma_kept_contains(r, p, x);
        let k = kept(s, p);
        if k.contains(x) {
            let i = choose|i: int| 0 <= i < k.len() && k[i] == x;
            if i < kept(r, p).len() {
                assert(kept(r, p)[i] == x);
                assert(kept(r, p).contains(x));
                let j = choose|j: int| 0 <= j < r.len() && r[j] == x;
                assert(s[j] == x);
            } else {
                assert(x == s.last());
                assert(s[s.len() - 1] == x);
            }
        }
        if s.contains(x) && p(x) {
            let i = choose|i: int| 0 <= i < s.len() && s[i] == x;
            if i < r.len() {
                assert(r[i] == x);
                assert(kept(r, p).contains(x));
                let j = choose|j: int| 0 <= j < kept(r, p).len() && kept(r, p)[j] == x;
                assert(k[j] == x);
            } else {
                assert(k[k.len() - 1] == x);
            }
        }
    }
}

/// Keeping items repeats none.
pub proof fn lemma_kept_no_duplicates<T>(s: Seq<T>, p: spec_fn(T) -> bool)
    requires
        s.no_duplicates(),
    ensures
        kept(s, p).no_duplicates(),
    decreases s.len(),
{
    if s.len() > 0 {
        let r = s.drop_last();
        assert(r.no_duplicates());
        lemma_kept_no_duplicates(r, p);
        lemma_kept_contains(r, p, s.last());
        if r.contains(s.last()) {
            let i = choose|i: int| 0 <= i < r.len() && r[i] == s.last();
            assert(s[i] == s[s.len() - 1]);
        }
        assert(!kept(r, p).contains(s.last()));
        let k = kept(s, p);
        assert forall|i: int, j: int| 0 <= i < k.len() && 0 <= j < k.len() && i != j implies k[i]
            != k[j] by {
            if p(s.last()) {
                if i == k.len() - 1 {
                    assert(kept(r, p)[j] == k[j]);
                }
                if j == k.len() - 1 {
                    assert(kept(r, p)[i] == k[i]);
                }
            }
        }
    }
}

/// Where all items have the property, all are kept.
pub proof fn lemma_kept_all<T>(s: Seq<T>, p: spec_fn(T) -> bool)
    requires
        forall|i: int| 0 <= i < s.len() ==> p(#[trigger] s[i]),
    ensures
        kept(s, p) == s,
    decreases s.len(),
{
    if s.len() > 0 {
        let r = s.drop_last();
        assert forall|i: int| 0 <= i < r.len() implies p(#[trigger] r[i]) by {
            assert(r[i] == s[i]);
        }
        lemma_kept_all(r, p);
        assert(p(s[s.len() - 1]));
        assert(r.push(s.last()) =~= s);
    } else {
        assert(kept(s, p) =~= s);
    }
}

/// Keeping adds no item, and keeps the list as it is where it drops none.
pub proof fn lemma_kept_len<T>(s: Seq<T>, p: spec_fn(T) -> bool)
    ensures
        kept(s, p).len() <= s.len(),
        kept(s, p).len() == s.len() ==> kept(s, p) == s,
    decreases s.len(),
{
    if s.len() > 0 {
        lemma_kept_len(s.drop_last(), p);
        assert(s.drop_last().push(s.last()) =~= s);
    } else {
        assert(kept(s, p) =~= s);
    }
}

/// Keeping commutes with taking a part of each item, where the property is one of the part.
pub proof fn lemma_kept_mapped<A, B>(
    s: Seq<A>,
    t: Seq<B>,
    f: spec_fn(A) -> B,
    p: spec_fn(A) -> bool,
    q: spec_fn(B) -> bool,
)
    requires
        s.len() == t.len(),
        forall|i: int| 0 <= i < s.len() ==> #[trigger] t[i] == f(s[i]) && p(s[i]) == q(t[i]),
    ensures
        kept(s, p).len() == kept(t, q).len(),
        forall|i: int| 0 <= i < kept(s, p).len() ==> #[trigger] kept(t, q)[i] == f(kept(s, p)[i]),
    decreases s.len(),
{
    if s.len() > 0 {
        let r = s.drop_last();
        let u = t.drop_last();
        assert forall|i: int| 0 <= i < r.len() implies #[trigger] u[i] == f(r[i]) && p(r[i]) == q(
            u[i],
        ) by {
            assert(u[i] == t[i]);
            assert(r[i] == s[i]);
        }
        lemma_kept_mapped(r, u, f, p, q);
        assert(t[s.len() - 1] == f(s[s.len() - 1]));
    }
}

} // verus!

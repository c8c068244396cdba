//! Selecting the items of a sequence that meet a predicate, truncating a
//! sequence, and the facts about both that the directory proofs share.

use vstd::prelude::*;

verus! {

/// The items of `s` that meet `pred`, in the order of `s`.
#[verifier::opaque]
pub open spec fn select<T>(s: Seq<T>, pred: spec_fn(T) -> bool) -> Seq<T>
    decreases s.len(),
{
    if s.len() == 0 {
        Seq::empty()
    } else {
        let before = select(s.drop_last(), pred);
        if pred(s.last()) {
            before.push(s.last())
        } else {
            before
        }
    }
}

/// The first `n` items of `s`, or all of `s` where it has no more than `n`.
pub open spec fn truncated<T>(s: Seq<T>, n: nat) -> Seq<T> {
    if n < s.len() {
        s.take(n as int)
    } else {
        s
    }
}

/// A truncated sequence is a beginning of the sequence, no longer than the
/// bound.
pub proof fn lemma_truncated_members<T>(s: Seq<T>, n: nat)
    ensures
        truncated(s, n).len() <= n,
        truncated(s, n).len() <= s.len(),
        forall|i: int| 0 <= i < truncated(s, n).len() ==> #[trigger] truncated(s, n)[i] == s[i],
        forall|x: T| truncated(s, n).contains(x) ==> s.contains(x),
{
    assert forall|x: T| truncated(s, n).contains(x) implies s.contains(x) by {
        let i = choose|i: int| 0 <= i < truncated(s, n).len() && truncated(s, n)[i] == x;
        assert(s[i] == x);
    }
}

/// Nothing is selected from the empty sequence.
pub proof fn lemma_select_empty<T>(pred: spec_fn(T) -> bool)
    ensures
        select(Seq::<T>::empty(), pred) == Seq::<T>::empty(),
{
    reveal(select);
}

/// An item added at the end is selected at the end if it meets `pred`, and
/// not at all if it does not.
pub proof fn lemma_select_push<T>(s: Seq<T>, x: T, pred: spec_fn(T) -> bool)
    ensures
        select(s.push(x), pred) == if pred(x) {
            select(s, pred).push(x)
        } else {
            select(s, pred)
        },
{
    reveal(select);
    assert(s.push(x).drop_last() == s);
}

/// Selecting from one more item of `s`.
pub proof fn lemma_select_step<T>(s: Seq<T>, pred: spec_fn(T) -> bool, i: int)
    requires
        0 <= i < s.len(),
    ensures
        select(s.take(i + 1), pred) == if pred(s[i]) {
            select(s.take(i), pred).push(s[i])
        } else {
            select(s.take(i), pred)
        },
{
    assert(s.take(i + 1) == s.take(i).push(s[i]));
    lemma_select_push(s.take(i), s[i], pred);
}

/// Selecting from two sequences joined end to end selects from each.
pub proof fn lemma_select_concat<T>(a: Seq<T>, b: Seq<T>, pred: spec_fn(T) -> bool)
    ensures
        select(a + b, pred) == select(a, pred) + select(b, pred),
    decreases b.len(),
{
    if b.len() == 0 {
        lemma_select_empty(pred);
        assert(b == Seq::<T>::empty());
        assert(a + b == a);
        assert(select(a, pred) + Seq::<T>::empty() == select(a, pred));
    } else {
        let front = b.drop_last();
        lemma_select_concat(a, front, pred);
        assert(a + b == (a + front).push(b.last()));
        assert(b == front.push(b.last()));
        lemma_select_push(a + front, b.last(), pred);
        lemma_select_push(front, b.last(), pred);
        if pred(b.last()) {
            assert((select(a, pred) + select(front, pred)).push(b.last()) == select(a, pred)
                + select(front, pred).push(b.last()));
        }
    }
}

/// An item is selected exactly if it stands in `s` and meets `pred`.
pub proof fn lemma_select_members<T>(s: Seq<T>, pred: spec_fn(T) -> bool)
    ensures
        select(s, pred).len() <= s.len(),
        forall|x: T| #[trigger] select(s, pred).contains(x) <==> s.contains(x) && pred(x),
    decreases s.len(),
{
    reveal(select);
    if s.len() > 0 {
        let front = s.drop_last();
        let chosen = select(front, pred);
        lemma_select_members(front, pred);
        assert forall|x: T| #[trigger] select(s, pred).contains(x) <==> s.contains(x) && pred(
            x,
        ) by {
            if select(s, pred).contains(x) {
                let k = choose|k: int| 0 <= k < select(s, pred).len() && select(s, pred)[k] == x;
                if pred(s.last()) && k == chosen.len() {
                    assert(s[s.len() - 1] == x);
                } else {
                    assert(chosen[k] == x);
                    assert(chosen.contains(x));
                    let j = choose|j: int| 0 <= j < front.len() && front[j] == x;
                    assert(s[j] == x);
                }
            }
            if s.contains(x) && pred(x) {
                let j = choose|j: int| 0 <= j < s.len() && s[j] == x;
                if j == s.len() - 1 {
                    assert(select(s, pred)[chosen.len() as int] == x);
                } else {
                    assert(front[j] == x);
                    assert(chosen.contains(x));
                    let k = choose|k: int| 0 <= k < chosen.len() && chosen[k] == x;
                    assert(select(s, pred)[k] == x);
                }
            }
        }
    }
}

/// Where every item meets `pred`, all are selected.
pub proof fn lemma_select_all<T>(s: Seq<T>, pred: spec_fn(T) -> bool)
    requires
        forall|i: int| 0 <= i < s.len() ==> pred(#[trigger] s[i]),
    ensures
        select(s, pred) == s,
    decreases s.len(),
{
    reveal(select);
    if s.len() > 0 {
        let front = s.drop_last();
        assert forall|i: int| 0 <= i < front.len() implies pred(#[trigger] front[i]) by {
            assert(front[i] == s[i]);
        }
        lemma_select_all(front, pred);
        assert(pred(s[s.len() - 1]));
        assert(front.push(s.last()) == s);
    }
}

/// Where no item meets `pred`, none is selected.
pub proof fn lemma_select_none<T>(s: Seq<T>, pred: spec_fn(T) -> bool)
    requires
        forall|i: int| 0 <= i < s.len() ==> !pred(#[trigger] s[i]),
    ensures
        select(s, pred) == Seq::<T>::empty(),
    decreases s.len(),
{
    reveal(select);
    if s.len() > 0 {
        let front = s.drop_last();
        assert forall|i: int| 0 <= i < front.len() implies !pred(#[trigger] front[i]) by {
            assert(front[i] == s[i]);
        }
        lemma_select_none(front, pred);
        assert(!pred(s[s.len() - 1]));
    }
}

/// Replacing an item by one that meets `pred` only if the old one did cannot
/// make the selection longer.
pub proof fn lemma_select_update_len<T>(s: Seq<T>, pred: spec_fn(T) -> bool, i: int, x: T)
    requires
        0 <= i < s.len(),
        pred(x) ==> pred(s[i]),
    ensures
        select(s.update(i, x), pred).len() <= select(s, pred).len(),
    decreases s.len(),
{
    reveal(select);
    if i == s.len() - 1 {
        assert(s.update(i, x).drop_last() == s.drop_last());
    } else {
        lemma_select_update_len(s.drop_last(), pred, i, x);
        assert(s.update(i, x).drop_last() == s.drop_last().update(i, x));
    }
}

/// Of three sequences joined end to end, the selection is the first where
/// all of its items meet `pred` and none of the others does.
pub proof fn lemma_select_leaves_first<T>(a: Seq<T>, b: Seq<T>, c: Seq<T>, pred: spec_fn(T) -> bool)
    requires
        forall|i: int| 0 <= i < a.len() ==> pred(#[trigger] a[i]),
        forall|i: int| 0 <= i < b.len() ==> !pred(#[trigger] b[i]),
        forall|i: int| 0 <= i < c.len() ==> !pred(#[trigger] c[i]),
    ensures
        select(a + b + c, pred) == a,
{
    lemma_select_concat(a + b, c, pred);
    lemma_select_concat(a, b, pred);
    lemma_select_all(a, pred);
    lemma_select_none(b, pred);
    lemma_select_none(c, pred);
    assert(a + Seq::<T>::empty() + Seq::<T>::empty() == a);
}

/// Of three sequences joined end to end, the selection is the second where
/// all of its items meet `pred` and none of the others does.
pub proof fn lemma_select_leaves_second<T>(a: Seq<T>, b: Seq<T>, c: Seq<T>, pred: spec_fn(T) -> bool)
    requires
        forall|i: int| 0 <= i < a.len() ==> !pred(#[trigger] a[i]),
        forall|i: int| 0 <= i < b.len() ==> pred(#[trigger] b[i]),
        forall|i: int| 0 <= i < c.len() ==> !pred(#[trigger] c[i]),
    ensures
        select(a + b + c, pred) == b,
{
    lemma_select_concat(a + b, c, pred);
    lemma_select_concat(a, b, pred);
    lemma_select_none(a, pred);
    lemma_select_all(b, pred);
    lemma_select_none(c, pred);
    assert(Seq::<T>::empty() + b + Seq::<T>::empty() == b);
}

/// Of three sequences joined end to end, the selection is the third where
/// all of its items meet `pred` and none of the others does.
pub proof fn lemma_select_leaves_third<T>(a: Seq<T>, b: Seq<T>, c: Seq<T>, pred: spec_fn(T) -> bool)
    requires
        forall|i: int| 0 <= i < a.len() ==> !pred(#[trigger] a[i]),
        forall|i: int| 0 <= i < b.len() ==> !pred(#[trigger] b[i]),
        forall|i: int| 0 <= i < c.len() ==> pred(#[trigger] c[i]),
    ensures
        select(a + b + c, pred) == c,
{
    lemma_select_concat(a + b, c, pred);
    lemma_select_concat(a, b, pred);
    lemma_select_none(a, pred);
    lemma_select_none(b, pred);
    lemma_select_all(c, pred);
    assert(Seq::<T>::empty() + Seq::<T>::empty() + c == c);
}

} // verus!

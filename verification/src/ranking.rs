//! The orders in which peers are ranked, and a stable sort by them.
//!
//! Peers are ranked by their two timestamps. A missing timestamp counts as
//! earlier than any that is present.

use vstd::prelude::*;
use crate::peer::PeerInfo;
use crate::seq_facts::truncated;

verus! {

/// An order on peer records.
#[derive(Clone, Copy, Debug, PartialEq, Eq, Structural)]
pub enum PeerOrder {
    /// Latest `last_alive` first; among equals, earliest `last_failure` first.
    MostRecentlyAlive,
    /// Latest `last_failure` first; among equals, earliest `last_alive` first.
    MostRecentlyFailed,
    /// Earliest `last_failure` first; among equals, latest `last_alive` first.
    LeastRecentlyFailed,
}

/// A timestamp as an integer: `-1` where it is missing.
pub open spec fn rank(t: Option<u64>) -> int {
    match t {
        None => -1,
        Some(v) => v as int,
    }
}

/// The pair of integers by which `order` ranks a record, least first.
pub open spec fn sort_key(order: PeerOrder, p: PeerInfo) -> (int, int) {
    match order {
        PeerOrder::MostRecentlyAlive => (-rank(p.last_alive), rank(p.last_failure)),
        PeerOrder::MostRecentlyFailed => (-rank(p.last_failure), rank(p.last_alive)),
        PeerOrder::LeastRecentlyFailed => (rank(p.last_failure), -rank(p.last_alive)),
    }
}

/// Whether `order` ranks `a` strictly before `b`.
pub open spec fn comes_before(order: PeerOrder, a: PeerInfo, b: PeerInfo) -> bool {
    let ka = sort_key(order, a);
    let kb = sort_key(order, b);
    ka.0 < kb.0 || (ka.0 == kb.0 && ka.1 < kb.1)
}

/// Whether `order` ranks `a` and `b` alike.
pub open spec fn ranked_alike(order: PeerOrder, a: PeerInfo, b: PeerInfo) -> bool {
    sort_key(order, a) == sort_key(order, b)
}

/// Whether timestamp `x` is earlier than `y`.
fn earlier(x: Option<u64>, y: Option<u64>) -> (e: bool)
    ensures
        e == (rank(x) < rank(y)),
{
    match (x, y) {
        (None, None) => false,
        (None, Some(_)) => true,
        (Some(_), None) => false,
        (Some(a), Some(b)) => a < b,
    }
}

/// Whether the timestamps `x` and `y` are the same.
fn same_time(x: Option<u64>, y: Option<u64>) -> (e: bool)
    ensures
        e == (rank(x) == rank(y)),
{
    match (x, y) {
        (None, None) => true,
        (None, Some(_)) => false,
        (Some(_), None) => false,
        (Some(a), Some(b)) => a == b,
    }
}

/// Whether `order` ranks `a` strictly before `b`.
pub fn goes_before(order: PeerOrder, a: &PeerInfo, b: &PeerInfo) -> (before: bool)
    ensures
        before == comes_before(order, *a, *b),
{
    match order {
        PeerOrder::MostRecentlyAlive => earlier(b.last_alive, a.last_alive) || (same_time(
            a.last_alive,
            b.last_alive,
        ) && earlier(a.last_failure, b.last_failure)),
        PeerOrder::MostRecentlyFailed => earlier(b.last_failure, a.last_failure) || (same_time(
            a.last_failure,
            b.last_failure,
        ) && earlier(a.last_alive, b.last_alive)),
        PeerOrder::LeastRecentlyFailed => earlier(a.last_failure, b.last_failure) || (same_time(
            a.last_failure,
            b.last_failure,
        ) && earlier(b.last_alive, a.last_alive)),
    }
}

/// Whether no record of `s` is ranked strictly before one that stands earlier.
pub open spec fn is_sorted(s: Seq<PeerInfo>, order: PeerOrder) -> bool {
    forall|i: int, j: int| 0 <= i < j < s.len() ==> !comes_before(order, s[j], s[i])
}

/// Where `p` goes into the sorted sequence `s`: behind the last record that
/// it is not ranked strictly before.
#[verifier::opaque]
pub open spec fn insertion_point(s: Seq<PeerInfo>, p: PeerInfo, order: PeerOrder) -> int
    decreases s.len(),
{
    if s.len() > 0 && comes_before(order, p, s.last()) {
        insertion_point(s.drop_last(), p, order)
    } else {
        s.len() as int
    }
}

/// The records of `s` sorted by `order`, those ranked alike in the order in
/// which they stand in `s`.
#[verifier::opaque]
pub open spec fn sorted_by(s: Seq<PeerInfo>, order: PeerOrder) -> Seq<PeerInfo>
    decreases s.len(),
{
    if s.len() == 0 {
        s
    } else {
        let front = sorted_by(s.drop_last(), order);
        front.insert(insertion_point(front, s.last(), order), s.last())
    }
}

/// The insertion point lies in the sequence or at its end; `p` is ranked
/// strictly before every record from there on, and not before the one just
/// ahead of it.
pub proof fn lemma_insertion_point(s: Seq<PeerInfo>, p: PeerInfo, order: PeerOrder)
    ensures
        0 <= insertion_point(s, p, order) <= s.len(),
        forall|k: int|
            insertion_point(s, p, order) <= k < s.len() ==> comes_before(order, p, #[trigger] s[k]),
        insertion_point(s, p, order) > 0 ==> !comes_before(
            order,
            p,
            s[insertion_point(s, p, order) - 1],
        ),
    decreases s.len(),
{
    reveal(insertion_point);
    if s.len() > 0 && comes_before(order, p, s.last()) {
        lemma_insertion_point(s.drop_last(), p, order);
        assert forall|k: int| insertion_point(s, p, order) <= k < s.len() implies comes_before(
            order,
            p,
            #[trigger] s[k],
        ) by {
            if k < s.len() - 1 {
                assert(s.drop_last()[k] == s[k]);
            }
        }
        if insertion_point(s, p, order) > 0 {
            assert(s.drop_last()[insertion_point(s, p, order) - 1] == s[insertion_point(
                s,
                p,
                order,
            ) - 1]);
        }
    }
}

/// Sorting neither adds nor drops a record.
pub proof fn lemma_sorted_by_permutes(s: Seq<PeerInfo>, order: PeerOrder)
    ensures
        sorted_by(s, order).len() == s.len(),
        sorted_by(s, order).to_multiset() == s.to_multiset(),
    decreases s.len(),
{
    reveal(sorted_by);
    broadcast use vstd::seq_lib::to_multiset_insert;

    if s.len() > 0 {
        let front = sorted_by(s.drop_last(), order);
        lemma_sorted_by_permutes(s.drop_last(), order);
        lemma_insertion_point(front, s.last(), order);
        let at = insertion_point(front, s.last(), order);
        assert(front.insert(at, s.last()).to_multiset() == front.to_multiset().insert(s.last()));
        assert(s == s.drop_last().push(s.last()));
        vstd::seq_lib::to_multiset_build(s.drop_last(), s.last());
    }
}

/// A record stands in the sorted sequence exactly if it stands in the given
/// one.
pub proof fn lemma_sorted_by_contains(s: Seq<PeerInfo>, order: PeerOrder)
    ensures
        forall|p: PeerInfo| sorted_by(s, order).contains(p) <==> s.contains(p),
{
    lemma_sorted_by_permutes(s, order);
    assert forall|p: PeerInfo| sorted_by(s, order).contains(p) <==> s.contains(p) by {
        vstd::seq_lib::to_multiset_contains(s, p);
        vstd::seq_lib::to_multiset_contains(sorted_by(s, order), p);
    }
}

/// The sorted sequence is sorted.
pub proof fn lemma_sorted_by_is_sorted(s: Seq<PeerInfo>, order: PeerOrder)
    ensures
        is_sorted(sorted_by(s, order), order),
    decreases s.len(),
{
    reveal(sorted_by);
    if s.len() > 0 {
        let front = sorted_by(s.drop_last(), order);
        let p = s.last();
        lemma_sorted_by_is_sorted(s.drop_last(), order);
        lemma_insertion_point(front, p, order);
        let at = insertion_point(front, p, order);
        let out = front.insert(at, p);
        assert forall|i: int, j: int| 0 <= i < j < out.len() implies !comes_before(
            order,
            out[j],
            out[i],
        ) by {
            if j < at {
                assert(out[i] == front[i] && out[j] == front[j]);
            } else if j == at {
                assert(out[i] == front[i]);
                if i < at - 1 {
                    assert(!comes_before(order, front[at - 1], front[i]));
                }
            } else if i < at {
                assert(out[i] == front[i] && out[j] == front[j - 1]);
            } else if i == at {
                assert(out[j] == front[j - 1]);
            } else {
                assert(out[i] == front[i - 1] && out[j] == front[j - 1]);
            }
        }
    }
}

/// Sorting a sorted sequence changes nothing.
pub proof fn lemma_sorted_by_fixes_sorted(s: Seq<PeerInfo>, order: PeerOrder)
    requires
        is_sorted(s, order),
    ensures
        sorted_by(s, order) == s,
    decreases s.len(),
{
    reveal(sorted_by);
    reveal(insertion_point);
    if s.len() > 0 {
        let front = s.drop_last();
        assert forall|i: int, j: int| 0 <= i < j < front.len() implies !comes_before(
            order,
            front[j],
            front[i],
        ) by {
            assert(front[i] == s[i] && front[j] == s[j]);
        }
        lemma_sorted_by_fixes_sorted(front, order);
        if front.len() > 0 {
            assert(front.last() == s[s.len() - 2]);
            assert(s.last() == s[s.len() - 1]);
        }
        assert(insertion_point(front, s.last(), order) == front.len());
        assert(front.insert(front.len() as int, s.last()) == s);
    }
}

/// Sorting a sorted sequence that is short enough, and truncating it, changes
/// nothing.
pub proof fn lemma_sorted_truncated_fixes(s: Seq<PeerInfo>, order: PeerOrder, n: nat)
    requires
        is_sorted(s, order),
        s.len() <= n,
    ensures
        truncated(sorted_by(s, order), n) == s,
{
    lemma_sorted_by_fixes_sorted(s, order);
}

/// A sorted sequence that is truncated is sorted.
pub proof fn lemma_truncated_is_sorted(s: Seq<PeerInfo>, order: PeerOrder, n: nat)
    requires
        is_sorted(s, order),
    ensures
        is_sorted(truncated(s, n), order),
{
    let out = truncated(s, n);
    assert forall|i: int, j: int| 0 <= i < j < out.len() implies !comes_before(
        order,
        out[j],
        out[i],
    ) by {
        assert(out[i] == s[i] && out[j] == s[j]);
    }
}

/// The sort is stable: two records that stand in `s` in an order that
/// `order` does not object to stand in the same order in the sorted sequence.
/// Records that are ranked alike are such a pair.
pub proof fn lemma_sorted_by_keeps_order(s: Seq<PeerInfo>, order: PeerOrder, i: int, j: int) -> (at:
    (int, int))
    requires
        0 <= i < j < s.len(),
        !comes_before(order, s[j], s[i]),
    ensures
        0 <= at.0 < at.1 < sorted_by(s, order).len(),
        sorted_by(s, order)[at.0] == s[i],
        sorted_by(s, order)[at.1] == s[j],
    decreases s.len(),
{
    reveal(sorted_by);
    let front = sorted_by(s.drop_last(), order);
    let p = s.last();
    lemma_sorted_by_permutes(s.drop_last(), order);
    lemma_insertion_point(front, p, order);
    let slot = insertion_point(front, p, order);
    let out = front.insert(slot, p);
    if j < s.len() - 1 {
        assert(s.drop_last()[i] == s[i] && s.drop_last()[j] == s[j]);
        let inner = lemma_sorted_by_keeps_order(s.drop_last(), order, i, j);
        let a = if inner.0 < slot {
            inner.0
        } else {
            inner.0 + 1
        };
        let b = if inner.1 < slot {
            inner.1
        } else {
            inner.1 + 1
        };
        assert(out[a] == front[inner.0]);
        assert(out[b] == front[inner.1]);
        (a, b)
    } else {
        lemma_sorted_by_contains(s.drop_last(), order);
        assert(s.drop_last()[i] == s[i]);
        assert(s.drop_last().contains(s[i]));
        assert(front.contains(s[i]));
        let a = choose|a: int| 0 <= a < front.len() && front[a] == s[i];
        if a >= slot {
            assert(comes_before(order, p, front[a]));
        }
        assert(out[a] == front[a]);
        assert(out[slot] == p);
        (a, slot)
    }
}

/// Sorts the records by `order`. Records that are ranked alike keep the order
/// in which they stood.
pub fn sort_peers(peers: &mut Vec<PeerInfo>, order: PeerOrder)
    ensures
        final(peers)@ == sorted_by(old(peers)@, order),
{
    let n = peers.len();
    let mut out: Vec<PeerInfo> = Vec::new();
    let mut i: usize = 0;
    proof {
        reveal(sorted_by);
    }
    while i < n
        invariant
            n == peers.len(),
            i <= n,
            peers@ == old(peers)@,
            out@ == sorted_by(peers@.take(i as int), order),
        decreases n - i,
    {
        let p = peers[i];
        let mut at = out.len();
        assert(out@.take(at as int) == out@);
        while at > 0 && goes_before(order, &p, &out[at - 1])
            invariant
                at <= out.len(),
                insertion_point(out@, p, order) == insertion_point(out@.take(at as int), p, order),
            decreases at,
        {
            proof {
                reveal(insertion_point);
            }
            assert(out@.take(at as int).last() == out@[at - 1]);
            assert(out@.take(at as int).drop_last() == out@.take(at - 1));
            at -= 1;
        }
        proof {
            reveal(insertion_point);
            reveal(sorted_by);
            if at > 0 {
                assert(out@.take(at as int).last() == out@[at - 1]);
            }
            assert(insertion_point(out@, p, order) == at);
            assert(peers@.take(i + 1).drop_last() == peers@.take(i as int));
            assert(peers@.take(i + 1).last() == p);
        }
        out.insert(at, p);
        i += 1;
    }
    proof {
        assert(peers@.take(n as int) == peers@);
    }
    *peers = out;
}

} // verus!

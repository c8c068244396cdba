//! Directories in which no two records share an address: how selecting,
//! sorting, truncating and joining keep them so.

use vstd::prelude::*;
use crate::address::IpAddr;
use crate::peer::{PeerInfo, unique_ips, has_ip};
use crate::ranking::{
    PeerOrder, sorted_by, insertion_point, lemma_insertion_point, lemma_sorted_by_contains,
    lemma_sorted_by_permutes,
};
use crate::seq_facts::{select, truncated, lemma_select_members};

verus! {

/// In a directory without repeated addresses, an address belongs to one
/// record only.
pub proof fn lemma_same_ip_same_record(peers: Seq<PeerInfo>, x: PeerInfo, y: PeerInfo)
    requires
        unique_ips(peers),
        peers.contains(x),
        peers.contains(y),
        x.ip == y.ip,
    ensures
        x == y,
{
    let i = choose|i: int| 0 <= i < peers.len() && peers[i] == x;
    let j = choose|j: int| 0 <= j < peers.len() && peers[j] == y;
    assert(peers[i].ip == peers[j].ip);
}

/// A record of the directory has an address that the directory holds.
pub proof fn lemma_member_has_ip(peers: Seq<PeerInfo>, x: PeerInfo)
    requires
        peers.contains(x),
    ensures
        has_ip(peers, x.ip),
{
    let i = choose|i: int| 0 <= i < peers.len() && peers[i] == x;
    assert(peers[i].ip == x.ip);
}

/// Selecting from a directory without repeated addresses leaves none
/// repeated.
pub proof fn lemma_unique_select(peers: Seq<PeerInfo>, pred: spec_fn(PeerInfo) -> bool)
    requires
        unique_ips(peers),
    ensures
        unique_ips(select(peers, pred)),
    decreases peers.len(),
{
    reveal(select);
    if peers.len() > 0 {
        let front = peers.drop_last();
        let last = peers.last();
        assert(unique_ips(front)) by {
            assert forall|i: int, j: int|
                0 <= i < front.len() && 0 <= j < front.len() && i != j implies (
            #[trigger] front[i]).ip != (#[trigger] front[j]).ip by {
                assert(front[i] == peers[i] && front[j] == peers[j]);
            }
        }
        lemma_unique_select(front, pred);
        if pred(last) {
            let out = select(front, pred).push(last);
            lemma_select_members(front, pred);
            assert forall|i: int, j: int|
                0 <= i < out.len() && 0 <= j < out.len() && i != j implies (#[trigger] out[i]).ip
                != (#[trigger] out[j]).ip by {
                let m = select(front, pred).len() as int;
                if i < m && j < m {
                    assert(out[i] == select(front, pred)[i] && out[j] == select(front, pred)[j]);
                } else {
                    let k = if i < m {
                        i
                    } else {
                        j
                    };
                    assert(select(front, pred).contains(select(front, pred)[k]));
                    assert(front.contains(out[k]));
                    let at = choose|at: int| 0 <= at < front.len() && front[at] == out[k];
                    assert(peers[at] == out[k]);
                    assert(peers[peers.len() - 1] == last);
                }
            }
        }
    }
}

/// Putting a record with an address of its own into a directory without
/// repeated addresses leaves none repeated.
pub proof fn lemma_unique_insert(peers: Seq<PeerInfo>, at: int, p: PeerInfo)
    requires
        unique_ips(peers),
        !has_ip(peers, p.ip),
        0 <= at <= peers.len(),
    ensures
        unique_ips(peers.insert(at, p)),
{
    let out = peers.insert(at, p);
    assert forall|i: int, j: int| 0 <= i < out.len() && 0 <= j < out.len() && i != j implies (
    #[trigger] out[i]).ip != (#[trigger] out[j]).ip by {
        let a = if i < at {
            i
        } else {
            i - 1
        };
        let b = if j < at {
            j
        } else {
            j - 1
        };
        if i == at {
            assert(out[j] == peers[b]);
        } else if j == at {
            assert(out[i] == peers[a]);
        } else {
            assert(out[i] == peers[a] && out[j] == peers[b]);
        }
    }
}

/// Sorting a directory without repeated addresses leaves none repeated.
pub proof fn lemma_unique_sorted(peers: Seq<PeerInfo>, order: PeerOrder)
    requires
        unique_ips(peers),
    ensures
        unique_ips(sorted_by(peers, order)),
    decreases peers.len(),
{
    reveal(sorted_by);
    if peers.len() > 0 {
        let front = peers.drop_last();
        let last = peers.last();
        assert(unique_ips(front)) by {
            assert forall|i: int, j: int|
                0 <= i < front.len() && 0 <= j < front.len() && i != j implies (
            #[trigger] front[i]).ip != (#[trigger] front[j]).ip by {
                assert(front[i] == peers[i] && front[j] == peers[j]);
            }
        }
        lemma_unique_sorted(front, order);
        let sorted = sorted_by(front, order);
        lemma_sorted_by_contains(front, order);
        lemma_sorted_by_permutes(front, order);
        lemma_insertion_point(sorted, last, order);
        assert(!has_ip(sorted, last.ip)) by {
            if has_ip(sorted, last.ip) {
                let k = choose|k: int| 0 <= k < sorted.len() && (#[trigger] sorted[k]).ip == last.ip;
                assert(sorted.contains(sorted[k]));
                assert(front.contains(sorted[k]));
                let at = choose|at: int| 0 <= at < front.len() && front[at] == sorted[k];
                assert(peers[at] == sorted[k]);
                assert(peers[peers.len() - 1] == last);
            }
        }
        lemma_unique_insert(sorted, insertion_point(sorted, last, order), last);
    }
}

/// Truncating a directory without repeated addresses leaves none repeated.
pub proof fn lemma_unique_truncated(peers: Seq<PeerInfo>, n: nat)
    requires
        unique_ips(peers),
    ensures
        unique_ips(truncated(peers, n)),
{
    let out = truncated(peers, n);
    assert forall|i: int, j: int| 0 <= i < out.len() && 0 <= j < out.len() && i != j implies (
    #[trigger] out[i]).ip != (#[trigger] out[j]).ip by {
        assert(out[i] == peers[i] && out[j] == peers[j]);
    }
}

/// Two directories without repeated addresses, and without an address in
/// common, joined end to end have none repeated.
pub proof fn lemma_unique_concat(a: Seq<PeerInfo>, b: Seq<PeerInfo>)
    requires
        unique_ips(a),
        unique_ips(b),
        forall|i: int, j: int|
            0 <= i < a.len() && 0 <= j < b.len() ==> (#[trigger] a[i]).ip != (#[trigger] b[j]).ip,
    ensures
        unique_ips(a + b),
{
    let out = a + b;
    assert forall|i: int, j: int| 0 <= i < out.len() && 0 <= j < out.len() && i != j implies (
    #[trigger] out[i]).ip != (#[trigger] out[j]).ip by {
        if i < a.len() && j < a.len() {
            assert(out[i] == a[i] && out[j] == a[j]);
        } else if i < a.len() {
            assert(out[i] == a[i] && out[j] == b[j - a.len()]);
        } else if j < a.len() {
            assert(out[j] == a[j] && out[i] == b[i - a.len()]);
        } else {
            assert(out[i] == b[i - a.len()] && out[j] == b[j - a.len()]);
        }
    }
}

/// What is selected from a list of addresses without repeats has no repeats.
pub proof fn lemma_select_no_repeats(ips: Seq<IpAddr>, pred: spec_fn(IpAddr) -> bool)
    requires
        ips.no_duplicates(),
    ensures
        select(ips, pred).no_duplicates(),
    decreases ips.len(),
{
    reveal(select);
    if ips.len() > 0 {
        let front = ips.drop_last();
        assert(front.no_duplicates()) by {
            assert forall|i: int, j: int|
                0 <= i < front.len() && 0 <= j < front.len() && i != j implies front[i]
                != front[j] by {
                assert(front[i] == ips[i] && front[j] == ips[j]);
            }
        }
        lemma_select_no_repeats(front, pred);
        if pred(ips.last()) {
            let out = select(front, pred).push(ips.last());
            lemma_select_members(front, pred);
            assert forall|i: int, j: int|
                0 <= i < out.len() && 0 <= j < out.len() && i != j implies out[i] != out[j] by {
                let m = select(front, pred).len() as int;
                if i < m && j < m {
                    assert(out[i] == select(front, pred)[i] && out[j] == select(front, pred)[j]);
                } else {
                    let k = if i < m {
                        i
                    } else {
                        j
                    };
                    assert(select(front, pred).contains(select(front, pred)[k]));
                    assert(front.contains(out[k]));
                    let at = choose|at: int| 0 <= at < front.len() && front[at] == out[k];
                    assert(ips[at] == out[k]);
                    assert(ips[ips.len() - 1] == ips.last());
                }
            }
        }
    }
}

} // verus!

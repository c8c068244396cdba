//! Peer records, lookup by address, and the sums of connection counters over a
//! directory.

use vstd::prelude::*;
use crate::address::IpAddr;
use crate::seq_facts::select;

verus! {

/// What is known of one remote peer. The address identifies the record.
#[derive(Clone, Copy, Debug, PartialEq, Eq)]
pub struct PeerInfo {
    pub ip: IpAddr,
    /// A banned peer is refused inbound and dropped after an outbound handshake.
    pub banned: bool,
    /// A bootstrap peer is never evicted.
    pub bootstrap: bool,
    /// Milliseconds since the Unix epoch of the last successful interaction.
    pub last_alive: Option<u64>,
    /// Milliseconds since the Unix epoch of the last failed interaction.
    pub last_failure: Option<u64>,
    /// Whether the peer may be advertised to others.
    pub advertised: bool,
    pub active_out_connection_attempts: usize,
    pub active_out_connections: usize,
    pub active_in_connections: usize,
}

/// One of the three connection counters of a record.
#[derive(Clone, Copy, Debug, PartialEq, Eq, Structural)]
pub enum Counter {
    OutAttempts,
    OutConnections,
    InConnections,
}

impl PeerInfo {
    /// A peer is active when an attempt is in flight or a connection is
    /// established with it, in either direction.
    pub open spec fn is_active_spec(&self) -> bool {
        self.active_out_connection_attempts > 0 || self.active_out_connections > 0
            || self.active_in_connections > 0
    }

    /// Whether an attempt is in flight or a connection is established with
    /// this peer.
    #[verifier::when_used_as_spec(is_active_spec)]
    pub fn is_active(&self) -> (active: bool)
        ensures
            active == self.is_active_spec(),
    {
        self.active_out_connection_attempts > 0 || self.active_out_connections > 0
            || self.active_in_connections > 0
    }

    /// The value of one counter.
    pub open spec fn count(self, c: Counter) -> nat {
        match c {
            Counter::OutAttempts => self.active_out_connection_attempts as nat,
            Counter::OutConnections => self.active_out_connections as nat,
            Counter::InConnections => self.active_in_connections as nat,
        }
    }

    /// The record of a peer that was never heard of: no flag but `advertised`
    /// as given, no timestamp, no connection.
    pub open spec fn unconnected_spec(ip: IpAddr, advertised: bool) -> PeerInfo {
        PeerInfo {
            ip,
            banned: false,
            bootstrap: false,
            last_alive: None,
            last_failure: None,
            advertised,
            active_out_connection_attempts: 0,
            active_out_connections: 0,
            active_in_connections: 0,
        }
    }

    /// The record of a peer that was never heard of.
    #[verifier::when_used_as_spec(unconnected_spec)]
    pub fn unconnected(ip: IpAddr, advertised: bool) -> (p: PeerInfo)
        ensures
            p == PeerInfo::unconnected_spec(ip, advertised),
    {
        PeerInfo {
            ip,
            banned: false,
            bootstrap: false,
            last_alive: None,
            last_failure: None,
            advertised,
            active_out_connection_attempts: 0,
            active_out_connections: 0,
            active_in_connections: 0,
        }
    }

    /// The same record with its three counters at zero: what a peers file
    /// holds of it.
    pub open spec fn at_rest_spec(&self) -> PeerInfo {
        PeerInfo {
            active_out_connection_attempts: 0,
            active_out_connections: 0,
            active_in_connections: 0,
            ..*self
        }
    }

    /// The same record with its three counters at zero.
    #[verifier::when_used_as_spec(at_rest_spec)]
    pub fn at_rest(&self) -> (p: PeerInfo)
        ensures
            p == self.at_rest_spec(),
    {
        PeerInfo {
            ip: self.ip,
            banned: self.banned,
            bootstrap: self.bootstrap,
            last_alive: self.last_alive,
            last_failure: self.last_failure,
            advertised: self.advertised,
            active_out_connection_attempts: 0,
            active_out_connections: 0,
            active_in_connections: 0,
        }
    }
}

/// Whether some record of `peers` has the address `ip`.
pub open spec fn has_ip(peers: Seq<PeerInfo>, ip: IpAddr) -> bool {
    exists|i: int| 0 <= i < peers.len() && (#[trigger] peers[i]).ip == ip
}

/// Whether no two records of `peers` share an address.
pub open spec fn unique_ips(peers: Seq<PeerInfo>) -> bool {
    forall|i: int, j: int|
        0 <= i < peers.len() && 0 <= j < peers.len() && i != j ==> (#[trigger] peers[i]).ip != (
        #[trigger] peers[j]).ip
}

/// Whether `i` is the index of the first record of `peers` with the address
/// `ip`.
pub open spec fn is_first_with_ip(peers: Seq<PeerInfo>, ip: IpAddr, i: int) -> bool {
    &&& 0 <= i < peers.len()
    &&& peers[i].ip == ip
    &&& forall|j: int| 0 <= j < i ==> (#[trigger] peers[j]).ip != ip
}

/// The index of the first record with the address `ip`, if there is one.
pub open spec fn position_of(peers: Seq<PeerInfo>, ip: IpAddr) -> Option<int> {
    if exists|i: int| is_first_with_ip(peers, ip, i) {
        Some(choose|i: int| is_first_with_ip(peers, ip, i))
    } else {
        None
    }
}

/// The first index with a given address is the only one, so it is the position.
pub proof fn lemma_position_of_first(peers: Seq<PeerInfo>, ip: IpAddr, i: int)
    requires
        is_first_with_ip(peers, ip, i),
    ensures
        position_of(peers, ip) == Some(i),
{
    let k = choose|k: int| is_first_with_ip(peers, ip, k);
    assert(peers[i].ip == ip && peers[k].ip == ip);
    if k < i {
        assert(peers[k].ip != ip);
    }
    if i < k {
        assert(peers[i].ip != ip);
    }
}

/// A directory has a position for exactly the addresses it holds.
pub proof fn lemma_position_of_none(peers: Seq<PeerInfo>, ip: IpAddr)
    ensures
        position_of(peers, ip) is None <==> !has_ip(peers, ip),
        position_of(peers, ip) matches Some(i) ==> is_first_with_ip(peers, ip, i),
    decreases peers.len(),
{
    if has_ip(peers, ip) {
        let first = lemma_first_with_ip(peers, ip);
        assert(is_first_with_ip(peers, ip, first));
    } else {
        if exists|i: int| is_first_with_ip(peers, ip, i) {
            let i = choose|i: int| is_first_with_ip(peers, ip, i);
            assert(peers[i].ip == ip);
        }
    }
}

/// Among the records with a given address there is a first one.
pub proof fn lemma_first_with_ip(peers: Seq<PeerInfo>, ip: IpAddr) -> (first: int)
    requires
        has_ip(peers, ip),
    ensures
        is_first_with_ip(peers, ip, first),
    decreases peers.len(),
{
    let i = choose|i: int| 0 <= i < peers.len() && (#[trigger] peers[i]).ip == ip;
    let front = peers.take(i);
    if has_ip(front, ip) {
        let k = choose|k: int| 0 <= k < front.len() && (#[trigger] front[k]).ip == ip;
        assert(front[k] == peers[k]);
        let first = lemma_first_with_ip(front, ip);
        assert(front[first] == peers[first]);
        assert forall|j: int| 0 <= j < first implies (#[trigger] peers[j]).ip != ip by {
            assert(front[j] == peers[j]);
        }
        first
    } else {
        assert forall|j: int| 0 <= j < i implies (#[trigger] peers[j]).ip != ip by {
            assert(front[j] == peers[j]);
        }
        i
    }
}

/// Looks up the record with the address `ip`.
pub fn find_peer(peers: &Vec<PeerInfo>, ip: IpAddr) -> (found: Option<usize>)
    ensures
        found matches Some(i) ==> position_of(peers@, ip) == Some(i as int),
        found is None ==> position_of(peers@, ip) is None,
{
    let n = peers.len();
    let mut i: usize = 0;
    while i < n
        invariant
            n == peers.len(),
            i <= n,
            forall|j: int| 0 <= j < i ==> (#[trigger] peers@[j]).ip != ip,
        decreases n - i,
    {
        if peers[i].ip == ip {
            proof {
                lemma_position_of_first(peers@, ip, i as int);
            }
            return Some(i);
        }
        i += 1;
    }
    proof {
        lemma_position_of_none(peers@, ip);
    }
    None
}

/// The sum of one counter over the records of a directory.
pub open spec fn total(peers: Seq<PeerInfo>, c: Counter) -> nat
    decreases peers.len(),
{
    if peers.len() == 0 {
        0
    } else {
        total(peers.drop_last(), c) + peers.last().count(c)
    }
}

/// Adding a record adds its counter to the sum.
pub proof fn lemma_total_push(peers: Seq<PeerInfo>, p: PeerInfo, c: Counter)
    ensures
        total(peers.push(p), c) == total(peers, c) + p.count(c),
{
    assert(peers.push(p).drop_last() == peers);
}

/// Replacing a record changes the sum by the difference of the counters.
pub proof fn lemma_total_update(peers: Seq<PeerInfo>, i: int, p: PeerInfo, c: Counter)
    requires
        0 <= i < peers.len(),
    ensures
        total(peers.update(i, p), c) == total(peers, c) - peers[i].count(c) + p.count(c),
        peers[i].count(c) <= total(peers, c),
    decreases peers.len(),
{
    if i == peers.len() - 1 {
        assert(peers.update(i, p).drop_last() == peers.drop_last());
    } else {
        lemma_total_update(peers.drop_last(), i, p, c);
        assert(peers.update(i, p).drop_last() == peers.drop_last().update(i, p));
    }
}

/// The sum over two directories put end to end is the sum of their sums.
pub proof fn lemma_total_concat(a: Seq<PeerInfo>, b: Seq<PeerInfo>, c: Counter)
    ensures
        total(a + b, c) == total(a, c) + total(b, c),
    decreases b.len(),
{
    if b.len() == 0 {
        assert(a + b == a);
    } else {
        lemma_total_concat(a, b.drop_last(), c);
        assert((a + b).drop_last() == a + b.drop_last());
    }
}

/// Where every record has the counter at zero, so is the sum.
pub proof fn lemma_total_zero(peers: Seq<PeerInfo>, c: Counter)
    requires
        forall|i: int| 0 <= i < peers.len() ==> (#[trigger] peers[i]).count(c) == 0,
    ensures
        total(peers, c) == 0,
    decreases peers.len(),
{
    if peers.len() > 0 {
        assert(peers.last() == peers[peers.len() - 1]);
        assert forall|i: int| 0 <= i < peers.drop_last().len() implies (
        #[trigger] peers.drop_last()[i]).count(c) == 0 by {
            assert(peers.drop_last()[i] == peers[i]);
        }
        lemma_total_zero(peers.drop_last(), c);
    }
}

/// Two directories whose records agree on a counter, place by place, have the
/// same sum.
pub proof fn lemma_total_pointwise(a: Seq<PeerInfo>, b: Seq<PeerInfo>, c: Counter)
    requires
        a.len() == b.len(),
        forall|i: int| 0 <= i < a.len() ==> (#[trigger] a[i]).count(c) == b[i].count(c),
    ensures
        total(a, c) == total(b, c),
    decreases a.len(),
{
    if a.len() > 0 {
        assert(a.last() == a[a.len() - 1]);
        assert(b.last() == b[b.len() - 1]);
        assert forall|i: int| 0 <= i < a.drop_last().len() implies (
        #[trigger] a.drop_last()[i]).count(c) == b.drop_last()[i].count(c) by {
            assert(a.drop_last()[i] == a[i]);
            assert(b.drop_last()[i] == b[i]);
        }
        lemma_total_pointwise(a.drop_last(), b.drop_last(), c);
    }
}

/// Leaving out records whose counter is zero does not change the sum.
pub proof fn lemma_total_select(peers: Seq<PeerInfo>, keep: spec_fn(PeerInfo) -> bool, c: Counter)
    requires
        forall|i: int| 0 <= i < peers.len() && !keep(#[trigger] peers[i]) ==> peers[i].count(c) == 0,
    ensures
        total(select(peers, keep), c) == total(peers, c),
    decreases peers.len(),
{
    reveal(select);
    if peers.len() > 0 {
        let front = peers.drop_last();
        assert(peers.last() == peers[peers.len() - 1]);
        assert forall|i: int| 0 <= i < front.len() && !keep(#[trigger] front[i]) implies front[i].count(
            c,
        ) == 0 by {
            assert(front[i] == peers[i]);
        }
        lemma_total_select(front, keep, c);
        if keep(peers.last()) {
            lemma_total_push(select(front, keep), peers.last(), c);
        }
    }
}

} // verus!

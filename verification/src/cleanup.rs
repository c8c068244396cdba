//! The cleanup policy: which records a directory retains, and which new
//! addresses it takes in.
//!
//! Cleanup marks the records whose addresses are offered again as advertised,
//! sorts the records into three classes, sorts and truncates the two classes
//! of records without connections, and puts the directory together again:
//! the kept records first, then the banned ones, then the idle ones.

use vstd::prelude::*;
use itertools::Itertools;
use crate::address::{IpAddr, address_key, lemma_address_key_injective};
use crate::cleanup_laws::lemma_first_occurrences;
use crate::config::NetworkConfig;
use crate::peer::{PeerInfo, has_ip, find_peer, lemma_position_of_none};
use crate::ranking::{PeerOrder, sorted_by, sort_peers};
use crate::seq_facts::{select, truncated, lemma_select_step};

verus! {

/// `ips` without its repeats: of equal addresses the first stays, and the
/// order of what stays is that of `ips`.
pub open spec fn first_occurrences(ips: Seq<IpAddr>) -> Seq<IpAddr>
    decreases ips.len(),
{
    if ips.len() == 0 {
        ips
    } else {
        let front = first_occurrences(ips.drop_last());
        if front.contains(ips.last()) {
            front
        } else {
            front.push(ips.last())
        }
    }
}

/// Whether an address with the key of `ip` stands in `ips`.
pub open spec fn has_key_of(ips: Seq<IpAddr>, ip: IpAddr) -> bool {
    exists|i: int| 0 <= i < ips.len() && address_key(#[trigger] ips[i]) == address_key(ip)
}

/// The addresses of `ips` whose key no earlier address of `ips` has, in the
/// order of `ips`.
pub open spec fn first_of_each_key(ips: Seq<IpAddr>) -> Seq<IpAddr>
    decreases ips.len(),
{
    if ips.len() == 0 {
        ips
    } else {
        let front = first_of_each_key(ips.drop_last());
        if has_key_of(ips.drop_last(), ips.last()) {
            front
        } else {
            front.push(ips.last())
        }
    }
}

/// Calls `itertools::Itertools::unique_by` on the addresses, keyed by
/// [`IpAddr::key`], and collects what it yields.
///
/// Trusted: the adaptor yields an item exactly if no earlier item had the
/// same key, and yields the items in the order of the input.
#[verifier::external_body]
fn unique_by_key(ips: &Vec<IpAddr>) -> (listed: Vec<IpAddr>)
    ensures
        listed@ == first_of_each_key(ips@),
{
    ips.iter().copied().unique_by(|ip| ip.key()).collect()
}

/// Two addresses have the same key only if they are the same, so the first
/// address of each key is the first occurrence of each address.
pub proof fn lemma_first_of_each_key(ips: Seq<IpAddr>)
    ensures
        first_of_each_key(ips) == first_occurrences(ips),
    decreases ips.len(),
{
    if ips.len() > 0 {
        let front = ips.drop_last();
        let last = ips.last();
        lemma_first_of_each_key(front);
        lemma_first_occurrences(front);
        if has_key_of(front, last) {
            let i = choose|i: int|
                0 <= i < front.len() && address_key(#[trigger] front[i]) == address_key(last);
            lemma_address_key_injective(front[i], last);
            assert(front.contains(last));
        }
        if front.contains(last) {
            let i = choose|i: int| 0 <= i < front.len() && front[i] == last;
            assert(address_key(front[i]) == address_key(last));
        }
    }
}

/// The addresses without their repeats.
pub fn unique_addresses(ips: &Vec<IpAddr>) -> (listed: Vec<IpAddr>)
    ensures
        listed@ == first_occurrences(ips@),
{
    proof {
        lemma_first_of_each_key(ips@);
    }
    unique_by_key(ips)
}

/// A record that cleanup keeps whatever the caps are: it has an address that
/// the configuration admits, and it is a bootstrap peer or active.
pub open spec fn is_kept(cfg: NetworkConfig, p: PeerInfo) -> bool {
    cfg.admits(p.ip) && (p.bootstrap || p.is_active())
}

/// A banned record without connections, subject to `max_banned_peers`.
pub open spec fn is_banned_idle(cfg: NetworkConfig, p: PeerInfo) -> bool {
    cfg.admits(p.ip) && !p.bootstrap && !p.is_active() && p.banned
}

/// An advertised record without connections that is not banned, subject to
/// `max_idle_peers`.
pub open spec fn is_idle(cfg: NetworkConfig, p: PeerInfo) -> bool {
    cfg.admits(p.ip) && !p.bootstrap && !p.is_active() && !p.banned && p.advertised
}

/// [`is_kept`] as a predicate on records.
pub open spec fn kept_class(cfg: NetworkConfig) -> spec_fn(PeerInfo) -> bool {
    |p: PeerInfo| is_kept(cfg, p)
}

/// [`is_banned_idle`] as a predicate on records.
pub open spec fn banned_class(cfg: NetworkConfig) -> spec_fn(PeerInfo) -> bool {
    |p: PeerInfo| is_banned_idle(cfg, p)
}

/// [`is_idle`] as a predicate on records.
pub open spec fn idle_class(cfg: NetworkConfig) -> spec_fn(PeerInfo) -> bool {
    |p: PeerInfo| is_idle(cfg, p)
}

/// The directory with the flag `advertised` set on every record whose address
/// is among `ips`.
pub open spec fn with_advertised(peers: Seq<PeerInfo>, ips: Seq<IpAddr>) -> Seq<PeerInfo> {
    Seq::new(
        peers.len(),
        |i: int|
            if ips.contains(peers[i].ip) {
                PeerInfo { advertised: true, ..peers[i] }
            } else {
                peers[i]
            },
    )
}

/// Whether `ip` may enter the directory as a new peer: the configuration
/// admits it and no record has it.
pub open spec fn is_new_candidate(cfg: NetworkConfig, peers: Seq<PeerInfo>, ip: IpAddr) -> bool {
    cfg.admits(ip) && !has_ip(peers, ip)
}

/// [`is_new_candidate`] as a predicate on addresses.
pub open spec fn candidate_class(cfg: NetworkConfig, peers: Seq<PeerInfo>) -> spec_fn(
    IpAddr,
) -> bool {
    |ip: IpAddr| is_new_candidate(cfg, peers, ip)
}

/// The addresses of `ips` that enter the directory: the first occurrences of
/// the new candidates, no more than `max_advertise_length` of them.
pub open spec fn new_candidates(cfg: NetworkConfig, peers: Seq<PeerInfo>, ips: Seq<IpAddr>) -> Seq<
    IpAddr,
> {
    truncated(
        select(first_occurrences(ips), candidate_class(cfg, peers)),
        cfg.max_advertise_length as nat,
    )
}

/// One advertised record without history for each address.
pub open spec fn fresh_records(ips: Seq<IpAddr>) -> Seq<PeerInfo> {
    Seq::new(ips.len(), |i: int| PeerInfo::unconnected_spec(ips[i], true))
}

/// The banned records without connections that are retained: those with the
/// latest failures.
pub open spec fn retained_banned(cfg: NetworkConfig, peers: Seq<PeerInfo>) -> Seq<PeerInfo> {
    truncated(
        sorted_by(select(peers, banned_class(cfg)), PeerOrder::MostRecentlyFailed),
        cfg.max_banned_peers as nat,
    )
}

/// The idle records that are retained, of those in the directory and the
/// `fresh` ones: those that were alive last. Among records that are ranked
/// alike, those of the directory go first.
pub open spec fn retained_idle(cfg: NetworkConfig, peers: Seq<PeerInfo>, fresh: Seq<PeerInfo>) -> Seq<
    PeerInfo,
> {
    truncated(
        sorted_by(select(peers, idle_class(cfg)) + fresh, PeerOrder::MostRecentlyAlive),
        cfg.max_idle_peers as nat,
    )
}

/// The directory after cleanup, with `ips` offered as new peers.
pub open spec fn cleaned(cfg: NetworkConfig, peers: Seq<PeerInfo>, ips: Seq<IpAddr>) -> Seq<
    PeerInfo,
> {
    let marked = with_advertised(peers, ips);
    let fresh = fresh_records(new_candidates(cfg, peers, ips));
    select(marked, kept_class(cfg)) + retained_banned(cfg, marked) + retained_idle(
        cfg,
        marked,
        fresh,
    )
}

/// Whether `ip` is among `ips`.
fn is_listed(ips: &Vec<IpAddr>, ip: IpAddr) -> (listed: bool)
    ensures
        listed == ips@.contains(ip),
{
    let n = ips.len();
    let mut i: usize = 0;
    while i < n
        invariant
            n == ips.len(),
            i <= n,
            forall|j: int| 0 <= j < i ==> ips@[j] != ip,
        decreases n - i,
    {
        if ips[i] == ip {
            return true;
        }
        i += 1;
    }
    false
}

/// Sets the flag `advertised` on every record whose address is among `ips`.
fn mark_advertised(peers: &mut Vec<PeerInfo>, ips: &Vec<IpAddr>)
    ensures
        final(peers)@ == with_advertised(old(peers)@, ips@),
{
    let n = peers.len();
    let mut i: usize = 0;
    while i < n
        invariant
            n == peers.len(),
            n == old(peers)@.len(),
            i <= n,
            forall|j: int| 0 <= j < i ==> peers@[j] == with_advertised(old(peers)@, ips@)[j],
            forall|j: int| i <= j < n ==> peers@[j] == old(peers)@[j],
        decreases n - i,
    {
        let p = peers[i];
        if is_listed(ips, p.ip) {
            peers.set(
                i,
                PeerInfo {
                    ip: p.ip,
                    banned: p.banned,
                    bootstrap: p.bootstrap,
                    last_alive: p.last_alive,
                    last_failure: p.last_failure,
                    advertised: true,
                    active_out_connection_attempts: p.active_out_connection_attempts,
                    active_out_connections: p.active_out_connections,
                    active_in_connections: p.active_in_connections,
                },
            );
        }
        i += 1;
    }
    assert(peers@ =~= with_advertised(old(peers)@, ips@));
}

/// The records of the new peers among `listed`, which holds no address twice.
fn take_candidates(cfg: &NetworkConfig, peers: &Vec<PeerInfo>, listed: &Vec<IpAddr>) -> (fresh: Vec<
    PeerInfo,
>)
    ensures
        fresh@ == fresh_records(
            truncated(
                select(listed@, candidate_class(*cfg, peers@)),
                cfg.max_advertise_length as nat,
            ),
        ),
{
    let n = listed.len();
    let mut fresh: Vec<PeerInfo> = Vec::new();
    let mut i: usize = 0;
    proof {
        assert(select(listed@.take(0), candidate_class(*cfg, peers@)) == Seq::<IpAddr>::empty()) by {
            reveal(select);
        }
        assert(fresh@ =~= fresh_records(
            truncated(Seq::<IpAddr>::empty(), cfg.max_advertise_length as nat),
        ));
    }
    while i < n
        invariant
            n == listed.len(),
            i <= n,
            fresh@ == fresh_records(
                truncated(
                    select(listed@.take(i as int), candidate_class(*cfg, peers@)),
                    cfg.max_advertise_length as nat,
                ),
            ),
        decreases n - i,
    {
        let ip = listed[i];
        let ghost seen = select(listed@.take(i as int), candidate_class(*cfg, peers@));
        let ghost cap = cfg.max_advertise_length as nat;
        proof {
            lemma_select_step(listed@, candidate_class(*cfg, peers@), i as int);
            lemma_position_of_none(peers@, ip);
        }
        if fresh.len() < cfg.max_advertise_length {
            if ip.is_global() && !cfg.is_own_ip(ip) && find_peer(peers, ip).is_none() {
                fresh.push(PeerInfo::unconnected(ip, true));
                assert(fresh@ =~= fresh_records(truncated(seen.push(ip), cap)));
            }
        } else {
            assert(truncated(seen.push(ip), cap) =~= truncated(seen, cap));
        }
        i += 1;
    }
    assert(listed@.take(n as int) == listed@);
    fresh
}

/// Cleans the directory up: drops what the configuration does not admit and
/// what nothing retains, bounds the idle and the banned records, and takes in
/// the new peers among `opt_new_peers`, if any are given.
pub fn cleanup_peers(
    cfg: &NetworkConfig,
    peers: &mut Vec<PeerInfo>,
    opt_new_peers: Option<&Vec<IpAddr>>,
)
    ensures
        final(peers)@ == cleaned(
            *cfg,
            old(peers)@,
            match opt_new_peers {
                Some(ips) => ips@,
                None => Seq::empty(),
            },
        ),
{
    let ghost ips = match opt_new_peers {
        Some(ips) => ips@,
        None => Seq::empty(),
    };
    let mut fresh: Vec<PeerInfo> = Vec::new();
    match opt_new_peers {
        Some(new_peers) => {
            let listed = unique_addresses(new_peers);
            fresh = take_candidates(cfg, peers, &listed);
            mark_advertised(peers, new_peers);
        },
        None => {
            proof {
                assert(select(first_occurrences(ips), candidate_class(*cfg, peers@)) == Seq::<
                    IpAddr,
                >::empty()) by {
                    reveal(select);
                }
                assert(fresh@ =~= fresh_records(new_candidates(*cfg, peers@, ips)));
                assert(peers@ =~= with_advertised(peers@, ips));
            }
        },
    }
    let ghost marked = peers@;
    let n = peers.len();
    let mut keep: Vec<PeerInfo> = Vec::new();
    let mut banned: Vec<PeerInfo> = Vec::new();
    let mut idle: Vec<PeerInfo> = Vec::new();
    proof {
        reveal(select);
        assert(select(marked.take(0), kept_class(*cfg)) == Seq::<PeerInfo>::empty());
        assert(select(marked.take(0), banned_class(*cfg)) == Seq::<PeerInfo>::empty());
        assert(select(marked.take(0), idle_class(*cfg)) == Seq::<PeerInfo>::empty());
    }
    let mut i: usize = 0;
    while i < n
        invariant
            n == peers.len(),
            i <= n,
            peers@ == marked,
            keep@ == select(marked.take(i as int), kept_class(*cfg)),
            banned@ == select(marked.take(i as int), banned_class(*cfg)),
            idle@ == select(marked.take(i as int), idle_class(*cfg)),
        decreases n - i,
    {
        let p = peers[i];
        proof {
            lemma_select_step(marked, kept_class(*cfg), i as int);
            lemma_select_step(marked, banned_class(*cfg), i as int);
            lemma_select_step(marked, idle_class(*cfg), i as int);
        }
        if p.ip.is_global() && !cfg.is_own_ip(p.ip) {
            if p.bootstrap || p.is_active() {
                keep.push(p);
            } else if p.banned {
                banned.push(p);
            } else if p.advertised {
                idle.push(p);
            }
        }
        i += 1;
    }
    assert(marked.take(n as int) == marked);
    idle.append(&mut fresh);
    sort_peers(&mut idle, PeerOrder::MostRecentlyAlive);
    idle.truncate(cfg.max_idle_peers);
    sort_peers(&mut banned, PeerOrder::MostRecentlyFailed);
    banned.truncate(cfg.max_banned_peers);
    keep.append(&mut banned);
    keep.append(&mut idle);
    *peers = keep;
}

} // verus!

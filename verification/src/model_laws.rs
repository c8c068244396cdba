//! The invariant of the database, kept by every operation.

use vstd::prelude::*;
use crate::address::IpAddr;
use crate::cleanup::{
    cleaned, is_banned_idle, is_idle, banned_class, idle_class, with_advertised,
    new_candidates, fresh_records,
};
use crate::cleanup_laws::{
    lemma_cleaned_is_unique, lemma_cleaned_is_bounded, lemma_cleaned_keeps_totals,
    lemma_cleaned_members, lemma_with_advertised, lemma_fresh_records,
};
use crate::model::{DatabaseView, Call, loaded, upserted};
use crate::peer::{
    PeerInfo, Counter, has_ip, unique_ips, position_of, lemma_position_of_none,
    lemma_total_update, lemma_total_push, lemma_total_zero,
};
use crate::seq_facts::{lemma_select_update_len, lemma_select_push};

verus! {

/// Replacing a record by one with the same address keeps the directory
/// consistent, where the quotas are met afterwards.
pub proof fn lemma_with_record_is_consistent(s: DatabaseView, i: int, p: PeerInfo)
    requires
        s.is_consistent(),
        0 <= i < s.peers.len(),
        p.ip == s.peers[i].ip,
        s.active_out_connection_attempts - s.peers[i].active_out_connection_attempts
            + p.active_out_connection_attempts <= s.cfg.max_out_connection_attempts,
        s.active_out_connection_attempts - s.peers[i].active_out_connection_attempts
            + p.active_out_connection_attempts + s.active_out_connections
            - s.peers[i].active_out_connections + p.active_out_connections
            <= s.cfg.target_out_connections,
        s.active_in_connections - s.peers[i].active_in_connections + p.active_in_connections
            <= s.cfg.max_in_connections,
        p.active_in_connections <= s.cfg.max_in_connections_per_ip,
    ensures
        s.with_record(i, p).is_consistent(),
{
    let next = s.with_record(i, p);
    lemma_total_update(s.peers, i, p, Counter::OutAttempts);
    lemma_total_update(s.peers, i, p, Counter::OutConnections);
    lemma_total_update(s.peers, i, p, Counter::InConnections);
    assert forall|a: int, b: int|
        0 <= a < next.peers.len() && 0 <= b < next.peers.len() && a != b implies (
    #[trigger] next.peers[a]).ip != (#[trigger] next.peers[b]).ip by {
        assert(next.peers[a].ip == s.peers[a].ip && next.peers[b].ip == s.peers[b].ip);
    }
    assert forall|k: int| 0 <= k < next.peers.len() implies (
    #[trigger] next.peers[k]).active_in_connections <= next.cfg.max_in_connections_per_ip by {
        if k != i {
            assert(next.peers[k] == s.peers[k]);
        }
    }
    assert forall|k: int| 0 <= k < next.peers.len() implies next.cfg.admits(
        (#[trigger] next.peers[k]).ip,
    ) by {
        assert(next.peers[k].ip == s.peers[k].ip);
    }
}

/// Replacing a record keeps the directory bounded, where something retains
/// the new record and it enters neither of the two bounded classes.
pub proof fn lemma_with_record_is_bounded(s: DatabaseView, i: int, p: PeerInfo)
    requires
        s.is_bounded(),
        0 <= i < s.peers.len(),
        p.is_active() || p.bootstrap || p.banned || p.advertised,
        is_banned_idle(s.cfg, p) ==> is_banned_idle(s.cfg, s.peers[i]),
        is_idle(s.cfg, p) ==> is_idle(s.cfg, s.peers[i]),
    ensures
        s.with_record(i, p).is_bounded(),
{
    let next = s.with_record(i, p);
    lemma_select_update_len(s.peers, banned_class(s.cfg), i, p);
    lemma_select_update_len(s.peers, idle_class(s.cfg), i, p);
    assert forall|k: int| 0 <= k < next.peers.len() implies {
        let q = #[trigger] next.peers[k];
        q.is_active() || q.bootstrap || q.banned || q.advertised
    } by {
        if k != i {
            assert(next.peers[k] == s.peers[k]);
        }
    }
}

/// Adding the record of a peer that is active and not known before keeps the
/// invariant, where the quotas are met afterwards.
pub proof fn lemma_with_new_record_is_well_formed(s: DatabaseView, p: PeerInfo)
    requires
        s.well_formed(),
        !has_ip(s.peers, p.ip),
        s.cfg.admits(p.ip),
        p.is_active(),
        s.active_out_connection_attempts + p.active_out_connection_attempts
            <= s.cfg.max_out_connection_attempts,
        s.active_out_connection_attempts + p.active_out_connection_attempts
            + s.active_out_connections + p.active_out_connections
            <= s.cfg.target_out_connections,
        s.active_in_connections + p.active_in_connections <= s.cfg.max_in_connections,
        p.active_in_connections <= s.cfg.max_in_connections_per_ip,
    ensures
        s.with_new_record(p).well_formed(),
{
    let next = s.with_new_record(p);
    lemma_total_push(s.peers, p, Counter::OutAttempts);
    lemma_total_push(s.peers, p, Counter::OutConnections);
    lemma_total_push(s.peers, p, Counter::InConnections);
    lemma_select_push(s.peers, p, banned_class(s.cfg));
    lemma_select_push(s.peers, p, idle_class(s.cfg));
    assert forall|a: int, b: int|
        0 <= a < next.peers.len() && 0 <= b < next.peers.len() && a != b implies (
    #[trigger] next.peers[a]).ip != (#[trigger] next.peers[b]).ip by {
        if a < s.peers.len() {
            assert(next.peers[a] == s.peers[a]);
        }
        if b < s.peers.len() {
            assert(next.peers[b] == s.peers[b]);
        }
    }
    assert forall|k: int| 0 <= k < next.peers.len() implies {
        let q = #[trigger] next.peers[k];
        &&& q.active_in_connections <= next.cfg.max_in_connections_per_ip
        &&& next.cfg.admits(q.ip)
        &&& q.is_active() || q.bootstrap || q.banned || q.advertised
    } by {
        if k < s.peers.len() {
            assert(next.peers[k] == s.peers[k]);
        }
    }
}

/// Cleanup of a consistent directory leaves it consistent and bounded.
pub proof fn lemma_cleaned_up_is_well_formed(s: DatabaseView, ips: Seq<IpAddr>)
    requires
        s.is_consistent(),
    ensures
        s.cleaned_up(ips).well_formed(),
{
    let next = s.cleaned_up(ips);
    lemma_cleaned_is_unique(s.cfg, s.peers, ips);
    lemma_cleaned_is_bounded(s.cfg, s.peers, ips);
    lemma_cleaned_keeps_totals(s.cfg, s.peers, ips, Counter::OutAttempts);
    lemma_cleaned_keeps_totals(s.cfg, s.peers, ips, Counter::OutConnections);
    lemma_cleaned_keeps_totals(s.cfg, s.peers, ips, Counter::InConnections);
    assert forall|k: int| 0 <= k < next.peers.len() implies (
    #[trigger] next.peers[k]).active_in_connections <= next.cfg.max_in_connections_per_ip by {
        let x = next.peers[k];
        let marked = with_advertised(s.peers, ips);
        let fresh = fresh_records(new_candidates(s.cfg, s.peers, ips));
        lemma_cleaned_members(s.cfg, s.peers, ips, k);
        lemma_with_advertised(s.peers, ips);
        lemma_fresh_records(s.cfg, s.peers, ips);
        if marked.contains(x) {
            let j = choose|j: int| 0 <= j < marked.len() && marked[j] == x;
            assert(marked[j].active_in_connections == s.peers[j].active_in_connections);
        } else {
            let j = choose|j: int| 0 <= j < fresh.len() && fresh[j] == x;
            assert(fresh[j].active_in_connections == 0);
        }
    }
}

/// Replacing a record and cleaning up, if that record is now without
/// connections and not a bootstrap peer, keeps the invariant, where the
/// quotas are met afterwards and something retains the new record.
pub proof fn lemma_with_record_evicting_idle(s: DatabaseView, i: int, p: PeerInfo)
    requires
        s.well_formed(),
        0 <= i < s.peers.len(),
        p.ip == s.peers[i].ip,
        s.active_out_connection_attempts - s.peers[i].active_out_connection_attempts
            + p.active_out_connection_attempts <= s.cfg.max_out_connection_attempts,
        s.active_out_connection_attempts - s.peers[i].active_out_connection_attempts
            + p.active_out_connection_attempts + s.active_out_connections
            - s.peers[i].active_out_connections + p.active_out_connections
            <= s.cfg.target_out_connections,
        s.active_in_connections - s.peers[i].active_in_connections + p.active_in_connections
            <= s.cfg.max_in_connections,
        p.active_in_connections <= s.cfg.max_in_connections_per_ip,
        p.is_active() || p.bootstrap || p.banned || p.advertised,
    ensures
        s.with_record(i, p).evicting_idle(i).well_formed(),
        s.with_record(i, p).evicting_idle(i).signalled().well_formed(),
{
    let next = s.with_record(i, p);
    lemma_with_record_is_consistent(s, i, p);
    if !p.is_active() && !p.bootstrap {
        lemma_cleaned_up_is_well_formed(next, Seq::empty());
    } else {
        lemma_with_record_is_bounded(s, i, p);
    }
}

/// Replacing a record by one that differs in its timestamps only keeps the
/// invariant.
pub proof fn lemma_with_timestamps(s: DatabaseView, i: int, p: PeerInfo)
    requires
        s.well_formed(),
        0 <= i < s.peers.len(),
        p == (PeerInfo { last_alive: p.last_alive, last_failure: p.last_failure, ..s.peers[i] }),
    ensures
        s.with_record(i, p).well_formed(),
        s.with_record(i, p).signalled().well_formed(),
{
    lemma_total_update(s.peers, i, p, Counter::OutAttempts);
    lemma_total_update(s.peers, i, p, Counter::OutConnections);
    lemma_total_update(s.peers, i, p, Counter::InConnections);
    lemma_with_record_is_consistent(s, i, p);
    lemma_with_record_is_bounded(s, i, p);
}

/// Where an attempt may be started, the attempts in flight are below their
/// cap, and attempts and connections together are below the target.
pub proof fn lemma_available_attempts(s: DatabaseView)
    ensures
        s.available_out_connection_attempts() > 0 <==> s.active_out_connection_attempts
            + s.active_out_connections < s.cfg.target_out_connections
            && s.active_out_connection_attempts < s.cfg.max_out_connection_attempts,
        s.available_out_connection_attempts() <= s.cfg.target_out_connections,
        s.available_out_connection_attempts() <= s.cfg.max_out_connection_attempts,
{
}

/// The invariant holds after `new_out_connection_attempt`.
pub proof fn lemma_new_out_connection_attempt(s: DatabaseView, ip: IpAddr)
    requires
        s.well_formed(),
    ensures
        s.new_out_connection_attempt(ip).state.well_formed(),
{
    lemma_position_of_none(s.peers, ip);
    if ip.is_global_spec() && s.available_out_connection_attempts() > 0 {
        if let Some(i) = position_of(s.peers, ip) {
            let p = s.peers[i];
            lemma_total_update(s.peers, i, p, Counter::OutAttempts);
            let q = PeerInfo {
                active_out_connection_attempts: (p.active_out_connection_attempts + 1) as usize,
                ..p
            };
            lemma_with_record_is_consistent(s, i, q);
            lemma_with_record_is_bounded(s, i, q);
        }
    }
}

/// The invariant holds after `try_out_connection_attempt_success`.
pub proof fn lemma_try_out_connection_attempt_success(
    s: DatabaseView,
    ip: IpAddr,
    clock: Option<u64>,
)
    requires
        s.well_formed(),
    ensures
        s.try_out_connection_attempt_success(ip, clock).state.well_formed(),
{
    lemma_position_of_none(s.peers, ip);
    if s.active_out_connection_attempts > 0 && s.active_out_connections
        < s.cfg.target_out_connections {
        if let Some(i) = position_of(s.peers, ip) {
            let p = s.peers[i];
            lemma_total_update(s.peers, i, p, Counter::OutAttempts);
            lemma_total_update(s.peers, i, p, Counter::OutConnections);
            if p.active_out_connection_attempts > 0 {
                if p.banned {
                    if let Some(now) = clock {
                        let q = PeerInfo {
                            active_out_connection_attempts: (p.active_out_connection_attempts
                                - 1) as usize,
                            advertised: true,
                            last_failure: Some(now),
                            ..p
                        };
                        lemma_with_record_evicting_idle(s, i, q);
                    }
                } else {
                    let q = PeerInfo {
                        active_out_connection_attempts: (p.active_out_connection_attempts
                            - 1) as usize,
                        active_out_connections: (p.active_out_connections + 1) as usize,
                        advertised: true,
                        ..p
                    };
                    lemma_with_record_is_consistent(s, i, q);
                    lemma_with_record_is_bounded(s, i, q);
                }
            }
        }
    }
}

/// The invariant holds after `out_connection_attempt_failed`.
pub proof fn lemma_out_connection_attempt_failed(s: DatabaseView, ip: IpAddr, clock: Option<u64>)
    requires
        s.well_formed(),
    ensures
        s.out_connection_attempt_failed(ip, clock).state.well_formed(),
{
    lemma_position_of_none(s.peers, ip);
    if s.active_out_connection_attempts > 0 {
        if let Some(i) = position_of(s.peers, ip) {
            let p = s.peers[i];
            if p.active_out_connection_attempts > 0 {
                if let Some(now) = clock {
                    let q = PeerInfo {
                        active_out_connection_attempts: (p.active_out_connection_attempts
                            - 1) as usize,
                        last_failure: Some(now),
                        ..p
                    };
                    lemma_out_of_reach(s, i, q);
                }
            }
        }
    }
}

/// A record that loses an attempt or a connection and is not retained by a
/// flag is without connections and no bootstrap peer, so that cleanup
/// follows; with that the invariant is kept.
proof fn lemma_out_of_reach(s: DatabaseView, i: int, q: PeerInfo)
    requires
        s.well_formed(),
        0 <= i < s.peers.len(),
        q.ip == s.peers[i].ip,
        q.bootstrap == s.peers[i].bootstrap,
        q.active_out_connection_attempts <= s.peers[i].active_out_connection_attempts,
        q.active_out_connections <= s.peers[i].active_out_connections,
        q.active_in_connections <= s.peers[i].active_in_connections,
    ensures
        s.with_record(i, q).evicting_idle(i).well_formed(),
        s.with_record(i, q).evicting_idle(i).signalled().well_formed(),
        s.with_record(i, q).peers[i] == q,
{
    let next = s.with_record(i, q);
    lemma_total_update(s.peers, i, q, Counter::OutAttempts);
    lemma_total_update(s.peers, i, q, Counter::OutConnections);
    lemma_total_update(s.peers, i, q, Counter::InConnections);
    lemma_with_record_is_consistent(s, i, q);
    if !q.is_active() && !q.bootstrap {
        lemma_cleaned_up_is_well_formed(next, Seq::empty());
    } else {
        lemma_with_record_is_bounded(s, i, q);
    }
}

/// The invariant holds after `out_connection_closed`.
pub proof fn lemma_out_connection_closed(s: DatabaseView, ip: IpAddr)
    requires
        s.well_formed(),
    ensures
        s.out_connection_closed(ip).state.well_formed(),
{
    lemma_position_of_none(s.peers, ip);
    if s.active_out_connections > 0 {
        if let Some(i) = position_of(s.peers, ip) {
            let p = s.peers[i];
            if p.active_out_connections > 0 {
                let q = PeerInfo {
                    active_out_connections: (p.active_out_connections - 1) as usize,
                    ..p
                };
                lemma_out_of_reach(s, i, q);
            }
        }
    }
}

/// The invariant holds after `in_connection_closed`.
pub proof fn lemma_in_connection_closed(s: DatabaseView, ip: IpAddr)
    requires
        s.well_formed(),
    ensures
        s.in_connection_closed(ip).state.well_formed(),
{
    lemma_position_of_none(s.peers, ip);
    if s.active_in_connections > 0 {
        if let Some(i) = position_of(s.peers, ip) {
            let p = s.peers[i];
            if p.active_in_connections > 0 {
                let q = PeerInfo {
                    active_in_connections: (p.active_in_connections - 1) as usize,
                    ..p
                };
                lemma_out_of_reach(s, i, q);
            }
        }
    }
}

/// The invariant holds after `try_new_in_connection`.
pub proof fn lemma_try_new_in_connection(s: DatabaseView, ip: IpAddr, clock: Option<u64>)
    requires
        s.well_formed(),
    ensures
        s.try_new_in_connection(ip, clock).state.well_formed(),
{
    lemma_position_of_none(s.peers, ip);
    if !s.refuses_inbound(ip) {
        match position_of(s.peers, ip) {
            None => {
                let p = PeerInfo::unconnected_spec(ip, false);
                lemma_with_new_record_is_well_formed(
                    s,
                    PeerInfo { active_in_connections: 1, ..p },
                );
            },
            Some(i) => {
                let p = s.peers[i];
                if p.banned {
                    if let Some(now) = clock {
                        lemma_with_timestamps(s, i, PeerInfo { last_failure: Some(now), ..p });
                    }
                } else if p.active_in_connections < s.cfg.max_in_connections_per_ip {
                    let q = PeerInfo {
                        active_in_connections: (p.active_in_connections + 1) as usize,
                        ..p
                    };
                    lemma_total_update(s.peers, i, q, Counter::InConnections);
                    lemma_with_record_is_consistent(s, i, q);
                    lemma_with_record_is_bounded(s, i, q);
                }
            },
        }
    }
}

/// The invariant holds after `peer_alive`.
pub proof fn lemma_peer_alive(s: DatabaseView, ip: IpAddr, clock: Option<u64>)
    requires
        s.well_formed(),
    ensures
        s.peer_alive(ip, clock).state.well_formed(),
{
    lemma_position_of_none(s.peers, ip);
    if let Some(i) = position_of(s.peers, ip) {
        if let Some(now) = clock {
            lemma_with_timestamps(s, i, PeerInfo { last_alive: Some(now), ..s.peers[i] });
        }
    }
}

/// The invariant holds after `peer_failed`.
pub proof fn lemma_peer_failed(s: DatabaseView, ip: IpAddr, clock: Option<u64>)
    requires
        s.well_formed(),
    ensures
        s.peer_failed(ip, clock).state.well_formed(),
{
    lemma_position_of_none(s.peers, ip);
    if let Some(i) = position_of(s.peers, ip) {
        if let Some(now) = clock {
            lemma_with_timestamps(s, i, PeerInfo { last_failure: Some(now), ..s.peers[i] });
        }
    }
}

/// The invariant holds after `peer_banned`.
pub proof fn lemma_peer_banned(s: DatabaseView, ip: IpAddr, clock: Option<u64>)
    requires
        s.well_formed(),
    ensures
        s.peer_banned(ip, clock).state.well_formed(),
{
    lemma_position_of_none(s.peers, ip);
    if let Some(i) = position_of(s.peers, ip) {
        if let Some(now) = clock {
            let p = s.peers[i];
            let q = PeerInfo { last_failure: Some(now), banned: true, ..p };
            if p.banned {
                lemma_with_timestamps(s, i, q);
            } else {
                lemma_out_of_reach(s, i, q);
            }
        }
    }
}

/// The invariant holds after `merge_candidate_peers`.
pub proof fn lemma_merge_candidate_peers(s: DatabaseView, ips: Seq<IpAddr>)
    requires
        s.well_formed(),
    ensures
        s.merge_candidate_peers(ips).state.well_formed(),
{
    lemma_cleaned_up_is_well_formed(s, ips);
}

/// The directory made of the records of a peers file holds no address twice
/// and no connection. It holds the addresses of the records, and each of its
/// records is one of them without its connections.
pub proof fn lemma_loaded(records: Seq<PeerInfo>)
    ensures
        unique_ips(loaded(records)),
        forall|k: int|
            0 <= k < loaded(records).len() ==> {
                let p = #[trigger] loaded(records)[k];
                !p.is_active() && exists|j: int|
                    0 <= j < records.len() && p == (#[trigger] records[j]).at_rest_spec()
            },
        forall|j: int| 0 <= j < records.len() ==> has_ip(loaded(records), (#[trigger] records[j]).ip),
    decreases records.len(),
{
    if records.len() > 0 {
        let front = records.drop_last();
        let before = loaded(front);
        let p = records.last().at_rest_spec();
        let out = loaded(records);
        lemma_loaded(front);
        lemma_position_of_none(before, p.ip);
        assert forall|a: int, b: int| 0 <= a < out.len() && 0 <= b < out.len() && a != b implies (
        #[trigger] out[a]).ip != (#[trigger] out[b]).ip by {
            if a < before.len() {
                assert(out[a].ip == before[a].ip);
            }
            if b < before.len() {
                assert(out[b].ip == before[b].ip);
            }
        }
        assert forall|k: int| 0 <= k < out.len() implies {
            let q = #[trigger] out[k];
            !q.is_active() && exists|j: int|
                0 <= j < records.len() && q == (#[trigger] records[j]).at_rest_spec()
        } by {
            if out[k] == p {
                assert(p == records[records.len() - 1].at_rest_spec());
            } else {
                assert(out[k] == before[k]);
                let j = choose|j: int|
                    0 <= j < front.len() && before[k] == (#[trigger] front[j]).at_rest_spec();
                assert(front[j] == records[j]);
            }
        }
        assert forall|j: int| 0 <= j < records.len() implies has_ip(
            out,
            (#[trigger] records[j]).ip,
        ) by {
            if j < front.len() {
                assert(front[j] == records[j]);
                let k = choose|k: int| 0 <= k < before.len() && (#[trigger] before[k]).ip == front[j].ip;
                assert(out[k].ip == before[k].ip);
            } else {
                match position_of(before, p.ip) {
                    Some(i) => {
                        assert(out[i].ip == p.ip);
                    },
                    None => {
                        assert(out[before.len() as int].ip == p.ip);
                    },
                }
            }
        }
    }
}

/// A database that is built from the records of a peers file meets the
/// invariant, and none of its peers is active.
pub proof fn lemma_initial(cfg: crate::config::NetworkConfig, records: Seq<PeerInfo>)
    ensures
        DatabaseView::initial(cfg, records).well_formed(),
        forall|k: int|
            0 <= k < DatabaseView::initial(cfg, records).peers.len() ==> !(
            #[trigger] DatabaseView::initial(cfg, records).peers[k]).is_active(),
{
    let none = Seq::<IpAddr>::empty();
    let s = DatabaseView::initial(cfg, records);
    lemma_loaded(records);
    lemma_cleaned_is_unique(cfg, loaded(records), none);
    lemma_cleaned_is_bounded(cfg, loaded(records), none);
    assert forall|k: int| 0 <= k < s.peers.len() implies !(#[trigger] s.peers[k]).is_active() by {
        let x = s.peers[k];
        let marked = with_advertised(loaded(records), none);
        let fresh = fresh_records(new_candidates(cfg, loaded(records), none));
        lemma_cleaned_members(cfg, loaded(records), none, k);
        lemma_with_advertised(loaded(records), none);
        lemma_fresh_records(cfg, loaded(records), none);
        if marked.contains(x) {
            let j = choose|j: int| 0 <= j < marked.len() && marked[j] == x;
            assert(!loaded(records)[j].is_active());
        } else {
            let j = choose|j: int| 0 <= j < fresh.len() && fresh[j] == x;
            assert(!fresh[j].is_active());
        }
    }
    lemma_total_zero(s.peers, Counter::OutAttempts);
    lemma_total_zero(s.peers, Counter::OutConnections);
    lemma_total_zero(s.peers, Counter::InConnections);
}

/// The invariant holds after every call.
pub proof fn lemma_call_keeps_invariant(s: DatabaseView, call: Call)
    requires
        s.well_formed(),
    ensures
        s.after(call).well_formed(),
{
    match call {
        Call::NewOutConnectionAttempt(ip) => lemma_new_out_connection_attempt(s, ip),
        Call::TryOutConnectionAttemptSuccess(ip, clock) => lemma_try_out_connection_attempt_success(
            s,
            ip,
            clock,
        ),
        Call::OutConnectionAttemptFailed(ip, clock) => lemma_out_connection_attempt_failed(
            s,
            ip,
            clock,
        ),
        Call::OutConnectionClosed(ip) => lemma_out_connection_closed(s, ip),
        Call::InConnectionClosed(ip) => lemma_in_connection_closed(s, ip),
        Call::TryNewInConnection(ip, clock) => lemma_try_new_in_connection(s, ip, clock),
        Call::PeerAlive(ip, clock) => lemma_peer_alive(s, ip, clock),
        Call::PeerFailed(ip, clock) => lemma_peer_failed(s, ip, clock),
        Call::PeerBanned(ip, clock) => lemma_peer_banned(s, ip, clock),
        Call::MergeCandidatePeers(ips) => lemma_merge_candidate_peers(s, ips),
        Call::TakeDumpRequest => {},
    }
}

/// Whatever is called on a database, in whatever order and with whatever
/// results, from the moment it is built the invariant holds: each aggregate
/// counter is the sum of the records' counters, the quotas are met, no
/// address has two records, and the directory is bounded.
pub proof fn lemma_invariant_holds_throughout(
    cfg: crate::config::NetworkConfig,
    records: Seq<PeerInfo>,
    calls: Seq<Call>,
)
    ensures
        DatabaseView::initial(cfg, records).after_all(calls).well_formed(),
    decreases calls.len(),
{
    if calls.len() == 0 {
        lemma_initial(cfg, records);
    } else {
        lemma_invariant_holds_throughout(cfg, records, calls.drop_last());
        lemma_call_keeps_invariant(
            DatabaseView::initial(cfg, records).after_all(calls.drop_last()),
            calls.last(),
        );
    }
}

} // verus!

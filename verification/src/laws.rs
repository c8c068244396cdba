//! Laws of the peer database that relate its operations to one another.

use vstd::prelude::*;
use crate::address::IpAddr;
use crate::cleanup::cleaned;
use crate::cleanup_laws::lemma_cleaned_is_idempotent;
use crate::config::NetworkConfig;
use crate::model::{
    DatabaseView, loaded, is_dial_candidate, is_advertisable, dial_class, advertisable_class,
};
use crate::model_laws::lemma_initial;
use crate::distinct::{lemma_unique_select, lemma_unique_sorted, lemma_unique_truncated};
use crate::peer::{PeerInfo, has_ip, unique_ips, position_of, lemma_position_of_none};
use crate::ranking::{PeerOrder, sorted_by, lemma_sorted_by_contains, lemma_sorted_by_permutes};
use crate::saver::{persisted, persisted_class};
use crate::seq_facts::{
    select, truncated, lemma_select_members, lemma_select_all, lemma_truncated_members,
};

verus! {

/// Every address to dial is that of a record that is a candidate at `now`:
/// advertised, not banned, without connections, and past its back-off. No
/// more addresses are given than attempts may be started.
pub proof fn lemma_dial_candidates_are_eligible(s: DatabaseView, now: u64)
    ensures
        s.dial_candidates(now).len() <= s.available_out_connection_attempts(),
        forall|k: int|
            #![trigger s.dial_candidates(now)[k]]
            0 <= k < s.dial_candidates(now).len() ==> exists|i: int|
                0 <= i < s.peers.len() && (#[trigger] s.peers[i]).ip == s.dial_candidates(now)[k]
                    && is_dial_candidate(now, s.cfg.wakeup_interval, s.peers[i]),
{
    let class = dial_class(now, s.cfg.wakeup_interval);
    let picked = select(s.peers, class);
    let sorted = sorted_by(picked, PeerOrder::LeastRecentlyFailed);
    let taken = truncated(sorted, s.available_out_connection_attempts());
    lemma_select_members(s.peers, class);
    lemma_sorted_by_contains(picked, PeerOrder::LeastRecentlyFailed);
    lemma_truncated_members(sorted, s.available_out_connection_attempts());
    assert forall|k: int|
        #![trigger s.dial_candidates(now)[k]]
        0 <= k < s.dial_candidates(now).len() implies exists|i: int|
        0 <= i < s.peers.len() && (#[trigger] s.peers[i]).ip == s.dial_candidates(now)[k]
            && is_dial_candidate(now, s.cfg.wakeup_interval, s.peers[i]) by {
        let x = taken[k];
        assert(taken.contains(x));
        assert(sorted.contains(x));
        assert(picked.contains(x));
        let i = choose|i: int| 0 <= i < s.peers.len() && s.peers[i] == x;
        assert(s.peers[i].ip == s.dial_candidates(now)[k]);
    }
}

/// Every address to advertise is that of a record that is advertised and
/// not banned, but for our own address at the head of the list. The list is
/// no longer than `max_advertise_length`.
pub proof fn lemma_advertised_are_advertisable(s: DatabaseView)
    ensures
        s.advertisable_peer_ips().len() <= s.cfg.max_advertise_length,
        forall|k: int|
            #![trigger s.advertisable_peer_ips()[k]]
            0 <= k < s.advertisable_peer_ips().len() ==> (k == 0 && s.cfg.routable_ip == Some(
                s.advertisable_peer_ips()[k],
            )) || exists|i: int|
                0 <= i < s.peers.len() && (#[trigger] s.peers[i]).ip == s.advertisable_peer_ips()[k]
                    && is_advertisable(s.peers[i]),
{
    let cap = s.cfg.max_advertise_length as nat;
    let picked = select(s.peers, advertisable_class());
    let sorted = sorted_by(picked, PeerOrder::MostRecentlyAlive);
    let taken = truncated(sorted, cap);
    let listed = crate::model::ips_of(taken);
    let ips = s.advertisable_peer_ips();
    lemma_select_members(s.peers, advertisable_class());
    lemma_sorted_by_contains(picked, PeerOrder::MostRecentlyAlive);
    lemma_truncated_members(sorted, cap);
    assert forall|j: int|
        #![trigger listed[j]]
        0 <= j < listed.len() implies exists|i: int|
        0 <= i < s.peers.len() && (#[trigger] s.peers[i]).ip == listed[j] && is_advertisable(
            s.peers[i],
        ) by {
        let x = taken[j];
        assert(taken.contains(x));
        assert(sorted.contains(x));
        assert(picked.contains(x));
        let i = choose|i: int| 0 <= i < s.peers.len() && s.peers[i] == x;
        assert(s.peers[i].ip == listed[j]);
    }
    match s.cfg.routable_ip {
        Some(own) => {
            lemma_truncated_members(seq![own] + listed, cap);
            assert forall|k: int|
                #![trigger ips[k]]
                0 <= k < ips.len() implies (k == 0 && s.cfg.routable_ip == Some(
                ips[k],
            )) || exists|i: int|
                0 <= i < s.peers.len() && (#[trigger] s.peers[i]).ip == ips[k] && is_advertisable(
                    s.peers[i],
                ) by {
                assert(ips[k] == (seq![own] + listed)[k]);
                if k > 0 {
                    assert(ips[k] == listed[k - 1]);
                }
            }
        },
        None => {},
    }
}

/// No address is listed twice, neither among those to dial nor among those
/// to advertise.
pub proof fn lemma_listed_addresses_are_distinct(s: DatabaseView, now: u64)
    requires
        s.well_formed(),
    ensures
        s.dial_candidates(now).no_duplicates(),
        s.advertisable_peer_ips().no_duplicates(),
{
    let dialed = truncated(
        sorted_by(
            select(s.peers, dial_class(now, s.cfg.wakeup_interval)),
            PeerOrder::LeastRecentlyFailed,
        ),
        s.available_out_connection_attempts(),
    );
    assert(unique_ips(dialed)) by {
        lemma_unique_select(s.peers, dial_class(now, s.cfg.wakeup_interval));
        lemma_unique_sorted(
            select(s.peers, dial_class(now, s.cfg.wakeup_interval)),
            PeerOrder::LeastRecentlyFailed,
        );
        lemma_unique_truncated(
            sorted_by(
                select(s.peers, dial_class(now, s.cfg.wakeup_interval)),
                PeerOrder::LeastRecentlyFailed,
            ),
            s.available_out_connection_attempts(),
        );
    }
    assert forall|i: int, j: int|
        0 <= i < s.dial_candidates(now).len() && 0 <= j < s.dial_candidates(now).len() && i
            != j implies s.dial_candidates(now)[i] != s.dial_candidates(now)[j] by {
        assert(dialed[i].ip != dialed[j].ip);
    }
    let cap = s.cfg.max_advertise_length as nat;
    let shown = truncated(
        sorted_by(select(s.peers, advertisable_class()), PeerOrder::MostRecentlyAlive),
        cap,
    );
    let listed = crate::model::ips_of(shown);
    assert(unique_ips(shown)) by {
        lemma_unique_select(s.peers, advertisable_class());
        lemma_unique_sorted(select(s.peers, advertisable_class()), PeerOrder::MostRecentlyAlive);
        lemma_unique_truncated(
            sorted_by(select(s.peers, advertisable_class()), PeerOrder::MostRecentlyAlive),
            cap,
        );
    }
    let ips = s.advertisable_peer_ips();
    match s.cfg.routable_ip {
        Some(own) => {
            lemma_own_ip_is_kept_out(s, own, None);
            lemma_truncated_members(seq![own] + listed, cap);
            assert forall|i: int, j: int|
                0 <= i < ips.len() && 0 <= j < ips.len() && i != j implies ips[i] != ips[j] by {
                assert(ips[i] == (seq![own] + listed)[i] && ips[j] == (seq![own] + listed)[j]);
                if i > 0 && j > 0 {
                    assert(shown[i - 1].ip != shown[j - 1].ip);
                }
            }
        },
        None => {
            assert forall|i: int, j: int|
                0 <= i < ips.len() && 0 <= j < ips.len() && i != j implies ips[i] != ips[j] by {
                assert(shown[i].ip != shown[j].ip);
            }
        },
    }
}

/// Our own address is refused as the source of an inbound connection, has
/// no record in the directory, and stands in the list of addresses to
/// advertise at the head only, where it does stand if the list may hold an
/// address at all.
pub proof fn lemma_own_ip_is_kept_out(s: DatabaseView, own: IpAddr, clock: Option<u64>)
    requires
        s.well_formed(),
        s.cfg.routable_ip == Some(own),
    ensures
        s.try_new_in_connection(own, clock) == s.gives(false),
        !has_ip(s.peers, own),
        forall|k: int|
            0 < k < s.advertisable_peer_ips().len() ==> s.advertisable_peer_ips()[k] != own,
        s.cfg.max_advertise_length > 0 ==> s.advertisable_peer_ips().len() > 0
            && s.advertisable_peer_ips()[0] == own,
{
    let ips = s.advertisable_peer_ips();
    lemma_advertised_are_advertisable(s);
    assert forall|k: int| 0 < k < ips.len() implies ips[k] != own by {
        let i = choose|i: int|
            0 <= i < s.peers.len() && (#[trigger] s.peers[i]).ip == ips[k] && is_advertisable(
                s.peers[i],
            );
        assert(s.cfg.admits(s.peers[i].ip));
    }
    if has_ip(s.peers, own) {
        let i = choose|i: int| 0 <= i < s.peers.len() && (#[trigger] s.peers[i]).ip == own;
        assert(s.cfg.admits(s.peers[i].ip));
    }
    if s.cfg.max_advertise_length > 0 {
        let cap = s.cfg.max_advertise_length as nat;
        let listed = crate::model::ips_of(
            truncated(
                sorted_by(select(s.peers, advertisable_class()), PeerOrder::MostRecentlyAlive),
                cap,
            ),
        );
        lemma_truncated_members(seq![own] + listed, cap);
        assert((seq![own] + listed)[0] == own);
    }
}

/// Where no inbound connection is allowed per address, every inbound
/// connection is refused and nothing changes.
pub proof fn lemma_no_inbound_without_quota(s: DatabaseView, ip: IpAddr, clock: Option<u64>)
    requires
        s.cfg.max_in_connections_per_ip == 0,
    ensures
        s.try_new_in_connection(ip, clock) == s.gives(false),
{
}

/// An operation that returns an error leaves the database as it was.
pub proof fn lemma_errors_change_nothing(
    s: DatabaseView,
    ip: IpAddr,
    ips: Seq<IpAddr>,
    clock: Option<u64>,
)
    ensures
        s.new_out_connection_attempt(ip).result is Err ==> s.new_out_connection_attempt(ip).state
            == s,
        s.try_out_connection_attempt_success(ip, clock).result is Err
            ==> s.try_out_connection_attempt_success(ip, clock).state == s,
        s.out_connection_attempt_failed(ip, clock).result is Err
            ==> s.out_connection_attempt_failed(ip, clock).state == s,
        s.out_connection_closed(ip).result is Err ==> s.out_connection_closed(ip).state == s,
        s.in_connection_closed(ip).result is Err ==> s.in_connection_closed(ip).state == s,
        s.try_new_in_connection(ip, clock).result is Err ==> s.try_new_in_connection(
            ip,
            clock,
        ).state == s,
        s.peer_alive(ip, clock).result is Err ==> s.peer_alive(ip, clock).state == s,
        s.peer_failed(ip, clock).result is Err ==> s.peer_failed(ip, clock).state == s,
        s.peer_banned(ip, clock).result is Err ==> s.peer_banned(ip, clock).state == s,
        s.merge_candidate_peers(ips).result is Ok,
{
}

/// A connection that is refused is not counted: where an attempt that
/// succeeded, or an inbound connection, is answered with `false`, the
/// counter of connections is what it was.
pub proof fn lemma_refusals_count_nothing(s: DatabaseView, ip: IpAddr, clock: Option<u64>)
    requires
        s.well_formed(),
    ensures
        s.try_new_in_connection(ip, clock).result == Ok::<bool, crate::error::CommunicationError>(
            false,
        ) ==> s.try_new_in_connection(ip, clock).state.active_in_connections
            == s.active_in_connections && s.try_new_in_connection(ip, clock).state.peers.len()
            == s.peers.len(),
        s.try_out_connection_attempt_success(ip, clock).result == Ok::<
            bool,
            crate::error::CommunicationError,
        >(false) ==> s.try_out_connection_attempt_success(ip, clock).state.active_out_connections
            == s.active_out_connections,
{
    lemma_position_of_none(s.peers, ip);
    if let Some(i) = position_of(s.peers, ip) {
        crate::peer::lemma_total_update(s.peers, i, s.peers[i], crate::peer::Counter::OutAttempts);
    }
}

/// The attempts in flight never outrun the target, so an attempt that
/// succeeds is turned down only where the peer is banned.
pub proof fn lemma_success_is_kept_unless_banned(s: DatabaseView, ip: IpAddr, clock: Option<u64>)
    requires
        s.well_formed(),
        s.try_out_connection_attempt_success(ip, clock).result == Ok::<
            bool,
            crate::error::CommunicationError,
        >(false),
    ensures
        position_of(s.peers, ip) matches Some(i) && s.peers[i].banned,
{
}

/// A connection that was accepted can be closed again, and the counters are
/// then what they were.
pub proof fn lemma_inbound_accepted_then_closed(s: DatabaseView, ip: IpAddr, clock: Option<u64>)
    requires
        s.well_formed(),
        s.try_new_in_connection(ip, clock).result == Ok::<bool, crate::error::CommunicationError>(
            true,
        ),
    ensures
        ({
            let accepted = s.try_new_in_connection(ip, clock).state;
            let closed = accepted.in_connection_closed(ip);
            &&& accepted.active_in_connections == s.active_in_connections + 1
            &&& closed.result == Ok::<(), crate::error::CommunicationError>(())
            &&& closed.state.active_in_connections == s.active_in_connections
            &&& closed.state.active_out_connections == s.active_out_connections
            &&& closed.state.active_out_connection_attempts == s.active_out_connection_attempts
        }),
{
    let accepted = s.try_new_in_connection(ip, clock).state;
    lemma_position_of_none(s.peers, ip);
    crate::model_laws::lemma_try_new_in_connection(s, ip, clock);
    match position_of(s.peers, ip) {
        None => {
            let at = s.peers.len() as int;
            assert(accepted.peers[at].ip == ip);
            assert forall|j: int| 0 <= j < at implies (#[trigger] accepted.peers[j]).ip != ip by {
                assert(accepted.peers[j] == s.peers[j]);
            }
            crate::peer::lemma_position_of_first(accepted.peers, ip, at);
        },
        Some(i) => {
            assert(accepted.peers[i].ip == ip);
            assert forall|j: int| 0 <= j < i implies (#[trigger] accepted.peers[j]).ip != ip by {
                assert(accepted.peers[j] == s.peers[j]);
            }
            crate::peer::lemma_position_of_first(accepted.peers, ip, i);
            crate::peer::lemma_total_update(
                s.peers,
                i,
                s.peers[i],
                crate::peer::Counter::InConnections,
            );
        },
    }
}

/// A directory without repeated addresses and without connections is loaded
/// as it is.
pub proof fn lemma_loaded_fixes(peers: Seq<PeerInfo>)
    requires
        unique_ips(peers),
        forall|k: int| 0 <= k < peers.len() ==> !(#[trigger] peers[k]).is_active(),
    ensures
        loaded(peers) == peers,
    decreases peers.len(),
{
    if peers.len() > 0 {
        let front = peers.drop_last();
        let last = peers.last();
        assert forall|a: int, b: int|
            0 <= a < front.len() && 0 <= b < front.len() && a != b implies (#[trigger] front[a]).ip
            != (#[trigger] front[b]).ip by {
            assert(front[a] == peers[a] && front[b] == peers[b]);
        }
        assert forall|k: int| 0 <= k < front.len() implies !(#[trigger] front[k]).is_active() by {
            assert(front[k] == peers[k]);
        }
        lemma_loaded_fixes(front);
        assert(last == peers[peers.len() - 1]);
        assert(last.at_rest_spec() == last);
        lemma_position_of_none(front, last.ip);
        if has_ip(front, last.ip) {
            let k = choose|k: int| 0 <= k < front.len() && (#[trigger] front[k]).ip == last.ip;
            assert(peers[k].ip == peers[peers.len() - 1].ip);
        }
        assert(front.push(last) == peers);
    }
}

/// Saving and loading again changes nothing: a database built from any
/// records holds, once it is built, exactly what the peers file will hold of
/// it; and a database built from that file is the same database.
pub proof fn lemma_save_and_reload(cfg: NetworkConfig, records: Seq<PeerInfo>)
    ensures
        ({
            let first = DatabaseView::initial(cfg, records);
            let saved = persisted(first.peers);
            let second = DatabaseView::initial(cfg, saved);
            &&& saved == first.peers
            &&& second == first
            &&& persisted(second.peers) == saved
        }),
{
    let first = DatabaseView::initial(cfg, records);
    let saved = persisted(first.peers);
    lemma_initial(cfg, records);
    assert forall|k: int| 0 <= k < first.peers.len() implies persisted_class()(
        #[trigger] first.peers[k],
    ) by {
        let p = first.peers[k];
        assert(p.is_active() || p.bootstrap || p.banned || p.advertised);
    }
    lemma_select_all(first.peers, persisted_class());
    assert(saved == first.peers) by {
        assert forall|k: int| 0 <= k < first.peers.len() implies (
        #[trigger] first.peers[k]).at_rest_spec() == first.peers[k] by {
            assert(!first.peers[k].is_active());
        }
    }
    lemma_loaded_fixes(first.peers);
    lemma_cleaned_is_idempotent(cfg, loaded(records), Seq::empty());
}

} // verus!

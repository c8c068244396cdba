//! The peer database as a mathematical value, and each of its operations as a
//! function on that value.
//!
//! [`DatabaseView`] is what [`crate::database::PeerInfoDatabase`] stands for.
//! An operation of the database is specified by the function of the same name
//! here: it gives the state after the call and the result that the call
//! returns. A timestamp is written by an operation only where the clock could
//! be read; `clock` is what the clock gave, `None` where it gave nothing.

use vstd::prelude::*;
use crate::address::IpAddr;
use crate::cleanup::{cleaned, banned_class, idle_class};
use crate::config::NetworkConfig;
use crate::error::CommunicationError;
use crate::peer::{PeerInfo, Counter, total, unique_ips, position_of};
use crate::ranking::{PeerOrder, sorted_by};
use crate::seq_facts::{select, truncated};

verus! {

/// The state of a peer database.
pub struct DatabaseView {
    pub cfg: NetworkConfig,
    /// The directory: one record for each known address.
    pub peers: Seq<PeerInfo>,
    /// Outbound connection attempts in flight, over all peers.
    pub active_out_connection_attempts: nat,
    /// Established outbound connections, over all peers.
    pub active_out_connections: nat,
    /// Established inbound connections, over all peers.
    pub active_in_connections: nat,
    /// Whether the peers changed since they were last handed out for saving.
    pub dump_requested: bool,
}

/// The state after an operation and what the operation returns.
pub struct Outcome<T> {
    pub state: DatabaseView,
    pub result: Result<T, CommunicationError>,
}

/// A call of an operation that may change the database, with its arguments
/// and, where the operation notes a time, with what the clock gave.
pub enum Call {
    NewOutConnectionAttempt(IpAddr),
    TryOutConnectionAttemptSuccess(IpAddr, Option<u64>),
    OutConnectionAttemptFailed(IpAddr, Option<u64>),
    OutConnectionClosed(IpAddr),
    InConnectionClosed(IpAddr),
    TryNewInConnection(IpAddr, Option<u64>),
    PeerAlive(IpAddr, Option<u64>),
    PeerFailed(IpAddr, Option<u64>),
    PeerBanned(IpAddr, Option<u64>),
    MergeCandidatePeers(Seq<IpAddr>),
    TakeDumpRequest,
}

/// `x` where it is positive, else zero.
pub open spec fn or_zero(x: int) -> nat {
    if x < 0 {
        0
    } else {
        x as nat
    }
}

/// Whether a peer that last failed at `p.last_failure` may be dialed at
/// `now`: it never failed, or it was alive after it failed, or more than
/// `wakeup_interval` milliseconds have passed since it failed.
pub open spec fn dial_eligible(now: u64, wakeup_interval: u64, p: PeerInfo) -> bool {
    match p.last_failure {
        None => true,
        Some(failed) => (match p.last_alive {
            Some(alive) => alive > failed,
            None => false,
        }) || now - failed > wakeup_interval,
    }
}

/// Whether a peer is a candidate for an outbound connection at `now`: it is
/// advertised, not banned, without connections, and may be dialed.
pub open spec fn is_dial_candidate(now: u64, wakeup_interval: u64, p: PeerInfo) -> bool {
    p.advertised && !p.banned && !p.is_active() && dial_eligible(now, wakeup_interval, p)
}

/// [`is_dial_candidate`] as a predicate on records.
pub open spec fn dial_class(now: u64, wakeup_interval: u64) -> spec_fn(PeerInfo) -> bool {
    |p: PeerInfo| is_dial_candidate(now, wakeup_interval, p)
}

/// Whether a peer may be advertised to others: it is advertised and not
/// banned.
pub open spec fn is_advertisable(p: PeerInfo) -> bool {
    p.advertised && !p.banned
}

/// [`is_advertisable`] as a predicate on records.
pub open spec fn advertisable_class() -> spec_fn(PeerInfo) -> bool {
    |p: PeerInfo| is_advertisable(p)
}

/// The directory with the record `p` in it: in the place of the record with
/// the same address, if there is one, else at the end.
pub open spec fn upserted(peers: Seq<PeerInfo>, p: PeerInfo) -> Seq<PeerInfo> {
    match position_of(peers, p.ip) {
        Some(i) => peers.update(i, p),
        None => peers.push(p),
    }
}

/// The directory that is made of the records of a peers file: each record
/// without connections, and of records with the same address the last one.
pub open spec fn loaded(records: Seq<PeerInfo>) -> Seq<PeerInfo>
    decreases records.len(),
{
    if records.len() == 0 {
        Seq::empty()
    } else {
        upserted(loaded(records.drop_last()), records.last().at_rest_spec())
    }
}

/// The addresses of the records, in their order.
pub open spec fn ips_of(peers: Seq<PeerInfo>) -> Seq<IpAddr> {
    Seq::new(peers.len(), |i: int| peers[i].ip)
}

impl DatabaseView {
    /// The state of a database that is built from the records of a peers
    /// file: the directory loaded and cleaned up, no connection, no save
    /// requested.
    pub open spec fn initial(cfg: NetworkConfig, records: Seq<PeerInfo>) -> DatabaseView {
        DatabaseView {
            cfg,
            peers: cleaned(cfg, loaded(records), Seq::empty()),
            active_out_connection_attempts: 0,
            active_out_connections: 0,
            active_in_connections: 0,
            dump_requested: false,
        }
    }

    /// What the directory guarantees of itself, whatever the connections
    /// are: no address has two records; each aggregate counter is the sum of
    /// the records' counters; the attempts in flight are within their cap,
    /// and together with the outbound connections within the target; the
    /// inbound connections are within their caps, in all and for each
    /// address; the configuration admits every address.
    pub open spec fn is_consistent(self) -> bool {
        &&& unique_ips(self.peers)
        &&& self.active_out_connection_attempts == total(self.peers, Counter::OutAttempts)
        &&& self.active_out_connections == total(self.peers, Counter::OutConnections)
        &&& self.active_in_connections == total(self.peers, Counter::InConnections)
        &&& self.active_out_connection_attempts <= self.cfg.max_out_connection_attempts
        &&& self.active_out_connection_attempts + self.active_out_connections
            <= self.cfg.target_out_connections
        &&& self.active_in_connections <= self.cfg.max_in_connections
        &&& forall|i: int|
            0 <= i < self.peers.len() ==> (#[trigger] self.peers[i]).active_in_connections
                <= self.cfg.max_in_connections_per_ip
        &&& forall|i: int| 0 <= i < self.peers.len() ==> self.cfg.admits((#[trigger] self.peers[i]).ip)
    }

    /// Whether the directory holds no record that nothing retains, and no
    /// more banned and idle records than the configuration allows.
    pub open spec fn is_bounded(self) -> bool {
        &&& forall|i: int|
            0 <= i < self.peers.len() ==> {
                let p = #[trigger] self.peers[i];
                p.is_active() || p.bootstrap || p.banned || p.advertised
            }
        &&& select(self.peers, banned_class(self.cfg)).len() <= self.cfg.max_banned_peers
        &&& select(self.peers, idle_class(self.cfg)).len() <= self.cfg.max_idle_peers
    }

    /// The invariant of the database: it holds of every state that an
    /// operation starts from or ends in.
    pub open spec fn well_formed(self) -> bool {
        self.is_consistent() && self.is_bounded()
    }

    /// How many outbound connection attempts may be started: as many as are
    /// missing to reach `target_out_connections`, the ones in flight counted
    /// as connections, but no more than `max_out_connection_attempts` leaves.
    pub open spec fn available_out_connection_attempts(self) -> nat {
        let to_target = or_zero(
            self.cfg.target_out_connections - self.active_out_connection_attempts
                - self.active_out_connections,
        );
        let to_cap = or_zero(
            self.cfg.max_out_connection_attempts - self.active_out_connection_attempts,
        );
        if to_target <= to_cap {
            to_target
        } else {
            to_cap
        }
    }

    /// The addresses to dial at `now`: the candidates that failed longest
    /// ago first, those alive last first among equals, as many as attempts
    /// may be started.
    pub open spec fn dial_candidates(self, now: u64) -> Seq<IpAddr> {
        ips_of(
            truncated(
                sorted_by(
                    select(self.peers, dial_class(now, self.cfg.wakeup_interval)),
                    PeerOrder::LeastRecentlyFailed,
                ),
                self.available_out_connection_attempts(),
            ),
        )
    }

    /// The addresses to advertise: our own first, if it is known, then the
    /// advertisable peers that were alive last; `max_advertise_length`
    /// addresses at most.
    pub open spec fn advertisable_peer_ips(self) -> Seq<IpAddr> {
        let listed = ips_of(
            truncated(
                sorted_by(select(self.peers, advertisable_class()), PeerOrder::MostRecentlyAlive),
                self.cfg.max_advertise_length as nat,
            ),
        );
        match self.cfg.routable_ip {
            Some(own) => truncated(seq![own] + listed, self.cfg.max_advertise_length as nat),
            None => listed,
        }
    }

    /// The outcome of an operation that fails: the state is as it was.
    pub open spec fn fails<T>(self, e: CommunicationError) -> Outcome<T> {
        Outcome { state: self, result: Err(e) }
    }

    /// The outcome of an operation that ends in this state and returns `v`.
    pub open spec fn gives<T>(self, v: T) -> Outcome<T> {
        Outcome { state: self, result: Ok(v) }
    }

    /// The state with the record at `i` replaced by `p`, and each aggregate
    /// counter moved by as much as the record's counter was.
    pub open spec fn with_record(self, i: int, p: PeerInfo) -> DatabaseView {
        let was = self.peers[i];
        DatabaseView {
            peers: self.peers.update(i, p),
            active_out_connection_attempts: (self.active_out_connection_attempts - was.count(
                Counter::OutAttempts,
            ) + p.count(Counter::OutAttempts)) as nat,
            active_out_connections: (self.active_out_connections - was.count(
                Counter::OutConnections,
            ) + p.count(Counter::OutConnections)) as nat,
            active_in_connections: (self.active_in_connections - was.count(Counter::InConnections)
                + p.count(Counter::InConnections)) as nat,
            ..self
        }
    }

    /// The state with the record `p` added at the end, its counters added to
    /// the aggregate ones.
    pub open spec fn with_new_record(self, p: PeerInfo) -> DatabaseView {
        DatabaseView {
            peers: self.peers.push(p),
            active_out_connection_attempts: self.active_out_connection_attempts + p.count(
                Counter::OutAttempts,
            ),
            active_out_connections: self.active_out_connections + p.count(Counter::OutConnections),
            active_in_connections: self.active_in_connections + p.count(Counter::InConnections),
            ..self
        }
    }

    /// The state after cleanup with `ips` offered as new peers.
    pub open spec fn cleaned_up(self, ips: Seq<IpAddr>) -> DatabaseView {
        DatabaseView { peers: cleaned(self.cfg, self.peers, ips), ..self }
    }

    /// The state after cleanup, if the record at `i` is without connections
    /// and not a bootstrap peer; else the state as it is.
    pub open spec fn evicting_idle(self, i: int) -> DatabaseView {
        if !self.peers[i].is_active() && !self.peers[i].bootstrap {
            self.cleaned_up(Seq::empty())
        } else {
            self
        }
    }

    /// The state with a save of the peers requested.
    pub open spec fn signalled(self) -> DatabaseView {
        DatabaseView { dump_requested: true, ..self }
    }

    /// A new outbound attempt to `ip` is counted, if the address is routable,
    /// an attempt may be started, and the peer is known.
    pub open spec fn new_out_connection_attempt(self, ip: IpAddr) -> Outcome<()> {
        if !ip.is_global_spec() {
            self.fails(CommunicationError::InvalidIpError(ip))
        } else if self.available_out_connection_attempts() == 0 {
            self.fails(CommunicationError::too_many_attempts(ip))
        } else {
            match position_of(self.peers, ip) {
                None => self.fails(CommunicationError::unknown_peer(ip)),
                Some(i) => {
                    let p = self.peers[i];
                    self.with_record(
                        i,
                        PeerInfo {
                            active_out_connection_attempts: (p.active_out_connection_attempts
                                + 1) as usize,
                            ..p
                        },
                    ).gives(())
                },
            }
        }
    }

    /// An outbound attempt to `ip` succeeded. The attempt becomes a
    /// connection and `true` is returned, unless the target number of
    /// connections is reached already or the peer is banned: then `false` is
    /// returned and the caller drops the connection. Where the target is
    /// reached nothing changes. Else the peer counts as advertised from now
    /// on, and a save is requested; for a banned peer the attempt is no
    /// longer counted, the time is noted as that of a failure, and the
    /// directory is cleaned up if the peer is left without connections and
    /// is not a bootstrap peer.
    pub open spec fn try_out_connection_attempt_success(
        self,
        ip: IpAddr,
        clock: Option<u64>,
    ) -> Outcome<bool> {
        if self.active_out_connection_attempts == 0 {
            self.fails(CommunicationError::too_many_attempts(ip))
        } else if self.active_out_connections >= self.cfg.target_out_connections {
            self.gives(false)
        } else {
            match position_of(self.peers, ip) {
                None => self.fails(CommunicationError::unknown_peer(ip)),
                Some(i) => {
                    let p = self.peers[i];
                    if p.active_out_connection_attempts == 0 {
                        self.fails(CommunicationError::too_many_attempts(ip))
                    } else if p.banned {
                        match clock {
                            None => self.fails(CommunicationError::TimeError),
                            Some(now) => self.with_record(
                                i,
                                PeerInfo {
                                    active_out_connection_attempts: (
                                    p.active_out_connection_attempts - 1) as usize,
                                    advertised: true,
                                    last_failure: Some(now),
                                    ..p
                                },
                            ).evicting_idle(i).signalled().gives(false),
                        }
                    } else {
                        self.with_record(
                            i,
                            PeerInfo {
                                active_out_connection_attempts: (p.active_out_connection_attempts
                                    - 1) as usize,
                                active_out_connections: (p.active_out_connections + 1) as usize,
                                advertised: true,
                                ..p
                            },
                        ).signalled().gives(true)
                    }
                },
            }
        }
    }

    /// An outbound attempt to `ip` failed: it is no longer counted, and the
    /// failure is noted. The directory is cleaned up if that leaves the peer
    /// without connections and it is not a bootstrap peer. A save is
    /// requested.
    pub open spec fn out_connection_attempt_failed(self, ip: IpAddr, clock: Option<u64>) -> Outcome<
        (),
    > {
        if self.active_out_connection_attempts == 0 {
            self.fails(CommunicationError::too_many_failures(ip))
        } else {
            match position_of(self.peers, ip) {
                None => self.fails(CommunicationError::unknown_peer(ip)),
                Some(i) => {
                    let p = self.peers[i];
                    if p.active_out_connection_attempts == 0 {
                        self.fails(CommunicationError::too_many_failures(ip))
                    } else {
                        match clock {
                            None => self.fails(CommunicationError::TimeError),
                            Some(now) => self.with_record(
                                i,
                                PeerInfo {
                                    active_out_connection_attempts: (
                                    p.active_out_connection_attempts - 1) as usize,
                                    last_failure: Some(now),
                                    ..p
                                },
                            ).evicting_idle(i).signalled().gives(()),
                        }
                    }
                },
            }
        }
    }

    /// An outbound connection to `ip` was closed: it is no longer counted.
    /// If that leaves the peer without connections and it is not a bootstrap
    /// peer, the directory is cleaned up and a save is requested.
    pub open spec fn out_connection_closed(self, ip: IpAddr) -> Outcome<()> {
        if self.active_out_connections == 0 {
            self.fails(CommunicationError::nothing_to_close(ip))
        } else {
            match position_of(self.peers, ip) {
                None => self.fails(CommunicationError::unknown_peer(ip)),
                Some(i) => {
                    let p = self.peers[i];
                    if p.active_out_connections == 0 {
                        self.fails(CommunicationError::nothing_to_close(ip))
                    } else {
                        let next = self.with_record(
                            i,
                            PeerInfo {
                                active_out_connections: (p.active_out_connections - 1) as usize,
                                ..p
                            },
                        );
                        if !next.peers[i].is_active() && !p.bootstrap {
                            next.cleaned_up(Seq::empty()).signalled().gives(())
                        } else {
                            next.gives(())
                        }
                    }
                },
            }
        }
    }

    /// An inbound connection from `ip` was closed: it is no longer counted.
    /// If that leaves the peer without connections and it is not a bootstrap
    /// peer, the directory is cleaned up and a save is requested.
    pub open spec fn in_connection_closed(self, ip: IpAddr) -> Outcome<()> {
        if self.active_in_connections == 0 {
            self.fails(CommunicationError::nothing_to_close(ip))
        } else {
            match position_of(self.peers, ip) {
                None => self.fails(CommunicationError::unknown_peer(ip)),
                Some(i) => {
                    let p = self.peers[i];
                    if p.active_in_connections == 0 {
                        self.fails(CommunicationError::nothing_to_close(ip))
                    } else {
                        let next = self.with_record(
                            i,
                            PeerInfo {
                                active_in_connections: (p.active_in_connections - 1) as usize,
                                ..p
                            },
                        );
                        if !next.peers[i].is_active() && !p.bootstrap {
                            next.cleaned_up(Seq::empty()).signalled().gives(())
                        } else {
                            next.gives(())
                        }
                    }
                },
            }
        }
    }

    /// Whether an inbound connection from `ip` is refused whatever the
    /// directory holds: the address is not routable or our own, the inbound
    /// connections are at their cap, or none is allowed per address.
    pub open spec fn refuses_inbound(self, ip: IpAddr) -> bool {
        ||| !ip.is_global_spec()
        ||| self.active_in_connections >= self.cfg.max_in_connections
        ||| self.cfg.max_in_connections_per_ip == 0
        ||| self.cfg.routable_ip == Some(ip)
    }

    /// A peer at `ip` has connected to us. The connection is counted and
    /// `true` is returned if the address may connect, the peer is not banned,
    /// and the caps on inbound connections leave room; a peer that was not
    /// known gets a record that is not advertised. Else `false` is returned
    /// and the caller closes the connection; for a banned peer the time is
    /// noted as that of a failure. A save is requested unless the connection
    /// is refused whatever the directory holds.
    pub open spec fn try_new_in_connection(self, ip: IpAddr, clock: Option<u64>) -> Outcome<bool> {
        if self.refuses_inbound(ip) {
            self.gives(false)
        } else {
            match position_of(self.peers, ip) {
                None => {
                    let p = PeerInfo::unconnected_spec(ip, false);
                    self.with_new_record(PeerInfo { active_in_connections: 1, ..p }).signalled().gives(
                        true,
                    )
                },
                Some(i) => {
                    let p = self.peers[i];
                    if p.banned {
                        match clock {
                            None => self.fails(CommunicationError::TimeError),
                            Some(now) => self.with_record(
                                i,
                                PeerInfo { last_failure: Some(now), ..p },
                            ).signalled().gives(false),
                        }
                    } else if p.active_in_connections >= self.cfg.max_in_connections_per_ip {
                        self.signalled().gives(false)
                    } else {
                        self.with_record(
                            i,
                            PeerInfo {
                                active_in_connections: (p.active_in_connections + 1) as usize,
                                ..p
                            },
                        ).signalled().gives(true)
                    }
                },
            }
        }
    }

    /// The peer at `ip` was seen alive: the time is noted, and a save is
    /// requested.
    pub open spec fn peer_alive(self, ip: IpAddr, clock: Option<u64>) -> Outcome<()> {
        match position_of(self.peers, ip) {
            None => self.fails(CommunicationError::unknown_peer(ip)),
            Some(i) => match clock {
                None => self.fails(CommunicationError::TimeError),
                Some(now) => self.with_record(
                    i,
                    PeerInfo { last_alive: Some(now), ..self.peers[i] },
                ).signalled().gives(()),
            },
        }
    }

    /// The peer at `ip` failed: the time is noted, and a save is requested.
    pub open spec fn peer_failed(self, ip: IpAddr, clock: Option<u64>) -> Outcome<()> {
        match position_of(self.peers, ip) {
            None => self.fails(CommunicationError::unknown_peer(ip)),
            Some(i) => match clock {
                None => self.fails(CommunicationError::TimeError),
                Some(now) => self.with_record(
                    i,
                    PeerInfo { last_failure: Some(now), ..self.peers[i] },
                ).signalled().gives(()),
            },
        }
    }

    /// The peer at `ip` is banned from now on, and the time is noted as that
    /// of a failure. The directory is cleaned up if the peer was not banned
    /// before, is without connections and is not a bootstrap peer. A save is
    /// requested.
    pub open spec fn peer_banned(self, ip: IpAddr, clock: Option<u64>) -> Outcome<()> {
        match position_of(self.peers, ip) {
            None => self.fails(CommunicationError::unknown_peer(ip)),
            Some(i) => match clock {
                None => self.fails(CommunicationError::TimeError),
                Some(now) => {
                    let p = self.peers[i];
                    let next = self.with_record(
                        i,
                        PeerInfo { last_failure: Some(now), banned: true, ..p },
                    );
                    if p.banned {
                        next.signalled().gives(())
                    } else {
                        next.evicting_idle(i).signalled().gives(())
                    }
                },
            },
        }
    }

    /// The addresses `ips` are offered as new peers: the directory is cleaned
    /// up with them, and a save is requested. An empty list changes nothing.
    pub open spec fn merge_candidate_peers(self, ips: Seq<IpAddr>) -> Outcome<()> {
        if ips.len() == 0 {
            self.gives(())
        } else {
            self.cleaned_up(ips).signalled().gives(())
        }
    }

    /// The state with the request for a save taken up.
    pub open spec fn take_dump_request(self) -> DatabaseView {
        DatabaseView { dump_requested: false, ..self }
    }

    /// The state after a call, whatever the call returns.
    pub open spec fn after(self, call: Call) -> DatabaseView {
        match call {
            Call::NewOutConnectionAttempt(ip) => self.new_out_connection_attempt(ip).state,
            Call::TryOutConnectionAttemptSuccess(ip, clock) => self.try_out_connection_attempt_success(
                ip,
                clock,
            ).state,
            Call::OutConnectionAttemptFailed(ip, clock) => self.out_connection_attempt_failed(
                ip,
                clock,
            ).state,
            Call::OutConnectionClosed(ip) => self.out_connection_closed(ip).state,
            Call::InConnectionClosed(ip) => self.in_connection_closed(ip).state,
            Call::TryNewInConnection(ip, clock) => self.try_new_in_connection(ip, clock).state,
            Call::PeerAlive(ip, clock) => self.peer_alive(ip, clock).state,
            Call::PeerFailed(ip, clock) => self.peer_failed(ip, clock).state,
            Call::PeerBanned(ip, clock) => self.peer_banned(ip, clock).state,
            Call::MergeCandidatePeers(ips) => self.merge_candidate_peers(ips).state,
            Call::TakeDumpRequest => self.take_dump_request(),
        }
    }

    /// The state after a sequence of calls, the first call first.
    pub open spec fn after_all(self, calls: Seq<Call>) -> DatabaseView
        decreases calls.len(),
    {
        if calls.len() == 0 {
            self
        } else {
            self.after_all(calls.drop_last()).after(calls.last())
        }
    }

    /// The addresses to dial now. Nothing is looked up, and the clock is not
    /// needed, where no attempt may be started.
    pub open spec fn get_out_connection_candidate_ips(self, clock: Option<u64>) -> Result<
        Seq<IpAddr>,
        CommunicationError,
    > {
        if self.available_out_connection_attempts() == 0 {
            Ok(Seq::empty())
        } else {
            match clock {
                None => Err(CommunicationError::TimeError),
                Some(now) => Ok(self.dial_candidates(now)),
            }
        }
    }
}

} // verus!

//! The peer database: the directory, the counters of connections, and the
//! operations that the connection layer calls.
//!
//! Each operation is specified by the function of the same name on
//! [`DatabaseView`]. The operations that note a time come in two forms: one
//! that reads the system clock, and one, named with `_at`, that takes what
//! the clock gave.

use vstd::prelude::*;
use crate::address::IpAddr;
use crate::cleanup::cleanup_peers;
use crate::clock::system_time_millis;
use crate::config::NetworkConfig;
use crate::error::{CommunicationError, NetworkConnectionErrorType};
use crate::model::{DatabaseView, Outcome, loaded};
use crate::model_laws::{
    lemma_initial, lemma_new_out_connection_attempt, lemma_try_out_connection_attempt_success,
    lemma_out_connection_attempt_failed, lemma_out_connection_closed,
    lemma_in_connection_closed, lemma_try_new_in_connection, lemma_peer_alive,
    lemma_peer_failed, lemma_peer_banned, lemma_merge_candidate_peers,
};
use crate::peer::{PeerInfo, Counter, total, find_peer, lemma_total_update};
use crate::saver::{persisted, peers_to_dump};
use crate::selection::{dial_candidates, advertisable_ips};

verus! {

/// The peers that a node knows, and the connections it has with them.
pub struct PeerInfoDatabase {
    cfg: NetworkConfig,
    peers: Vec<PeerInfo>,
    active_out_connection_attempts: usize,
    active_out_connections: usize,
    active_in_connections: usize,
    dump_requested: bool,
}

impl View for PeerInfoDatabase {
    type V = DatabaseView;

    closed spec fn view(&self) -> DatabaseView {
        DatabaseView {
            cfg: self.cfg,
            peers: self.peers@,
            active_out_connection_attempts: self.active_out_connection_attempts as nat,
            active_out_connections: self.active_out_connections as nat,
            active_in_connections: self.active_in_connections as nat,
            dump_requested: self.dump_requested,
        }
    }
}

/// The state after the record at `i` is replaced by `q`, the directory
/// cleaned up if `evict` is set, and a save requested if `signal` is set.
spec fn replaced(s: DatabaseView, i: int, q: PeerInfo, evict: bool, signal: bool) -> DatabaseView {
    let a = s.with_record(i, q);
    let b = if evict {
        a.cleaned_up(Seq::empty())
    } else {
        a
    };
    if signal {
        b.signalled()
    } else {
        b
    }
}

impl PeerInfoDatabase {
    #[verifier::type_invariant]
    spec fn holds_invariant(&self) -> bool {
        self@.well_formed()
    }

    /// Builds the database from the configuration and the records of the
    /// peers file. The connection counters of the records are not taken over:
    /// the database starts without connections.
    pub fn new(cfg: NetworkConfig, records: Vec<PeerInfo>) -> (db: PeerInfoDatabase)
        ensures
            db@ == DatabaseView::initial(cfg, records@),
            db@.well_formed(),
    {
        let n = records.len();
        let mut peers: Vec<PeerInfo> = Vec::new();
        let mut i: usize = 0;
        assert(records@.take(0) == Seq::<PeerInfo>::empty());
        while i < n
            invariant
                n == records.len(),
                i <= n,
                peers@ == loaded(records@.take(i as int)),
            decreases n - i,
        {
            let p = records[i].at_rest();
            proof {
                assert(records@.take(i + 1).drop_last() == records@.take(i as int));
                assert(records@.take(i + 1).last() == records@[i as int]);
            }
            match find_peer(&peers, p.ip) {
                Some(at) => {
                    peers.set(at, p);
                },
                None => {
                    peers.push(p);
                },
            }
            i += 1;
        }
        assert(records@.take(n as int) == records@);
        cleanup_peers(&cfg, &mut peers, None);
        proof {
            lemma_initial(cfg, records@);
        }
        PeerInfoDatabase {
            cfg,
            peers,
            active_out_connection_attempts: 0,
            active_out_connections: 0,
            active_in_connections: 0,
            dump_requested: false,
        }
    }

    /// A database without peers, to stand in while the parts of another are
    /// worked on.
    fn blank() -> (db: PeerInfoDatabase)
        ensures
            db@.peers.len() == 0,
    {
        let cfg = NetworkConfig {
            routable_ip: None,
            target_out_connections: 0,
            max_out_connection_attempts: 0,
            max_in_connections: 0,
            max_in_connections_per_ip: 0,
            max_idle_peers: 0,
            max_banned_peers: 0,
            max_advertise_length: 0,
            wakeup_interval: 0,
            peers_file: String::new(),
            peers_file_dump_interval: 0,
        };
        let peers: Vec<PeerInfo> = Vec::new();
        proof {
            crate::seq_facts::lemma_select_empty(crate::cleanup::banned_class(cfg));
            crate::seq_facts::lemma_select_empty(crate::cleanup::idle_class(cfg));
        }
        PeerInfoDatabase {
            cfg,
            peers,
            active_out_connection_attempts: 0,
            active_out_connections: 0,
            active_in_connections: 0,
            dump_requested: false,
        }
    }

    /// Hands the database out by value and leaves a blank one in its place.
    fn take(&mut self) -> (taken: PeerInfoDatabase)
        ensures
            taken@ == old(self)@,
    {
        let mut taken = PeerInfoDatabase::blank();
        std::mem::swap(self, &mut taken);
        taken
    }

    /// Replaces the record at `i` by `q` and moves the aggregate counters
    /// with it; cleans the directory up if `evict` is set; requests a save if
    /// `signal` is set.
    fn replace_record(&mut self, i: usize, q: PeerInfo, evict: bool, signal: bool)
        requires
            i < old(self)@.peers.len(),
            replaced(old(self)@, i as int, q, evict, signal).well_formed(),
        ensures
            final(self)@ == replaced(old(self)@, i as int, q, evict, signal),
    {
        proof {
            use_type_invariant(&*self);
            lemma_total_update(self@.peers, i as int, q, Counter::OutAttempts);
            lemma_total_update(self@.peers, i as int, q, Counter::OutConnections);
            lemma_total_update(self@.peers, i as int, q, Counter::InConnections);
        }
        let PeerInfoDatabase {
            cfg,
            mut peers,
            active_out_connection_attempts,
            active_out_connections,
            active_in_connections,
            dump_requested,
        } = self.take();
        let p = peers[i];
        peers.set(i, q);
        if evict {
            cleanup_peers(&cfg, &mut peers, None);
        }
        *self = PeerInfoDatabase {
            cfg,
            peers,
            active_out_connection_attempts: active_out_connection_attempts
                - p.active_out_connection_attempts + q.active_out_connection_attempts,
            active_out_connections: active_out_connections - p.active_out_connections
                + q.active_out_connections,
            active_in_connections: active_in_connections - p.active_in_connections
                + q.active_in_connections,
            dump_requested: dump_requested || signal,
        };
    }

    /// Closes the database: gives the records that go to the peers file in
    /// the save that ends its life.
    pub fn stop(self) -> (records: Vec<PeerInfo>)
        ensures
            records@ == persisted(self@.peers),
    {
        peers_to_dump(&self.peers)
    }

    /// The configuration that the database was built with.
    pub fn config(&self) -> (cfg: &NetworkConfig)
        ensures
            *cfg == self@.cfg,
    {
        &self.cfg
    }

    /// The records of the directory.
    pub fn get_peers(&self) -> (peers: &Vec<PeerInfo>)
        ensures
            peers@ == self@.peers,
            self@.well_formed(),
    {
        proof {
            use_type_invariant(self);
        }
        &self.peers
    }

    /// Whether the peers changed since a save was last taken up.
    pub fn is_dump_requested(&self) -> (requested: bool)
        ensures
            requested == self@.dump_requested,
    {
        self.dump_requested
    }

    /// Takes up the request for a save: tells whether one was made, and
    /// clears it.
    pub fn take_dump_request(&mut self) -> (requested: bool)
        ensures
            requested == old(self)@.dump_requested,
            final(self)@ == old(self)@.take_dump_request(),
            final(self)@.well_formed(),
    {
        proof {
            use_type_invariant(&*self);
        }
        let requested = self.dump_requested;
        self.dump_requested = false;
        requested
    }

    /// The outbound connection attempts in flight, over all peers.
    pub fn active_out_connection_attempts(&self) -> (count: usize)
        ensures
            count == self@.active_out_connection_attempts,
            count == total(self@.peers, Counter::OutAttempts),
    {
        proof {
            use_type_invariant(self);
        }
        self.active_out_connection_attempts
    }

    /// The established outbound connections, over all peers.
    pub fn active_out_connections(&self) -> (count: usize)
        ensures
            count == self@.active_out_connections,
            count == total(self@.peers, Counter::OutConnections),
    {
        proof {
            use_type_invariant(self);
        }
        self.active_out_connections
    }

    /// The established inbound connections, over all peers.
    pub fn active_in_connections(&self) -> (count: usize)
        ensures
            count == self@.active_in_connections,
            count == total(self@.peers, Counter::InConnections),
    {
        proof {
            use_type_invariant(self);
        }
        self.active_in_connections
    }

    /// How many outbound connection attempts may be started now.
    pub fn get_available_out_connection_attempts(&self) -> (slots: usize)
        ensures
            slots == self@.available_out_connection_attempts(),
    {
        let to_target = self.cfg.target_out_connections.saturating_sub(
            self.active_out_connection_attempts,
        ).saturating_sub(self.active_out_connections);
        let to_cap = self.cfg.max_out_connection_attempts.saturating_sub(
            self.active_out_connection_attempts,
        );
        if to_target <= to_cap {
            to_target
        } else {
            to_cap
        }
    }

    /// The addresses to dial, as many as attempts may be started, given what
    /// the clock reads.
    pub fn get_out_connection_candidate_ips_at(&self, clock: Option<u64>) -> (res: Result<
        Vec<IpAddr>,
        CommunicationError,
    >)
        ensures
            match res {
                Ok(ips) => self@.get_out_connection_candidate_ips(clock) == Ok::<
                    Seq<IpAddr>,
                    CommunicationError,
                >(ips@),
                Err(e) => self@.get_out_connection_candidate_ips(clock) == Err::<
                    Seq<IpAddr>,
                    CommunicationError,
                >(e),
            },
    {
        let slots = self.get_available_out_connection_attempts();
        if slots == 0 {
            return Ok(Vec::new());
        }
        match clock {
            None => Err(CommunicationError::TimeError),
            Some(now) => Ok(dial_candidates(&self.peers, now, self.cfg.wakeup_interval, slots)),
        }
    }

    /// The addresses to dial now, as many as attempts may be started.
    pub fn get_out_connection_candidate_ips(&self) -> (res: Result<Vec<IpAddr>, CommunicationError>)
        ensures
            exists|clock: Option<u64>|
                match res {
                    Ok(ips) => (#[trigger] self@.get_out_connection_candidate_ips(clock)) == Ok::<
                        Seq<IpAddr>,
                        CommunicationError,
                    >(ips@),
                    Err(e) => self@.get_out_connection_candidate_ips(clock) == Err::<
                        Seq<IpAddr>,
                        CommunicationError,
                    >(e),
                },
    {
        let clock = system_time_millis();
        self.get_out_connection_candidate_ips_at(clock)
    }

    /// The addresses to advertise to other peers.
    pub fn get_advertisable_peer_ips(&self) -> (ips: Vec<IpAddr>)
        ensures
            ips@ == self@.advertisable_peer_ips(),
    {
        advertisable_ips(&self.cfg, &self.peers)
    }

    /// Counts a new outbound connection attempt to `ip`.
    pub fn new_out_connection_attempt(&mut self, ip: &IpAddr) -> (res: Result<
        (),
        CommunicationError,
    >)
        ensures
            res == old(self)@.new_out_connection_attempt(*ip).result,
            final(self)@ == old(self)@.new_out_connection_attempt(*ip).state,
            final(self)@.well_formed(),
    {
        proof {
            use_type_invariant(&*self);
            lemma_new_out_connection_attempt(self@, *ip);
        }
        if !ip.is_global() {
            return Err(CommunicationError::InvalidIpError(*ip));
        }
        if self.get_available_out_connection_attempts() == 0 {
            return Err(
                CommunicationError::PeerConnectionError(
                    NetworkConnectionErrorType::ToManyConnectionAttempt(*ip),
                ),
            );
        }
        match find_peer(&self.peers, *ip) {
            None => Err(
                CommunicationError::PeerConnectionError(
                    NetworkConnectionErrorType::PeerInfoNotFoundError(*ip),
                ),
            ),
            Some(i) => {
                let p = self.peers[i];
                proof {
                    lemma_total_update(self@.peers, i as int, p, Counter::OutAttempts);
                }
                let q = PeerInfo {
                    active_out_connection_attempts: p.active_out_connection_attempts + 1,
                    ..p
                };
                self.replace_record(i, q, false, false);
                Ok(())
            },
        }
    }

    /// Offers `new_peers` as new peers to the directory, which is cleaned up
    /// with them. An empty list changes nothing.
    pub fn merge_candidate_peers(&mut self, new_peers: &Vec<IpAddr>) -> (res: Result<
        (),
        CommunicationError,
    >)
        ensures
            res == old(self)@.merge_candidate_peers(new_peers@).result,
            final(self)@ == old(self)@.merge_candidate_peers(new_peers@).state,
            final(self)@.well_formed(),
    {
        proof {
            use_type_invariant(&*self);
            lemma_merge_candidate_peers(self@, new_peers@);
        }
        if new_peers.len() == 0 {
            return Ok(());
        }
        let PeerInfoDatabase {
            cfg,
            mut peers,
            active_out_connection_attempts,
            active_out_connections,
            active_in_connections,
            dump_requested: _,
        } = self.take();
        cleanup_peers(&cfg, &mut peers, Some(new_peers));
        *self = PeerInfoDatabase {
            cfg,
            peers,
            active_out_connection_attempts,
            active_out_connections,
            active_in_connections,
            dump_requested: true,
        };
        Ok(())
    }

    /// Notes that the peer at `ip` was seen alive, given what the clock
    /// reads.
    pub fn peer_alive_at(&mut self, ip: &IpAddr, clock: Option<u64>) -> (res: Result<
        (),
        CommunicationError,
    >)
        ensures
            res == old(self)@.peer_alive(*ip, clock).result,
            final(self)@ == old(self)@.peer_alive(*ip, clock).state,
            final(self)@.well_formed(),
    {
        proof {
            use_type_invariant(&*self);
            lemma_peer_alive(self@, *ip, clock);
        }
        match find_peer(&self.peers, *ip) {
            None => Err(
                CommunicationError::PeerConnectionError(
                    NetworkConnectionErrorType::PeerInfoNotFoundError(*ip),
                ),
            ),
            Some(i) => match clock {
                None => Err(CommunicationError::TimeError),
                Some(now) => {
                    let p = self.peers[i];
                    self.replace_record(i, PeerInfo { last_alive: Some(now), ..p }, false, true);
                    Ok(())
                },
            },
        }
    }

    /// Notes that the peer at `ip` was seen alive now.
    pub fn peer_alive(&mut self, ip: &IpAddr) -> (res: Result<(), CommunicationError>)
        ensures
            exists|clock: Option<u64>|
                (#[trigger] old(self)@.peer_alive(*ip, clock)) == (Outcome {
                    state: final(self)@,
                    result: res,
                }),
            final(self)@.well_formed(),
    {
        let clock = system_time_millis();
        self.peer_alive_at(ip, clock)
    }

    /// Notes that the peer at `ip` failed, given what the clock reads.
    pub fn peer_failed_at(&mut self, ip: &IpAddr, clock: Option<u64>) -> (res: Result<
        (),
        CommunicationError,
    >)
        ensures
            res == old(self)@.peer_failed(*ip, clock).result,
            final(self)@ == old(self)@.peer_failed(*ip, clock).state,
            final(self)@.well_formed(),
    {
        proof {
            use_type_invariant(&*self);
            lemma_peer_failed(self@, *ip, clock);
        }
        match find_peer(&self.peers, *ip) {
            None => Err(
                CommunicationError::PeerConnectionError(
                    NetworkConnectionErrorType::PeerInfoNotFoundError(*ip),
                ),
            ),
            Some(i) => match clock {
                None => Err(CommunicationError::TimeError),
                Some(now) => {
                    let p = self.peers[i];
                    self.replace_record(i, PeerInfo { last_failure: Some(now), ..p }, false, true);
                    Ok(())
                },
            },
        }
    }

    /// Notes that the peer at `ip` failed now.
    pub fn peer_failed(&mut self, ip: &IpAddr) -> (res: Result<(), CommunicationError>)
        ensures
            exists|clock: Option<u64>|
                (#[trigger] old(self)@.peer_failed(*ip, clock)) == (Outcome {
                    state: final(self)@,
                    result: res,
                }),
            final(self)@.well_formed(),
    {
        let clock = system_time_millis();
        self.peer_failed_at(ip, clock)
    }

    /// Bans the peer at `ip`, given what the clock reads.
    pub fn peer_banned_at(&mut self, ip: &IpAddr, clock: Option<u64>) -> (res: Result<
        (),
        CommunicationError,
    >)
        ensures
            res == old(self)@.peer_banned(*ip, clock).result,
            final(self)@ == old(self)@.peer_banned(*ip, clock).state,
            final(self)@.well_formed(),
    {
        proof {
            use_type_invariant(&*self);
            lemma_peer_banned(self@, *ip, clock);
        }
        match find_peer(&self.peers, *ip) {
            None => Err(
                CommunicationError::PeerConnectionError(
                    NetworkConnectionErrorType::PeerInfoNotFoundError(*ip),
                ),
            ),
            Some(i) => match clock {
                None => Err(CommunicationError::TimeError),
                Some(now) => {
                    let p = self.peers[i];
                    let evict = !p.banned && !p.is_active() && !p.bootstrap;
                    self.replace_record(
                        i,
                        PeerInfo { last_failure: Some(now), banned: true, ..p },
                        evict,
                        true,
                    );
                    Ok(())
                },
            },
        }
    }

    /// Bans the peer at `ip` now.
    pub fn peer_banned(&mut self, ip: &IpAddr) -> (res: Result<(), CommunicationError>)
        ensures
            exists|clock: Option<u64>|
                (#[trigger] old(self)@.peer_banned(*ip, clock)) == (Outcome {
                    state: final(self)@,
                    result: res,
                }),
            final(self)@.well_formed(),
    {
        let clock = system_time_millis();
        self.peer_banned_at(ip, clock)
    }

    /// Notes that an outbound connection to `ip` was closed.
    pub fn out_connection_closed(&mut self, ip: &IpAddr) -> (res: Result<(), CommunicationError>)
        ensures
            res == old(self)@.out_connection_closed(*ip).result,
            final(self)@ == old(self)@.out_connection_closed(*ip).state,
            final(self)@.well_formed(),
    {
        proof {
            use_type_invariant(&*self);
            lemma_out_connection_closed(self@, *ip);
        }
        if self.active_out_connections == 0 {
            return Err(
                CommunicationError::PeerConnectionError(
                    NetworkConnectionErrorType::CloseConnectionWithNoConnectionToClose(*ip),
                ),
            );
        }
        match find_peer(&self.peers, *ip) {
            None => Err(
                CommunicationError::PeerConnectionError(
                    NetworkConnectionErrorType::PeerInfoNotFoundError(*ip),
                ),
            ),
            Some(i) => {
                let p = self.peers[i];
                if p.active_out_connections == 0 {
                    return Err(
                        CommunicationError::PeerConnectionError(
                            NetworkConnectionErrorType::CloseConnectionWithNoConnectionToClose(
                                *ip,
                            ),
                        ),
                    );
                }
                let q = PeerInfo { active_out_connections: p.active_out_connections - 1, ..p };
                let idle = !q.is_active() && !q.bootstrap;
                self.replace_record(i, q, idle, idle);
                Ok(())
            },
        }
    }

    /// Notes that an inbound connection from `ip` was closed.
    pub fn in_connection_closed(&mut self, ip: &IpAddr) -> (res: Result<(), CommunicationError>)
        ensures
            res == old(self)@.in_connection_closed(*ip).result,
            final(self)@ == old(self)@.in_connection_closed(*ip).state,
            final(self)@.well_formed(),
    {
        proof {
            use_type_invariant(&*self);
            lemma_in_connection_closed(self@, *ip);
        }
        if self.active_in_connections == 0 {
            return Err(
                CommunicationError::PeerConnectionError(
                    NetworkConnectionErrorType::CloseConnectionWithNoConnectionToClose(*ip),
                ),
            );
        }
        match find_peer(&self.peers, *ip) {
            None => Err(
                CommunicationError::PeerConnectionError(
                    NetworkConnectionErrorType::PeerInfoNotFoundError(*ip),
                ),
            ),
            Some(i) => {
                let p = self.peers[i];
                if p.active_in_connections == 0 {
                    return Err(
                        CommunicationError::PeerConnectionError(
                            NetworkConnectionErrorType::CloseConnectionWithNoConnectionToClose(
                                *ip,
                            ),
                        ),
                    );
                }
                let q = PeerInfo { active_in_connections: p.active_in_connections - 1, ..p };
                let idle = !q.is_active() && !q.bootstrap;
                self.replace_record(i, q, idle, idle);
                Ok(())
            },
        }
    }

    /// Notes that an outbound attempt to `ip` succeeded, given what the clock
    /// reads, and tells whether the connection is to be kept.
    pub fn try_out_connection_attempt_success_at(
        &mut self,
        ip: &IpAddr,
        clock: Option<u64>,
    ) -> (res: Result<bool, CommunicationError>)
        ensures
            res == old(self)@.try_out_connection_attempt_success(*ip, clock).result,
            final(self)@ == old(self)@.try_out_connection_attempt_success(*ip, clock).state,
            final(self)@.well_formed(),
    {
        proof {
            use_type_invariant(&*self);
            lemma_try_out_connection_attempt_success(self@, *ip, clock);
        }
        if self.active_out_connection_attempts == 0 {
            return Err(
                CommunicationError::PeerConnectionError(
                    NetworkConnectionErrorType::ToManyConnectionAttempt(*ip),
                ),
            );
        }
        if self.active_out_connections >= self.cfg.target_out_connections {
            return Ok(false);
        }
        match find_peer(&self.peers, *ip) {
            None => Err(
                CommunicationError::PeerConnectionError(
                    NetworkConnectionErrorType::PeerInfoNotFoundError(*ip),
                ),
            ),
            Some(i) => {
                let p = self.peers[i];
                proof {
                    lemma_total_update(self@.peers, i as int, p, Counter::OutConnections);
                }
                if p.active_out_connection_attempts == 0 {
                    return Err(
                        CommunicationError::PeerConnectionError(
                            NetworkConnectionErrorType::ToManyConnectionAttempt(*ip),
                        ),
                    );
                }
                if p.banned {
                    match clock {
                        None => Err(CommunicationError::TimeError),
                        Some(now) => {
                            let q = PeerInfo {
                                active_out_connection_attempts: p.active_out_connection_attempts
                                    - 1,
                                advertised: true,
                                last_failure: Some(now),
                                ..p
                            };
                            let evict = !q.is_active() && !q.bootstrap;
                            self.replace_record(i, q, evict, true);
                            Ok(false)
                        },
                    }
                } else {
                    let q = PeerInfo {
                        active_out_connection_attempts: p.active_out_connection_attempts - 1,
                        active_out_connections: p.active_out_connections + 1,
                        advertised: true,
                        ..p
                    };
                    self.replace_record(i, q, false, true);
                    Ok(true)
                }
            },
        }
    }

    /// Notes that an outbound attempt to `ip` succeeded, and tells whether
    /// the connection is to be kept.
    pub fn try_out_connection_attempt_success(&mut self, ip: &IpAddr) -> (res: Result<
        bool,
        CommunicationError,
    >)
        ensures
            exists|clock: Option<u64>|
                (#[trigger] old(self)@.try_out_connection_attempt_success(*ip, clock)) == (Outcome {
                    state: final(self)@,
                    result: res,
                }),
            final(self)@.well_formed(),
    {
        let clock = system_time_millis();
        self.try_out_connection_attempt_success_at(ip, clock)
    }

    /// Notes that an outbound attempt to `ip` failed, given what the clock
    /// reads.
    pub fn out_connection_attempt_failed_at(&mut self, ip: &IpAddr, clock: Option<u64>) -> (res:
        Result<(), CommunicationError>)
        ensures
            res == old(self)@.out_connection_attempt_failed(*ip, clock).result,
            final(self)@ == old(self)@.out_connection_attempt_failed(*ip, clock).state,
            final(self)@.well_formed(),
    {
        proof {
            use_type_invariant(&*self);
            lemma_out_connection_attempt_failed(self@, *ip, clock);
        }
        if self.active_out_connection_attempts == 0 {
            return Err(
                CommunicationError::PeerConnectionError(
                    NetworkConnectionErrorType::ToManyConnectionFailure(*ip),
                ),
            );
        }
        match find_peer(&self.peers, *ip) {
            None => Err(
                CommunicationError::PeerConnectionError(
                    NetworkConnectionErrorType::PeerInfoNotFoundError(*ip),
                ),
            ),
            Some(i) => {
                let p = self.peers[i];
                if p.active_out_connection_attempts == 0 {
                    return Err(
                        CommunicationError::PeerConnectionError(
                            NetworkConnectionErrorType::ToManyConnectionFailure(*ip),
                        ),
                    );
                }
                match clock {
                    None => Err(CommunicationError::TimeError),
                    Some(now) => {
                        let q = PeerInfo {
                            active_out_connection_attempts: p.active_out_connection_attempts - 1,
                            last_failure: Some(now),
                            ..p
                        };
                        let evict = !q.is_active() && !q.bootstrap;
                        self.replace_record(i, q, evict, true);
                        Ok(())
                    },
                }
            },
        }
    }

    /// Notes that an outbound attempt to `ip` failed.
    pub fn out_connection_attempt_failed(&mut self, ip: &IpAddr) -> (res: Result<
        (),
        CommunicationError,
    >)
        ensures
            exists|clock: Option<u64>|
                (#[trigger] old(self)@.out_connection_attempt_failed(*ip, clock)) == (Outcome {
                    state: final(self)@,
                    result: res,
                }),
            final(self)@.well_formed(),
    {
        let clock = system_time_millis();
        self.out_connection_attempt_failed_at(ip, clock)
    }

    /// Decides on an inbound connection from `ip`, given what the clock
    /// reads: `true` where it is accepted and counted.
    pub fn try_new_in_connection_at(&mut self, ip: &IpAddr, clock: Option<u64>) -> (res: Result<
        bool,
        CommunicationError,
    >)
        ensures
            res == old(self)@.try_new_in_connection(*ip, clock).result,
            final(self)@ == old(self)@.try_new_in_connection(*ip, clock).state,
            final(self)@.well_formed(),
    {
        proof {
            use_type_invariant(&*self);
            lemma_try_new_in_connection(self@, *ip, clock);
        }
        if !ip.is_global() || self.active_in_connections >= self.cfg.max_in_connections
            || self.cfg.max_in_connections_per_ip == 0 || self.cfg.is_own_ip(*ip) {
            return Ok(false);
        }
        match find_peer(&self.peers, *ip) {
            None => {
                let p = PeerInfo::unconnected(*ip, false);
                let PeerInfoDatabase {
                    cfg,
                    mut peers,
                    active_out_connection_attempts,
                    active_out_connections,
                    active_in_connections,
                    dump_requested: _,
                } = self.take();
                peers.push(PeerInfo { active_in_connections: 1, ..p });
                *self = PeerInfoDatabase {
                    cfg,
                    peers,
                    active_out_connection_attempts,
                    active_out_connections,
                    active_in_connections: active_in_connections + 1,
                    dump_requested: true,
                };
                Ok(true)
            },
            Some(i) => {
                let p = self.peers[i];
                if p.banned {
                    match clock {
                        None => Err(CommunicationError::TimeError),
                        Some(now) => {
                            self.replace_record(
                                i,
                                PeerInfo { last_failure: Some(now), ..p },
                                false,
                                true,
                            );
                            Ok(false)
                        },
                    }
                } else if p.active_in_connections >= self.cfg.max_in_connections_per_ip {
                    self.dump_requested = true;
                    Ok(false)
                } else {
                    self.replace_record(
                        i,
                        PeerInfo { active_in_connections: p.active_in_connections + 1, ..p },
                        false,
                        true,
                    );
                    Ok(true)
                }
            },
        }
    }

    /// Decides on an inbound connection from `ip`: `true` where it is
    /// accepted and counted.
    pub fn try_new_in_connection(&mut self, ip: &IpAddr) -> (res: Result<bool, CommunicationError>)
        ensures
            exists|clock: Option<u64>|
                (#[trigger] old(self)@.try_new_in_connection(*ip, clock)) == (Outcome {
                    state: final(self)@,
                    result: res,
                }),
            final(self)@.well_formed(),
    {
        let clock = system_time_millis();
        self.try_new_in_connection_at(ip, clock)
    }
}

} // verus!

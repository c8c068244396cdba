use peer_database::address::IpAddr;
use peer_database::config::NetworkConfig;
use peer_database::database::PeerInfoDatabase;
use peer_database::error::{CommunicationError, NetworkConnectionErrorType};
use peer_database::peer::PeerInfo;

const NOW: u64 = 1_700_000_000_000;

fn ip(last: u8) -> IpAddr {
    IpAddr::v4(169, 202, 0, last)
}

fn example_network_config() -> NetworkConfig {
    NetworkConfig {
        routable_ip: Some(IpAddr::v4(127, 0, 0, 1)),
        target_out_connections: 10,
        max_out_connection_attempts: 15,
        max_in_connections: 5,
        max_in_connections_per_ip: 2,
        max_idle_peers: 3,
        max_banned_peers: 3,
        max_advertise_length: 5,
        wakeup_interval: 10_000,
        peers_file: String::new(),
        peers_file_dump_interval: 10_000,
    }
}

fn default_peer_info_not_connected(ip: IpAddr) -> PeerInfo {
    PeerInfo {
        ip,
        banned: false,
        bootstrap: true,
        last_alive: None,
        last_failure: None,
        advertised: true,
        active_out_connection_attempts: 0,
        active_out_connections: 0,
        active_in_connections: 0,
    }
}

fn two_peers_database(network_config: NetworkConfig) -> PeerInfoDatabase {
    let connected_peers1 = default_peer_info_not_connected(ip(11));
    let mut connected_peers2 = default_peer_info_not_connected(ip(12));
    connected_peers2.bootstrap = true;
    connected_peers2.banned = true;
    PeerInfoDatabase::new(network_config, vec![connected_peers1, connected_peers2])
}

fn record(db: &PeerInfoDatabase, ip: IpAddr) -> PeerInfo {
    *db.get_peers().iter().find(|p| p.ip == ip).unwrap()
}

fn totals(db: &PeerInfoDatabase) -> (usize, usize, usize) {
    let peers = db.get_peers();
    (
        peers.iter().map(|p| p.active_out_connection_attempts).sum(),
        peers.iter().map(|p| p.active_out_connections).sum(),
        peers.iter().map(|p| p.active_in_connections).sum(),
    )
}

#[test]
fn test_try_new_in_connection_in_connection_closed() {
    let mut network_config = example_network_config();
    network_config.target_out_connections = 5;
    let mut db = two_peers_database(network_config);

    // test with no connection attempt before
    let res = db.in_connection_closed(&ip(11));
    if let Err(CommunicationError::PeerConnectionError(
        NetworkConnectionErrorType::CloseConnectionWithNoConnectionToClose(ip_err),
    )) = res
    {
        assert_eq!(ip(11), ip_err);
    } else {
        assert!(false, "ToManyConnectionAttempt error not return");
    }

    let res = db.try_new_in_connection(&IpAddr::v4(192, 168, 0, 11)).unwrap();
    assert!(!res, "not global ip not detected.");
    let res = db.try_new_in_connection(&IpAddr::v4(127, 0, 0, 1)).unwrap();
    assert!(!res, "local ip not detected.");

    let res = db.try_new_in_connection(&ip(11)).unwrap();
    assert!(res, "in connection not accepted.");
    let res = db.try_new_in_connection(&ip(12)).unwrap();
    assert!(!res, "banned peer not detected.");

    // test with a not connected peer
    let res = db.in_connection_closed(&ip(12));
    if let Err(CommunicationError::PeerConnectionError(
        NetworkConnectionErrorType::CloseConnectionWithNoConnectionToClose(ip_err),
    )) = res
    {
        assert_eq!(ip(12), ip_err);
    } else {
        assert!(false, "ToManyConnectionAttempt error not return");
    }

    // test with an unknown peer
    let res = db.in_connection_closed(&ip(13));
    if let Err(CommunicationError::PeerConnectionError(
        NetworkConnectionErrorType::PeerInfoNotFoundError(ip_err),
    )) = res
    {
        assert_eq!(ip(13), ip_err);
    } else {
        assert!(false, "PeerInfoNotFoundError error not return");
    }

    db.in_connection_closed(&ip(11)).unwrap();
    let res = db.in_connection_closed(&ip(11));
    if let Err(CommunicationError::PeerConnectionError(
        NetworkConnectionErrorType::CloseConnectionWithNoConnectionToClose(ip_err),
    )) = res
    {
        assert_eq!(ip(11), ip_err);
    } else {
        assert!(false, "ToManyConnectionAttempt error not return");
    }
}

#[test]
fn test_out_connection_attempt_failed() {
    let mut network_config = example_network_config();
    network_config.target_out_connections = 5;
    let mut db = two_peers_database(network_config);

    // test with no connection attempt before
    let res = db.out_connection_attempt_failed(&ip(11));
    if let Err(CommunicationError::PeerConnectionError(
        NetworkConnectionErrorType::ToManyConnectionFailure(ip_err),
    )) = res
    {
        assert_eq!(ip(11), ip_err);
    } else {
        println!("res:{:?}", res);
        assert!(false, "ToManyConnectionFailure error not return");
    }

    db.new_out_connection_attempt(&ip(11)).unwrap();

    // peer not found.
    let res = db.out_connection_attempt_failed(&ip(13));
    if let Err(CommunicationError::PeerConnectionError(
        NetworkConnectionErrorType::PeerInfoNotFoundError(ip_err),
    )) = res
    {
        assert_eq!(ip(13), ip_err);
    } else {
        println!("res:{:?}", res);
        assert!(false, "PeerInfoNotFoundError error not return");
    }
    // peer with no attempt.
    let res = db.out_connection_attempt_failed(&ip(12));
    if let Err(CommunicationError::PeerConnectionError(
        NetworkConnectionErrorType::ToManyConnectionFailure(ip_err),
    )) = res
    {
        assert_eq!(ip(12), ip_err);
    } else {
        println!("res:{:?}", res);
        assert!(false, "ToManyConnectionFailure error not return");
    }

    // call ok.
    db.out_connection_attempt_failed(&ip(11)).expect("out_connection_attempt_failed failed");

    let res = db.out_connection_attempt_failed(&ip(11));
    if let Err(CommunicationError::PeerConnectionError(
        NetworkConnectionErrorType::ToManyConnectionFailure(ip_err),
    )) = res
    {
        assert_eq!(ip(11), ip_err);
    } else {
        assert!(false, "ToManyConnectionFailure error not return");
    }
}

#[test]
fn test_try_out_connection_attempt_success() {
    let mut network_config = example_network_config();
    network_config.target_out_connections = 5;
    let mut db = two_peers_database(network_config);

    // test with no connection attempt before
    let res = db.try_out_connection_attempt_success(&ip(11));
    if let Err(CommunicationError::PeerConnectionError(
        NetworkConnectionErrorType::ToManyConnectionAttempt(ip_err),
    )) = res
    {
        assert_eq!(ip(11), ip_err);
    } else {
        assert!(false, "ToManyConnectionAttempt error not return");
    }

    db.new_out_connection_attempt(&ip(11)).unwrap();

    // peer not found.
    let res = db.try_out_connection_attempt_success(&ip(13));
    if let Err(CommunicationError::PeerConnectionError(
        NetworkConnectionErrorType::PeerInfoNotFoundError(ip_err),
    )) = res
    {
        assert_eq!(ip(13), ip_err);
    } else {
        println!("res:{:?}", res);
        assert!(false, "PeerInfoNotFoundError error not return");
    }

    let res = db.try_out_connection_attempt_success(&ip(11)).unwrap();
    assert!(res, "try_out_connection_attempt_success failed");

    let res = db.try_out_connection_attempt_success(&ip(12));
    if let Err(CommunicationError::PeerConnectionError(
        NetworkConnectionErrorType::ToManyConnectionAttempt(ip_err),
    )) = res
    {
        assert_eq!(ip(12), ip_err);
    } else {
        assert!(false, "PeerInfoNotFoundError error not return");
    }

    db.new_out_connection_attempt(&ip(12)).unwrap();
    let res = db.try_out_connection_attempt_success(&ip(12)).unwrap();
    assert!(!res, "try_out_connection_attempt_success not banned");
}

#[test]
fn test_new_out_connection_closed() {
    let mut network_config = example_network_config();
    network_config.max_out_connection_attempts = 5;
    let mut db =
        PeerInfoDatabase::new(network_config, vec![default_peer_info_not_connected(ip(11))]);

    let res = db.out_connection_closed(&ip(11));
    if let Err(CommunicationError::PeerConnectionError(
        NetworkConnectionErrorType::CloseConnectionWithNoConnectionToClose(ip_err),
    )) = res
    {
        assert_eq!(ip(11), ip_err);
    } else {
        assert!(false, "CloseConnectionWithNoConnectionToClose error not return");
    }

    // add a new connection attempt
    db.new_out_connection_attempt(&ip(11)).unwrap();
    let res = db.try_out_connection_attempt_success(&ip(11)).unwrap();
    assert!(res, "try_out_connection_attempt_success failed");

    let res = db.out_connection_closed(&ip(12));
    if let Err(CommunicationError::PeerConnectionError(
        NetworkConnectionErrorType::PeerInfoNotFoundError(ip_err),
    )) = res
    {
        assert_eq!(ip(12), ip_err);
    } else {
        assert!(false, "PeerInfoNotFoundError error not return");
    }

    db.out_connection_closed(&ip(11)).unwrap();
    let res = db.out_connection_closed(&ip(11));
    if let Err(CommunicationError::PeerConnectionError(
        NetworkConnectionErrorType::CloseConnectionWithNoConnectionToClose(ip_err),
    )) = res
    {
        assert_eq!(ip(11), ip_err);
    } else {
        assert!(false, "CloseConnectionWithNoConnectionToClose error not return");
    }
}

#[test]
fn test_new_out_connection_attempt() {
    let mut network_config = example_network_config();
    network_config.max_out_connection_attempts = 5;
    let mut db =
        PeerInfoDatabase::new(network_config, vec![default_peer_info_not_connected(ip(11))]);

    // test with a non-global address.
    let res = db.new_out_connection_attempt(&IpAddr::v4(192, 168, 0, 11));
    if let Err(CommunicationError::InvalidIpError(ip_err)) = res {
        assert_eq!(IpAddr::v4(192, 168, 0, 11), ip_err);
    } else {
        assert!(false, "InvalidIpError not return");
    }

    let res = db.new_out_connection_attempt(&ip(12));
    if let Err(CommunicationError::PeerConnectionError(
        NetworkConnectionErrorType::PeerInfoNotFoundError(ip_err),
    )) = res
    {
        assert_eq!(ip(12), ip_err);
    } else {
        assert!(false, "PeerInfoNotFoundError error not return");
    }

    (0..5).for_each(|_| db.new_out_connection_attempt(&ip(11)).unwrap());
    let res = db.new_out_connection_attempt(&ip(11));
    if let Err(CommunicationError::PeerConnectionError(
        NetworkConnectionErrorType::ToManyConnectionAttempt(ip_err),
    )) = res
    {
        assert_eq!(ip(11), ip_err);
    } else {
        assert!(false, "ToManyConnectionAttempt error not return");
    }
}

#[test]
fn test_get_advertisable_peer_ips() {
    let network_config = example_network_config();
    let mut peers: Vec<PeerInfo> = Vec::new();

    // peer Ok, return
    peers.push(default_peer_info_not_connected(ip(11)));
    // peer banned not return.
    let mut banned_host1 = default_peer_info_not_connected(ip(23));
    banned_host1.bootstrap = true;
    banned_host1.banned = true;
    banned_host1.last_alive = Some(NOW - 1000);
    peers.push(banned_host1);
    // peer not advertised, not return
    let mut connected_peers1 = default_peer_info_not_connected(ip(18));
    connected_peers1.advertised = false;
    peers.push(connected_peers1);
    // peer Ok, return
    let mut connected_peers2 = default_peer_info_not_connected(ip(13));
    connected_peers2.last_alive = Some(NOW - 800);
    connected_peers2.last_failure = Some(NOW - 1000);
    peers.push(connected_peers2);
    // peer Ok, connected return
    let mut connected_peers1 = default_peer_info_not_connected(ip(17));
    connected_peers1.last_alive = Some(NOW - 900);
    peers.push(connected_peers1);
    // peer failure before alive but to early. return
    let mut connected_peers2 = default_peer_info_not_connected(ip(14));
    connected_peers2.last_alive = Some(NOW - 800);
    connected_peers2.last_failure = Some(NOW - 2000);
    peers.push(connected_peers2);

    let mut db = PeerInfoDatabase::new(network_config, peers);
    // the peer at .17 has one outbound connection
    db.new_out_connection_attempt(&ip(17)).unwrap();
    assert!(db.try_out_connection_attempt_success(&ip(17)).unwrap());
    assert_eq!(1, record(&db, ip(17)).active_out_connections);
    assert_eq!(Some(NOW - 900), record(&db, ip(17)).last_alive);

    let ip_list = db.get_advertisable_peer_ips();

    assert_eq!(5, ip_list.len());

    assert_eq!(IpAddr::v4(127, 0, 0, 1), ip_list[0]);
    assert_eq!(ip(14), ip_list[1]);
    assert_eq!(ip(13), ip_list[2]);
    assert_eq!(ip(17), ip_list[3]);
    assert_eq!(ip(11), ip_list[4]);
}

fn dial_scenario_database() -> PeerInfoDatabase {
    let network_config = example_network_config();
    let mut peers: Vec<PeerInfo> = Vec::new();

    // peer Ok, return
    peers.push(default_peer_info_not_connected(ip(11)));
    // peer failure to early. not return
    let mut connected_peers2 = default_peer_info_not_connected(ip(12));
    connected_peers2.last_failure = Some(NOW - 900);
    peers.push(connected_peers2);
    // peer failure before alive but to early. return
    let mut connected_peers2 = default_peer_info_not_connected(ip(13));
    connected_peers2.last_alive = Some(NOW - 900);
    connected_peers2.last_failure = Some(NOW - 1000);
    peers.push(connected_peers2);
    // peer alive no failure. return
    let mut connected_peers1 = default_peer_info_not_connected(ip(14));
    connected_peers1.last_alive = Some(NOW - 1000);
    peers.push(connected_peers1);
    // peer banned not return.
    let mut banned_host1 = default_peer_info_not_connected(ip(23));
    banned_host1.bootstrap = true;
    banned_host1.banned = true;
    banned_host1.last_alive = Some(NOW - 1000);
    peers.push(banned_host1);
    // peer failure after alive not to early. return
    let mut connected_peers2 = default_peer_info_not_connected(ip(15));
    connected_peers2.last_alive = Some(NOW - 12000);
    connected_peers2.last_failure = Some(NOW - 11000);
    peers.push(connected_peers2);
    // peer failure after alive to early. not return
    let mut connected_peers2 = default_peer_info_not_connected(ip(16));
    connected_peers2.last_alive = Some(NOW - 2000);
    connected_peers2.last_failure = Some(NOW - 1000);
    peers.push(connected_peers2);
    // peer Ok, connected, not return
    peers.push(default_peer_info_not_connected(ip(17)));
    // peer Ok, not advertised, not return
    let mut connected_peers1 = default_peer_info_not_connected(ip(18));
    connected_peers1.advertised = false;
    peers.push(connected_peers1);

    let mut db = PeerInfoDatabase::new(network_config, peers);
    // the peer at .17 has one outbound connection
    db.new_out_connection_attempt(&ip(17)).unwrap();
    assert!(db.try_out_connection_attempt_success(&ip(17)).unwrap());
    db
}

#[test]
fn test_get_out_connection_candidate_ips() {
    let db = dial_scenario_database();
    assert_eq!(1, record(&db, ip(17)).active_out_connections);

    let ip_list = db.get_out_connection_candidate_ips_at(Some(NOW)).unwrap();
    assert_eq!(4, ip_list.len());

    assert_eq!(ip(14), ip_list[0]);
    assert_eq!(ip(11), ip_list[1]);
    assert_eq!(ip(15), ip_list[2]);
    assert_eq!(ip(13), ip_list[3]);
}

#[test]
fn test() {
    let cfg = example_network_config();
    let octets: [[u8; 4]; 5] =
        [[45, 12, 8, 9], [81, 7, 3, 200], [150, 44, 6, 1], [93, 184, 216, 34], [8, 8, 4, 4]];
    let mut peers: Vec<PeerInfo> = Vec::new();
    for (i, o) in octets.iter().enumerate() {
        peers.push(PeerInfo {
            ip: IpAddr::v4(o[0], o[1], o[2], o[3]),
            banned: (o[0] % 5) == 0,
            bootstrap: (o[1] % 2) == 0,
            last_alive: match i % 4 {
                0 => None,
                _ => Some(NOW - 50000),
            },
            last_failure: match i % 5 {
                0 => None,
                _ => Some(NOW - 60000),
            },
            advertised: (o[2] % 2) == 0,
            active_out_connection_attempts: 0,
            active_out_connections: 0,
            active_in_connections: 0,
        });
    }
    let peer_db = PeerInfoDatabase::new(cfg, peers);
    let p = peer_db.get_peers().iter().next().unwrap();
    assert_eq!(p.is_active(), false);
}

#[test]
fn dial_candidates_are_cut_to_the_available_attempts() {
    let mut db = dial_scenario_database();
    // nine attempts may be started: ten connections aimed at, one established
    assert_eq!(9, db.get_available_out_connection_attempts());
    for _ in 0..7 {
        db.new_out_connection_attempt(&ip(17)).unwrap();
    }
    assert_eq!(2, db.get_available_out_connection_attempts());
    let ip_list = db.get_out_connection_candidate_ips_at(Some(NOW)).unwrap();
    assert_eq!(vec![ip(14), ip(11)], ip_list);
}

#[test]
fn dial_candidates_wait_for_the_wakeup_interval() {
    let db = dial_scenario_database();
    // .12 failed 900 ms before NOW: eligible once more than 10 s have passed
    let at = |now: u64| db.get_out_connection_candidate_ips_at(Some(now)).unwrap();
    assert!(!at(NOW).contains(&ip(12)));
    assert!(!at(NOW - 900 + 10_000).contains(&ip(12)));
    assert!(at(NOW - 900 + 10_001).contains(&ip(12)));
    // a clock that stands before the failure does not make the peer eligible
    assert!(!at(NOW - 5_000).contains(&ip(12)));
    // every candidate is advertised, not banned and without connections
    for candidate in at(NOW + 100_000) {
        let p = record(&db, candidate);
        assert!(p.advertised && !p.banned && !p.is_active());
    }
    // failed longest ago first; of .13 and .16, which failed together, the
    // one that was alive last
    assert_eq!(
        vec![ip(14), ip(11), ip(15), ip(13), ip(16), ip(12)],
        at(NOW + 100_000)
    );
}

#[test]
fn dial_candidates_need_the_clock_only_where_attempts_are_available() {
    let mut network_config = example_network_config();
    network_config.target_out_connections = 0;
    let db = two_peers_database(network_config);
    assert_eq!(0, db.get_available_out_connection_attempts());
    assert_eq!(Ok(Vec::new()), db.get_out_connection_candidate_ips_at(None));
    assert_eq!(Ok(Vec::new()), db.get_out_connection_candidate_ips());

    let db = two_peers_database(example_network_config());
    assert_eq!(
        Err(CommunicationError::TimeError),
        db.get_out_connection_candidate_ips_at(None)
    );
    assert_eq!(Ok(vec![ip(11)]), db.get_out_connection_candidate_ips());
}

#[test]
fn available_attempts_saturate_at_zero() {
    let mut network_config = example_network_config();
    network_config.target_out_connections = 3;
    network_config.max_out_connection_attempts = 2;
    let mut db = two_peers_database(network_config);
    // min(3 - 0 - 0, 2 - 0)
    assert_eq!(2, db.get_available_out_connection_attempts());
    db.new_out_connection_attempt(&ip(11)).unwrap();
    // min(3 - 1 - 0, 2 - 1)
    assert_eq!(1, db.get_available_out_connection_attempts());
    assert!(db.try_out_connection_attempt_success(&ip(11)).unwrap());
    // min(3 - 0 - 1, 2 - 0)
    assert_eq!(2, db.get_available_out_connection_attempts());
    db.new_out_connection_attempt(&ip(11)).unwrap();
    db.new_out_connection_attempt(&ip(11)).unwrap();
    // min(3 - 2 - 1, 2 - 2)
    assert_eq!(0, db.get_available_out_connection_attempts());
    assert!(db.try_out_connection_attempt_success(&ip(11)).unwrap());
    assert!(db.try_out_connection_attempt_success(&ip(11)).unwrap());
    // three connections, none aimed at beyond: 3 - 0 - 3
    assert_eq!(0, db.get_available_out_connection_attempts());

    let mut network_config = example_network_config();
    network_config.target_out_connections = 0;
    network_config.max_out_connection_attempts = 0;
    let db = two_peers_database(network_config);
    assert_eq!(0, db.get_available_out_connection_attempts());
}

#[test]
fn no_attempt_is_started_beyond_the_target() {
    let mut network_config = example_network_config();
    network_config.target_out_connections = 1;
    network_config.max_out_connection_attempts = 1;
    let mut db = two_peers_database(network_config);
    db.new_out_connection_attempt(&ip(11)).unwrap();
    assert_eq!(Ok(true), db.try_out_connection_attempt_success_at(&ip(11), Some(NOW)));
    db.out_connection_closed(&ip(11)).unwrap();
    db.new_out_connection_attempt(&ip(11)).unwrap();
    assert_eq!(Ok(true), db.try_out_connection_attempt_success_at(&ip(11), Some(NOW)));
    // the target is reached: no attempt can be started
    assert_eq!(
        Err(CommunicationError::PeerConnectionError(
            NetworkConnectionErrorType::ToManyConnectionAttempt(ip(12))
        )),
        db.new_out_connection_attempt(&ip(12))
    );
    assert_eq!((0, 1, 0), totals(&db));
}

#[test]
fn aggregate_counters_are_the_sums_of_the_records() {
    let mut db = dial_scenario_database();
    assert_eq!((0, 1, 0), totals(&db));
    db.new_out_connection_attempt(&ip(11)).unwrap();
    db.new_out_connection_attempt(&ip(13)).unwrap();
    db.new_out_connection_attempt(&ip(13)).unwrap();
    assert_eq!((3, 1, 0), totals(&db));
    // 10 aimed at, 3 in flight, 1 established
    assert_eq!(6, db.get_available_out_connection_attempts());
    assert_eq!(Ok(true), db.try_out_connection_attempt_success_at(&ip(13), Some(NOW)));
    db.out_connection_attempt_failed_at(&ip(13), Some(NOW)).unwrap();
    assert_eq!((1, 2, 0), totals(&db));
    assert_eq!(7, db.get_available_out_connection_attempts());
    assert_eq!(Ok(true), db.try_new_in_connection_at(&ip(14), Some(NOW)));
    assert_eq!(Ok(true), db.try_new_in_connection_at(&ip(14), Some(NOW)));
    assert_eq!(Ok(true), db.try_new_in_connection_at(&ip(99), Some(NOW)));
    assert_eq!((1, 2, 3), totals(&db));
    db.in_connection_closed(&ip(14)).unwrap();
    db.out_connection_closed(&ip(17)).unwrap();
    assert_eq!((1, 1, 2), totals(&db));
    // an error leaves the counters alone
    assert!(db.out_connection_closed(&ip(14)).is_err());
    assert!(db.in_connection_closed(&ip(11)).is_err());
    assert!(db.out_connection_attempt_failed_at(&ip(14), Some(NOW)).is_err());
    assert_eq!((1, 1, 2), totals(&db));
    assert_eq!(8, db.get_available_out_connection_attempts());
}

#[test]
fn inbound_connections_are_capped_per_address_and_in_all() {
    let mut network_config = example_network_config();
    network_config.max_in_connections = 3;
    let mut db = two_peers_database(network_config);
    assert_eq!(Ok(true), db.try_new_in_connection_at(&ip(11), None));
    assert_eq!(Ok(true), db.try_new_in_connection_at(&ip(11), None));
    // two per address
    db.take_dump_request();
    assert_eq!(Ok(false), db.try_new_in_connection_at(&ip(11), None));
    assert!(db.is_dump_requested());
    assert_eq!(2, record(&db, ip(11)).active_in_connections);
    // a peer that is not known gets a record that is not advertised
    assert_eq!(Ok(true), db.try_new_in_connection_at(&ip(50), None));
    let p = record(&db, ip(50));
    assert!(!p.advertised && !p.banned && !p.bootstrap);
    assert_eq!(1, p.active_in_connections);
    assert_eq!((None, None), (p.last_alive, p.last_failure));
    // three in all
    db.take_dump_request();
    assert_eq!(Ok(false), db.try_new_in_connection_at(&ip(51), None));
    assert!(!db.is_dump_requested());
    assert!(db.get_peers().iter().all(|p| p.ip != ip(51)));
    assert_eq!((0, 0, 3), totals(&db));
}

#[test]
fn no_inbound_connection_without_a_quota_per_address() {
    let mut network_config = example_network_config();
    network_config.max_in_connections_per_ip = 0;
    let mut db = two_peers_database(network_config);
    for last in [11u8, 12, 13, 200] {
        assert_eq!(Ok(false), db.try_new_in_connection_at(&ip(last), None));
    }
    assert_eq!(Ok(false), db.try_new_in_connection(&ip(11)));
    assert_eq!(2, db.get_peers().len());
    assert_eq!((0, 0, 0), totals(&db));
    assert!(!db.is_dump_requested());
}

#[test]
fn own_address_is_refused_inbound_and_leads_the_advertised_list() {
    let mut network_config = example_network_config();
    // a routable address of our own
    network_config.routable_ip = Some(ip(1));
    let own = default_peer_info_not_connected(ip(1));
    let mut db = PeerInfoDatabase::new(
        network_config,
        vec![own, default_peer_info_not_connected(ip(11)), default_peer_info_not_connected(ip(12))],
    );
    assert!(db.get_peers().iter().all(|p| p.ip != ip(1)));
    assert_eq!(Ok(false), db.try_new_in_connection_at(&ip(1), Some(NOW)));
    assert!(db.get_peers().iter().all(|p| p.ip != ip(1)));
    db.merge_candidate_peers(&vec![ip(1), ip(30)]).unwrap();
    assert!(db.get_peers().iter().all(|p| p.ip != ip(1)));
    assert_eq!(
        Err(CommunicationError::PeerConnectionError(
            NetworkConnectionErrorType::PeerInfoNotFoundError(ip(1))
        )),
        db.new_out_connection_attempt(&ip(1))
    );
    let ips = db.get_advertisable_peer_ips();
    assert_eq!(vec![ip(1), ip(11), ip(12), ip(30)], ips);
    assert_eq!(1, ips.iter().filter(|a| **a == ip(1)).count());
}

#[test]
fn advertised_list_is_cut_after_our_own_address_is_put_first() {
    let mut network_config = example_network_config();
    network_config.max_advertise_length = 2;
    let records: Vec<PeerInfo> = (11..15)
        .map(|last| {
            let mut p = default_peer_info_not_connected(ip(last));
            p.last_alive = Some(NOW - 100 * last as u64);
            p
        })
        .collect();
    let db = PeerInfoDatabase::new(network_config, records.clone());
    assert_eq!(vec![IpAddr::v4(127, 0, 0, 1), ip(11)], db.get_advertisable_peer_ips());

    let mut network_config = example_network_config();
    network_config.max_advertise_length = 2;
    network_config.routable_ip = None;
    let db = PeerInfoDatabase::new(network_config, records.clone());
    assert_eq!(vec![ip(11), ip(12)], db.get_advertisable_peer_ips());

    let mut network_config = example_network_config();
    network_config.max_advertise_length = 0;
    let db = PeerInfoDatabase::new(network_config, records);
    assert_eq!(Vec::<IpAddr>::new(), db.get_advertisable_peer_ips());
}

#[test]
fn advertised_peers_are_advertised_and_not_banned() {
    let mut db = dial_scenario_database();
    db.peer_banned_at(&ip(13), Some(NOW)).unwrap();
    let ips = db.get_advertisable_peer_ips();
    assert_eq!(5, ips.len());
    assert_eq!(IpAddr::v4(127, 0, 0, 1), ips[0]);
    for a in &ips[1..] {
        let p = record(&db, *a);
        assert!(p.advertised && !p.banned);
    }
    // latest alive first: .14 (NOW - 1000), .16 (NOW - 2000), .15 (NOW - 12000);
    // then those never seen alive, the one that never failed first
    assert_eq!(vec![ip(14), ip(16), ip(15), ip(11)], ips[1..].to_vec());
}

#[test]
fn banned_peer_is_dropped_after_a_successful_attempt() {
    let mut db = two_peers_database(example_network_config());
    db.new_out_connection_attempt(&ip(11)).unwrap();
    db.new_out_connection_attempt(&ip(12)).unwrap();
    assert_eq!((2, 0, 0), totals(&db));
    db.take_dump_request();
    assert_eq!(Ok(false), db.try_out_connection_attempt_success_at(&ip(12), Some(NOW)));
    let p = record(&db, ip(12));
    assert_eq!(Some(NOW), p.last_failure);
    assert!(p.advertised);
    assert_eq!(0, p.active_out_connection_attempts);
    assert_eq!(0, p.active_out_connections);
    assert_eq!((1, 0, 0), totals(&db));
    assert!(db.is_dump_requested());
}

#[test]
fn clock_failure_leaves_the_database_as_it_was() {
    let mut db = two_peers_database(example_network_config());
    db.new_out_connection_attempt(&ip(11)).unwrap();
    db.new_out_connection_attempt(&ip(12)).unwrap();
    db.take_dump_request();
    let before = db.get_peers().clone();
    let time_error = Err(CommunicationError::TimeError);
    assert_eq!(time_error, db.peer_alive_at(&ip(11), None));
    assert_eq!(time_error, db.peer_failed_at(&ip(11), None));
    assert_eq!(time_error, db.peer_banned_at(&ip(11), None));
    assert_eq!(time_error, db.out_connection_attempt_failed_at(&ip(11), None));
    assert_eq!(
        Err(CommunicationError::TimeError),
        db.try_out_connection_attempt_success_at(&ip(12), None)
    );
    assert_eq!(Err(CommunicationError::TimeError), db.try_new_in_connection_at(&ip(12), None));
    assert_eq!(&before, db.get_peers());
    assert!(!db.is_dump_requested());
    // an unknown peer is reported before the clock is
    assert_eq!(
        Err(CommunicationError::PeerConnectionError(
            NetworkConnectionErrorType::PeerInfoNotFoundError(ip(13))
        )),
        db.peer_alive_at(&ip(13), None)
    );
    // the clock is not needed where no time is noted
    assert_eq!(Ok(true), db.try_out_connection_attempt_success_at(&ip(11), None));
    assert_eq!(Ok(true), db.try_new_in_connection_at(&ip(11), None));
}

#[test]
fn timestamps_are_noted() {
    let mut db = two_peers_database(example_network_config());
    assert_eq!(
        Err(CommunicationError::PeerConnectionError(
            NetworkConnectionErrorType::PeerInfoNotFoundError(ip(13))
        )),
        db.peer_failed_at(&ip(13), Some(NOW))
    );
    assert!(!db.is_dump_requested());
    db.peer_alive_at(&ip(11), Some(NOW)).unwrap();
    assert!(db.take_dump_request());
    assert!(!db.take_dump_request());
    db.peer_failed_at(&ip(11), Some(NOW + 5)).unwrap();
    assert!(db.is_dump_requested());
    let p = record(&db, ip(11));
    assert_eq!((Some(NOW), Some(NOW + 5)), (p.last_alive, p.last_failure));
    assert_eq!(default_peer_info_not_connected(ip(12)).last_alive, record(&db, ip(12)).last_alive);

    // with the system clock
    db.peer_alive(&ip(11)).unwrap();
    db.peer_failed(&ip(12)).unwrap();
    db.peer_banned(&ip(11)).unwrap();
    // later than the first of January 2020
    assert!(record(&db, ip(11)).last_alive.unwrap() > 1_577_836_800_000);
    assert!(record(&db, ip(12)).last_failure.unwrap() > 1_577_836_800_000);
    assert!(record(&db, ip(11)).banned);
    assert!(db.peer_banned(&ip(13)).is_err());
}

#[test]
fn banning_an_idle_peer_cleans_up() {
    let mut network_config = example_network_config();
    network_config.max_banned_peers = 1;
    let mut a = default_peer_info_not_connected(ip(11));
    a.bootstrap = false;
    let mut b = default_peer_info_not_connected(ip(12));
    b.bootstrap = false;
    let mut c = default_peer_info_not_connected(ip(13));
    c.bootstrap = false;
    let mut db = PeerInfoDatabase::new(network_config, vec![a, b, c]);
    assert_eq!(3, db.get_peers().len());
    db.peer_banned_at(&ip(11), Some(NOW)).unwrap();
    assert!(record(&db, ip(11)).banned);
    assert_eq!(Some(NOW), record(&db, ip(11)).last_failure);
    // the later ban stays, the earlier one goes
    db.peer_banned_at(&ip(12), Some(NOW + 1)).unwrap();
    let ips: Vec<IpAddr> = db.get_peers().iter().map(|p| p.ip).collect();
    assert_eq!(vec![ip(12), ip(13)], ips);
    // banning again notes the time only
    db.peer_banned_at(&ip(12), Some(NOW + 2)).unwrap();
    assert_eq!(Some(NOW + 2), record(&db, ip(12)).last_failure);
    // an active peer that is banned stays until it is idle
    db.new_out_connection_attempt(&ip(13)).unwrap();
    db.peer_banned_at(&ip(13), Some(NOW)).unwrap();
    assert_eq!(2, db.get_peers().len());
    db.out_connection_attempt_failed_at(&ip(13), Some(NOW + 3)).unwrap();
    let ips: Vec<IpAddr> = db.get_peers().iter().map(|p| p.ip).collect();
    assert_eq!(vec![ip(13)], ips);
}

#[test]
fn closing_the_last_connection_of_an_unadvertised_peer_evicts_it() {
    let mut db = two_peers_database(example_network_config());
    assert_eq!(Ok(true), db.try_new_in_connection_at(&ip(40), None));
    assert_eq!(Ok(true), db.try_new_in_connection_at(&ip(40), None));
    db.take_dump_request();
    db.in_connection_closed(&ip(40)).unwrap();
    // still connected: nothing to save
    assert!(!db.is_dump_requested());
    assert_eq!(1, record(&db, ip(40)).active_in_connections);
    db.in_connection_closed(&ip(40)).unwrap();
    assert!(db.is_dump_requested());
    assert!(db.get_peers().iter().all(|p| p.ip != ip(40)));
    assert_eq!(
        Err(CommunicationError::PeerConnectionError(
            NetworkConnectionErrorType::CloseConnectionWithNoConnectionToClose(ip(40))
        )),
        db.in_connection_closed(&ip(40))
    );
    assert_eq!(Ok(true), db.try_new_in_connection_at(&ip(11), None));
    assert_eq!(
        Err(CommunicationError::PeerConnectionError(
            NetworkConnectionErrorType::PeerInfoNotFoundError(ip(40))
        )),
        db.in_connection_closed(&ip(40))
    );
}

#[test]
fn merge_takes_new_peers_and_requests_a_save() {
    let mut db = two_peers_database(example_network_config());
    db.merge_candidate_peers(&Vec::new()).unwrap();
    assert!(!db.is_dump_requested());
    assert_eq!(2, db.get_peers().len());
    db.merge_candidate_peers(&vec![ip(30), ip(31), ip(30), IpAddr::v4(10, 0, 0, 1)]).unwrap();
    assert!(db.is_dump_requested());
    let ips: Vec<IpAddr> = db.get_peers().iter().map(|p| p.ip).collect();
    assert_eq!(vec![ip(11), ip(12), ip(30), ip(31)], ips);
    assert_eq!(PeerInfo::unconnected(ip(30), true), record(&db, ip(30)));
}

#[test]
fn a_new_database_holds_no_connection() {
    let mut active = default_peer_info_not_connected(ip(11));
    active.bootstrap = false;
    active.advertised = false;
    active.active_in_connections = 4;
    active.active_out_connections = 1;
    let mut later = default_peer_info_not_connected(ip(12));
    later.last_alive = Some(NOW);
    let db = PeerInfoDatabase::new(
        example_network_config(),
        vec![active, default_peer_info_not_connected(ip(12)), later],
    );
    // of two records with one address the last stays; the record that
    // nothing but its connections retained is gone
    assert_eq!(&vec![later], db.get_peers());
    assert_eq!((0, 0, 0), totals(&db));
    assert_eq!(10, db.get_available_out_connection_attempts());
    assert!(!db.is_dump_requested());
    assert_eq!(Some(IpAddr::v4(127, 0, 0, 1)), db.config().routable_ip);
}

fn assert_invariant(db: &PeerInfoDatabase) {
    let cfg = db.config();
    let peers = db.get_peers();
    // the aggregate counters are the sums of the records' counters
    assert_eq!(
        (
            db.active_out_connection_attempts(),
            db.active_out_connections(),
            db.active_in_connections()
        ),
        totals(db)
    );
    // the quotas are met
    assert!(db.active_out_connection_attempts() <= cfg.max_out_connection_attempts);
    assert!(
        db.active_out_connection_attempts() + db.active_out_connections()
            <= cfg.target_out_connections
    );
    assert!(db.active_in_connections() <= cfg.max_in_connections);
    assert!(peers.iter().all(|p| p.active_in_connections <= cfg.max_in_connections_per_ip));
    // no address has two records, and each is admitted
    for (i, p) in peers.iter().enumerate() {
        assert!(peers[..i].iter().all(|q| q.ip != p.ip));
        assert!(p.ip.is_global());
        assert!(Some(p.ip) != cfg.routable_ip);
        assert!(p.is_active() || p.bootstrap || p.banned || p.advertised);
    }
    // the records without connections are bounded
    let idle = peers
        .iter()
        .filter(|p| !p.is_active() && !p.bootstrap && !p.banned && p.advertised)
        .count();
    let banned = peers.iter().filter(|p| !p.is_active() && !p.bootstrap && p.banned).count();
    assert!(idle <= cfg.max_idle_peers);
    assert!(banned <= cfg.max_banned_peers);
}

#[test]
fn invariant_holds_along_a_long_run_of_calls() {
    let mut cfg = example_network_config();
    cfg.routable_ip = Some(ip(0));
    cfg.target_out_connections = 4;
    cfg.max_out_connection_attempts = 3;
    cfg.max_in_connections = 4;
    cfg.max_idle_peers = 2;
    cfg.max_banned_peers = 2;
    cfg.max_advertise_length = 3;
    let mut records = vec![default_peer_info_not_connected(ip(1))];
    for last in 2..6u8 {
        let mut p = default_peer_info_not_connected(ip(last));
        p.bootstrap = false;
        p.banned = last == 5;
        records.push(p);
    }
    let mut db = PeerInfoDatabase::new(cfg, records);
    assert_invariant(&db);

    let mut seed: u64 = 0x2545_f491_4f6c_dd1d;
    let mut draw = move |below: u64| {
        seed = seed.wrapping_mul(6364136223846793005).wrapping_add(1442695040888963407);
        (seed >> 33) % below
    };
    let mut accepted = 0;
    let mut refused = 0;
    for step in 0..20_000u64 {
        let addr = if draw(20) == 0 {
            IpAddr::v4(10, 0, 0, draw(3) as u8)
        } else {
            ip(draw(12) as u8)
        };
        let clock = if draw(8) == 0 { None } else { Some(NOW + step) };
        let before = (db.get_peers().clone(), totals(&db));
        let failed = match draw(11) {
            0 => db.new_out_connection_attempt(&addr).is_err(),
            1 => db.try_out_connection_attempt_success_at(&addr, clock).is_err(),
            2 => db.out_connection_attempt_failed_at(&addr, clock).is_err(),
            3 => db.out_connection_closed(&addr).is_err(),
            4 => db.in_connection_closed(&addr).is_err(),
            5 => db.try_new_in_connection_at(&addr, clock).is_err(),
            6 => db.peer_alive_at(&addr, clock).is_err(),
            7 => db.peer_failed_at(&addr, clock).is_err(),
            8 => db.peer_banned_at(&addr, clock).is_err(),
            9 => db.merge_candidate_peers(&vec![addr, ip(draw(40) as u8), addr]).is_err(),
            _ => {
                db.take_dump_request();
                false
            }
        };
        if failed {
            refused += 1;
            assert_eq!(before, (db.get_peers().clone(), totals(&db)));
        } else {
            accepted += 1;
        }
        assert_invariant(&db);
        assert!(db.get_advertisable_peer_ips().len() <= 3);
        let slots = db.get_available_out_connection_attempts();
        assert!(db.get_out_connection_candidate_ips_at(Some(NOW + step)).unwrap().len() <= slots);
    }
    // the run went both ways
    assert!(accepted > 1000 && refused > 1000);
}

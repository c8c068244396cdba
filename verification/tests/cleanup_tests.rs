use peer_database::address::IpAddr;
use peer_database::cleanup::{cleanup_peers, unique_addresses};
use peer_database::config::NetworkConfig;
use peer_database::peer::{find_peer, PeerInfo};
use peer_database::ranking::{goes_before, sort_peers, PeerOrder};

const NOW: u64 = 1_700_000_000_000;

fn ip(last: u8) -> IpAddr {
    IpAddr::v4(169, 202, 0, last)
}

fn example_network_config() -> NetworkConfig {
    NetworkConfig {
        routable_ip: Some(IpAddr::v4(127, 0, 0, 1)),
        target_out_connections: 10,
        max_out_connection_attempts: 15,
        max_in_connections: 5,
        max_in_connections_per_ip: 2,
        max_idle_peers: 3,
        max_banned_peers: 3,
        max_advertise_length: 5,
        wakeup_interval: 10_000,
        peers_file: String::new(),
        peers_file_dump_interval: 10_000,
    }
}

fn default_peer_info_connected(ip: IpAddr) -> PeerInfo {
    PeerInfo {
        ip,
        banned: false,
        bootstrap: true,
        last_alive: None,
        last_failure: None,
        advertised: false,
        active_out_connection_attempts: 0,
        active_out_connections: 1,
        active_in_connections: 0,
    }
}

fn idle_peer(ip: IpAddr) -> PeerInfo {
    PeerInfo::unconnected(ip, true)
}

fn banned_peer(ip: IpAddr) -> PeerInfo {
    let mut p = PeerInfo::unconnected(ip, false);
    p.banned = true;
    p
}

/// Puts the record in the place of the one with the same address, or at the
/// end.
fn insert(peers: &mut Vec<PeerInfo>, p: PeerInfo) {
    match peers.iter().position(|q| q.ip == p.ip) {
        Some(i) => peers[i] = p,
        None => peers.push(p),
    }
}

fn contains_key(peers: &Vec<PeerInfo>, ip: &IpAddr) -> bool {
    peers.iter().any(|p| p.ip == *ip)
}

fn ips(peers: &Vec<PeerInfo>) -> Vec<IpAddr> {
    peers.iter().map(|p| p.ip).collect()
}

#[test]
fn test_cleanup_peers() {
    let mut network_config = example_network_config();
    network_config.max_banned_peers = 1;
    network_config.max_idle_peers = 1;
    let mut peers: Vec<PeerInfo> = Vec::new();

    // Call with empty db.
    cleanup_peers(&network_config, &mut peers, None);
    assert!(peers.is_empty());

    let mut connected_peers1 = default_peer_info_connected(ip(11));
    connected_peers1.last_alive = Some(NOW - 1000);
    insert(&mut peers, connected_peers1);

    let mut connected_peers2 = default_peer_info_connected(ip(12));
    connected_peers2.last_alive = Some(NOW - 900);
    let same_connected_peer = connected_peers2.clone();

    let non_global = default_peer_info_connected(IpAddr::v4(192, 168, 0, 10));
    let same_host = default_peer_info_connected(IpAddr::v4(127, 0, 0, 1));

    let mut banned_host1 = default_peer_info_connected(ip(23));
    banned_host1.bootstrap = false;
    banned_host1.banned = true;
    banned_host1.active_out_connections = 0;
    banned_host1.last_alive = Some(NOW - 1000);
    let mut banned_host2 = default_peer_info_connected(ip(24));
    banned_host2.bootstrap = false;
    banned_host2.banned = true;
    banned_host2.active_out_connections = 0;
    banned_host2.last_alive = Some(NOW - 900);
    let mut banned_host3 = default_peer_info_connected(ip(25));
    banned_host3.bootstrap = false;
    banned_host3.banned = true;
    banned_host3.last_alive = Some(NOW - 900);

    let mut advertised_host1 = default_peer_info_connected(ip(35));
    advertised_host1.bootstrap = false;
    advertised_host1.advertised = true;
    advertised_host1.active_out_connections = 0;
    advertised_host1.last_alive = Some(NOW - 1000);
    let mut advertised_host2 = default_peer_info_connected(ip(36));
    advertised_host2.bootstrap = false;
    advertised_host2.advertised = true;
    advertised_host2.active_out_connections = 0;
    advertised_host2.last_alive = Some(NOW - 900);

    insert(&mut peers, advertised_host1);
    insert(&mut peers, banned_host1);
    insert(&mut peers, non_global);
    insert(&mut peers, same_connected_peer);
    insert(&mut peers, connected_peers2);
    insert(&mut peers, connected_peers1);
    insert(&mut peers, advertised_host2);
    insert(&mut peers, same_host);
    insert(&mut peers, banned_host3);
    insert(&mut peers, banned_host2);

    cleanup_peers(&network_config, &mut peers, None);

    assert!(contains_key(&peers, &ip(11)));
    assert!(contains_key(&peers, &ip(12)));

    assert!(contains_key(&peers, &ip(23)));
    assert!(!contains_key(&peers, &ip(24)));
    assert!(contains_key(&peers, &ip(25)));

    assert!(!contains_key(&peers, &ip(35)));
    assert!(contains_key(&peers, &ip(36)));

    // kept records first, then the banned, then the idle
    assert_eq!(vec![ip(11), ip(12), ip(25), ip(23), ip(36)], ips(&peers));

    // test with advertised peers
    let advertised = vec![
        IpAddr::v4(192, 168, 0, 10),
        ip(43),
        ip(11),
        ip(44),
        IpAddr::v4(127, 0, 0, 1),
    ];

    network_config.max_advertise_length = 1;
    network_config.max_idle_peers = 5;

    assert!(!peers[find_peer(&peers, ip(11)).unwrap()].advertised);
    cleanup_peers(&network_config, &mut peers, Some(&advertised));

    assert!(contains_key(&peers, &ip(43)));
    // the record that was there is advertised now
    assert!(peers[find_peer(&peers, ip(11)).unwrap()].advertised);
    assert_eq!(1, peers[find_peer(&peers, ip(11)).unwrap()].active_out_connections);
    // one new peer at most
    assert!(!contains_key(&peers, &ip(44)));
    assert!(!contains_key(&peers, &IpAddr::v4(192, 168, 0, 10)));
    assert!(!contains_key(&peers, &IpAddr::v4(127, 0, 0, 1)));
    assert_eq!(PeerInfo::unconnected(ip(43), true), peers[find_peer(&peers, ip(43)).unwrap()]);
    assert_eq!(vec![ip(11), ip(12), ip(25), ip(23), ip(36), ip(43)], ips(&peers));
}

#[test]
fn cleanup_twice_is_cleanup_once() {
    let mut cfg = example_network_config();
    cfg.max_idle_peers = 2;
    cfg.max_banned_peers = 2;
    let mut peers: Vec<PeerInfo> = Vec::new();
    for last in 1..6u8 {
        let mut p = idle_peer(ip(last));
        p.last_alive = Some(NOW - 10 * last as u64);
        peers.push(p);
        let mut p = banned_peer(ip(100 + last));
        p.last_failure = Some(NOW + last as u64);
        peers.push(p);
    }
    peers.push(default_peer_info_connected(ip(50)));
    peers.push(PeerInfo::unconnected(ip(60), false));
    cleanup_peers(&cfg, &mut peers, Some(&vec![ip(70), ip(71)]));
    let once = peers.clone();
    assert_eq!(vec![ip(50), ip(105), ip(104), ip(1), ip(2)], ips(&once));
    cleanup_peers(&cfg, &mut peers, None);
    assert_eq!(once, peers);
    cleanup_peers(&cfg, &mut peers, Some(&Vec::new()));
    assert_eq!(once, peers);
}

#[test]
fn cleanup_bounds_each_class() {
    let mut cfg = example_network_config();
    cfg.max_idle_peers = 2;
    cfg.max_banned_peers = 1;
    let mut peers: Vec<PeerInfo> = Vec::new();
    for last in 1..5u8 {
        peers.push(idle_peer(ip(last)));
        peers.push(banned_peer(ip(100 + last)));
        // bootstrap peers and active peers are kept beyond the caps
        let mut p = banned_peer(ip(150 + last));
        p.bootstrap = true;
        peers.push(p);
        let mut p = idle_peer(ip(200 + last));
        p.active_in_connections = 1;
        peers.push(p);
        // nothing retains this one
        peers.push(PeerInfo::unconnected(ip(50 + last), false));
    }
    cleanup_peers(&cfg, &mut peers, None);
    let idle = |p: &&PeerInfo| !p.is_active() && !p.bootstrap && !p.banned && p.advertised;
    let banned = |p: &&PeerInfo| !p.is_active() && !p.bootstrap && p.banned;
    assert_eq!(2, peers.iter().filter(idle).count());
    assert_eq!(1, peers.iter().filter(banned).count());
    assert_eq!(4, peers.iter().filter(|p| p.bootstrap).count());
    assert_eq!(4, peers.iter().filter(|p| p.is_active()).count());
    assert_eq!(11, peers.len());
    assert!(peers.iter().all(|p| p.is_active() || p.bootstrap || p.banned || p.advertised));

    cfg.max_idle_peers = 0;
    cfg.max_banned_peers = 0;
    cleanup_peers(&cfg, &mut peers, Some(&vec![ip(90)]));
    assert_eq!(8, peers.len());
    assert!(peers.iter().all(|p| p.is_active() || p.bootstrap));
}

#[test]
fn cleanup_drops_what_the_configuration_does_not_admit() {
    let cfg = example_network_config();
    let mut peers = vec![
        default_peer_info_connected(IpAddr::v4(127, 0, 0, 1)),
        default_peer_info_connected(IpAddr::v4(10, 1, 2, 3)),
        default_peer_info_connected(IpAddr::v6(1)),
        default_peer_info_connected(ip(1)),
        default_peer_info_connected(IpAddr::v6(0x2a00_1450_4001_0800_0000_0000_0000_200e)),
    ];
    cleanup_peers(&cfg, &mut peers, None);
    assert_eq!(vec![ip(1), IpAddr::v6(0x2a00_1450_4001_0800_0000_0000_0000_200e)], ips(&peers));

    let mut cfg = example_network_config();
    cfg.routable_ip = Some(ip(1));
    cleanup_peers(&cfg, &mut peers, Some(&vec![ip(1), ip(2)]));
    assert_eq!(vec![IpAddr::v6(0x2a00_1450_4001_0800_0000_0000_0000_200e), ip(2)], ips(&peers));
}

#[test]
fn new_peers_are_taken_once_and_in_the_order_offered() {
    let mut cfg = example_network_config();
    cfg.max_advertise_length = 2;
    cfg.max_idle_peers = 10;
    let mut peers: Vec<PeerInfo> = Vec::new();
    cleanup_peers(&cfg, &mut peers, Some(&vec![ip(5), ip(5), ip(5), ip(4), ip(5), ip(3)]));
    // the repeats of .5 do not use up the two places
    assert_eq!(vec![ip(5), ip(4)], ips(&peers));
    cleanup_peers(&cfg, &mut peers, Some(&vec![ip(4), ip(3), ip(3), ip(5), ip(2), ip(1)]));
    assert_eq!(vec![ip(5), ip(4), ip(3), ip(2)], ips(&peers));
    cfg.max_advertise_length = 0;
    cleanup_peers(&cfg, &mut peers, Some(&vec![ip(9)]));
    assert_eq!(vec![ip(5), ip(4), ip(3), ip(2)], ips(&peers));
}

#[test]
fn repeated_addresses_are_listed_once() {
    assert_eq!(
        vec![ip(3), ip(1), IpAddr::v6(3), ip(2)],
        unique_addresses(&vec![ip(3), ip(1), ip(3), IpAddr::v6(3), ip(1), ip(2), ip(3)])
    );
    assert_eq!(Vec::<IpAddr>::new(), unique_addresses(&Vec::new()));
    // an IPv4 address and the IPv6 address with the same bits are two
    assert_eq!(
        vec![IpAddr::v4(0, 0, 0, 9), IpAddr::v6(9)],
        unique_addresses(&vec![IpAddr::v4(0, 0, 0, 9), IpAddr::v6(9), IpAddr::v6(9)])
    );
}

#[test]
fn known_peers_go_before_new_ones() {
    let mut cfg = example_network_config();
    cfg.max_idle_peers = 3;
    let mut peers = vec![idle_peer(ip(1)), idle_peer(ip(2))];
    cleanup_peers(&cfg, &mut peers, Some(&vec![ip(7), ip(8), ip(9)]));
    // all five are ranked alike: the two that were known stay, and of the
    // new ones the first
    assert_eq!(vec![ip(1), ip(2), ip(7)], ips(&peers));
    cleanup_peers(&cfg, &mut peers, Some(&vec![ip(9), ip(8)]));
    assert_eq!(vec![ip(1), ip(2), ip(7)], ips(&peers));

    // a peer that was seen alive goes before both
    let mut seen = idle_peer(ip(3));
    seen.last_alive = Some(NOW);
    let mut peers = vec![idle_peer(ip(1)), idle_peer(ip(2)), idle_peer(ip(4)), seen];
    cleanup_peers(&cfg, &mut peers, Some(&vec![ip(7)]));
    assert_eq!(vec![ip(3), ip(1), ip(2)], ips(&peers));
    // and one that failed goes behind those that did not
    let mut failed = idle_peer(ip(5));
    failed.last_failure = Some(NOW);
    let mut peers = vec![failed, idle_peer(ip(1))];
    cleanup_peers(&cfg, &mut peers, Some(&vec![ip(7), ip(8)]));
    assert_eq!(vec![ip(1), ip(7), ip(8)], ips(&peers));
}

#[test]
fn sort_is_stable_in_each_order() {
    let stamp = |last: u8, alive: Option<u64>, failure: Option<u64>| {
        let mut p = idle_peer(ip(last));
        p.last_alive = alive;
        p.last_failure = failure;
        p
    };
    let given = vec![
        stamp(1, None, None),
        stamp(2, Some(5), Some(7)),
        stamp(3, Some(5), None),
        stamp(4, None, Some(0)),
        stamp(5, Some(9), Some(7)),
        stamp(6, None, None),
        stamp(7, Some(5), Some(7)),
        stamp(8, Some(0), Some(0)),
    ];
    let sorted = |order: PeerOrder| {
        let mut peers = given.clone();
        sort_peers(&mut peers, order);
        peers.iter().map(|p| p.ip).collect::<Vec<IpAddr>>()
    };
    let list = |lasts: [u8; 8]| lasts.iter().map(|l| ip(*l)).collect::<Vec<IpAddr>>();
    // latest alive first, then earliest failure
    assert_eq!(list([5, 3, 2, 7, 8, 1, 6, 4]), sorted(PeerOrder::MostRecentlyAlive));
    // latest failure first, then earliest alive
    assert_eq!(list([2, 7, 5, 4, 8, 1, 6, 3]), sorted(PeerOrder::MostRecentlyFailed));
    // earliest failure first, then latest alive
    assert_eq!(list([3, 1, 6, 8, 4, 5, 2, 7]), sorted(PeerOrder::LeastRecentlyFailed));

    assert!(goes_before(PeerOrder::MostRecentlyAlive, &given[4], &given[1]));
    assert!(!goes_before(PeerOrder::MostRecentlyAlive, &given[1], &given[6]));
    assert!(!goes_before(PeerOrder::MostRecentlyAlive, &given[6], &given[1]));
    assert!(goes_before(PeerOrder::LeastRecentlyFailed, &given[0], &given[3]));
    assert!(goes_before(PeerOrder::MostRecentlyFailed, &given[3], &given[0]));

    let mut none: Vec<PeerInfo> = Vec::new();
    sort_peers(&mut none, PeerOrder::MostRecentlyAlive);
    assert!(none.is_empty());
}

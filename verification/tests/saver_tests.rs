use peer_database::address::IpAddr;
use peer_database::clock::{clock_from_millis, system_time_millis};
use peer_database::config::NetworkConfig;
use peer_database::database::PeerInfoDatabase;
use peer_database::peer::PeerInfo;
use peer_database::saver::{peers_to_dump, saver_step, SaverAction, SaverEvent, SaverState};

fn ip(last: u8) -> IpAddr {
    IpAddr::v4(169, 202, 0, last)
}

fn example_network_config() -> NetworkConfig {
    NetworkConfig {
        routable_ip: Some(IpAddr::v4(127, 0, 0, 1)),
        target_out_connections: 10,
        max_out_connection_attempts: 15,
        max_in_connections: 5,
        max_in_connections_per_ip: 2,
        max_idle_peers: 3,
        max_banned_peers: 3,
        max_advertise_length: 5,
        wakeup_interval: 10_000,
        peers_file: String::new(),
        peers_file_dump_interval: 10_000,
    }
}

#[test]
fn dump_holds_banned_advertised_and_bootstrap_peers_without_connections() {
    let mut banned = PeerInfo::unconnected(ip(1), false);
    banned.banned = true;
    banned.last_failure = Some(3);
    let mut advertised = PeerInfo::unconnected(ip(2), true);
    advertised.active_out_connections = 2;
    advertised.active_out_connection_attempts = 1;
    let mut bootstrap = PeerInfo::unconnected(ip(3), false);
    bootstrap.bootstrap = true;
    bootstrap.active_in_connections = 1;
    bootstrap.last_alive = Some(5);
    let mut inbound = PeerInfo::unconnected(ip(4), false);
    inbound.active_in_connections = 1;
    let records = peers_to_dump(&vec![inbound, banned, advertised, bootstrap]);
    assert_eq!(3, records.len());
    assert_eq!(banned, records[0]);
    assert_eq!(PeerInfo::unconnected(ip(2), true), records[1]);
    assert_eq!(ip(3), records[2].ip);
    assert!(records[2].bootstrap);
    assert_eq!(Some(5), records[2].last_alive);
    assert!(records.iter().all(|p| !p.is_active()));
    assert!(peers_to_dump(&Vec::new()).is_empty());
}

#[test]
fn saved_and_loaded_again_the_database_is_the_same() {
    let mut records: Vec<PeerInfo> = Vec::new();
    for last in 1..9u8 {
        let mut p = PeerInfo::unconnected(ip(last), last % 2 == 0);
        p.banned = last % 3 == 0;
        p.bootstrap = last == 5;
        p.last_alive = if last % 4 == 0 { None } else { Some(1000 - last as u64) };
        p.last_failure = if last < 3 { None } else { Some(last as u64) };
        p.active_out_connections = last as usize;
        records.push(p);
    }
    records.push(PeerInfo::unconnected(IpAddr::v4(192, 168, 1, 1), true));
    records.push(PeerInfo::unconnected(ip(2), true));
    let first = PeerInfoDatabase::new(example_network_config(), records);
    let saved = peers_to_dump(first.get_peers());
    assert_eq!(first.get_peers(), &saved);
    assert_eq!(
        vec![ip(5), ip(6), ip(3), ip(2), ip(4), ip(8)],
        saved.iter().map(|p| p.ip).collect::<Vec<IpAddr>>()
    );
    let second = PeerInfoDatabase::new(example_network_config(), saved.clone());
    assert_eq!(first.get_peers(), second.get_peers());
    assert_eq!(saved, peers_to_dump(second.get_peers()));
    assert_eq!(saved, second.stop());
}

#[test]
fn the_last_save_leaves_out_what_only_connections_retain() {
    let mut db = PeerInfoDatabase::new(
        example_network_config(),
        vec![PeerInfo::unconnected(ip(1), true)],
    );
    assert_eq!(Ok(true), db.try_new_in_connection_at(&ip(2), None));
    assert_eq!(Ok(true), db.try_new_in_connection_at(&ip(1), None));
    assert_eq!(2, db.get_peers().len());
    assert_eq!(vec![PeerInfo::unconnected(ip(1), true)], db.stop());
}

#[test]
fn a_burst_of_changes_makes_one_write() {
    let mut state = SaverState::Idle;
    let mut actions = Vec::new();
    for event in [
        SaverEvent::Changed,
        SaverEvent::Changed,
        SaverEvent::Changed,
        SaverEvent::TimerElapsed,
        SaverEvent::DumpSucceeded,
        SaverEvent::TimerElapsed,
    ] {
        let (next, action) = saver_step(state, event, 10_000);
        state = next;
        actions.push(action);
    }
    assert_eq!(
        vec![
            SaverAction::ArmTimer(10_000),
            SaverAction::Wait,
            SaverAction::Wait,
            SaverAction::Dump,
            SaverAction::Wait,
            SaverAction::Wait
        ],
        actions
    );
    assert_eq!(SaverState::Idle, state);
}

#[test]
fn a_failed_write_is_tried_again_after_one_more_interval() {
    assert_eq!(
        (SaverState::Dumping, SaverAction::Dump),
        saver_step(SaverState::Armed, SaverEvent::TimerElapsed, 250)
    );
    assert_eq!(
        (SaverState::Armed, SaverAction::ArmTimer(250)),
        saver_step(SaverState::Dumping, SaverEvent::DumpFailed, 250)
    );
    assert_eq!(
        (SaverState::Dumping, SaverAction::Dump),
        saver_step(SaverState::Armed, SaverEvent::TimerElapsed, 250)
    );
    assert_eq!(
        (SaverState::Idle, SaverAction::Wait),
        saver_step(SaverState::Dumping, SaverEvent::DumpSucceeded, 250)
    );
}

#[test]
fn a_change_during_a_write_is_written_later() {
    assert_eq!(
        (SaverState::DumpingChanged, SaverAction::Wait),
        saver_step(SaverState::Dumping, SaverEvent::Changed, 250)
    );
    assert_eq!(
        (SaverState::DumpingChanged, SaverAction::Wait),
        saver_step(SaverState::DumpingChanged, SaverEvent::Changed, 250)
    );
    assert_eq!(
        (SaverState::Armed, SaverAction::ArmTimer(250)),
        saver_step(SaverState::DumpingChanged, SaverEvent::DumpSucceeded, 250)
    );
    assert_eq!(
        (SaverState::Armed, SaverAction::ArmTimer(250)),
        saver_step(SaverState::DumpingChanged, SaverEvent::DumpFailed, 250)
    );
}

#[test]
fn closing_stops_the_worker_from_every_state() {
    for state in [
        SaverState::Idle,
        SaverState::Armed,
        SaverState::Dumping,
        SaverState::DumpingChanged,
        SaverState::Stopped,
    ] {
        assert_eq!(
            (SaverState::Stopped, SaverAction::Stop),
            saver_step(state, SaverEvent::Closed, 250)
        );
    }
    for event in [
        SaverEvent::Changed,
        SaverEvent::TimerElapsed,
        SaverEvent::DumpSucceeded,
        SaverEvent::DumpFailed,
    ] {
        assert_eq!(
            (SaverState::Stopped, SaverAction::Stop),
            saver_step(SaverState::Stopped, event, 250)
        );
    }
}

#[test]
fn events_out_of_turn_change_nothing() {
    assert_eq!(
        (SaverState::Idle, SaverAction::Wait),
        saver_step(SaverState::Idle, SaverEvent::TimerElapsed, 250)
    );
    assert_eq!(
        (SaverState::Idle, SaverAction::Wait),
        saver_step(SaverState::Idle, SaverEvent::DumpFailed, 250)
    );
    assert_eq!(
        (SaverState::Armed, SaverAction::Wait),
        saver_step(SaverState::Armed, SaverEvent::DumpSucceeded, 250)
    );
    assert_eq!(
        (SaverState::Dumping, SaverAction::Wait),
        saver_step(SaverState::Dumping, SaverEvent::TimerElapsed, 250)
    );
}

#[test]
fn clock_gives_milliseconds_that_fit_in_64_bits() {
    assert_eq!(Some(0), clock_from_millis(0));
    assert_eq!(Some(1_700_000_000_000), clock_from_millis(1_700_000_000_000));
    assert_eq!(Some(u64::MAX), clock_from_millis(u64::MAX as u128));
    assert_eq!(None, clock_from_millis(u64::MAX as u128 + 1));
    assert_eq!(None, clock_from_millis(u128::MAX));
    // the system clock stands after the first of January 2020, and does not
    // run backwards by more than a second between two readings
    let first = system_time_millis().unwrap();
    let second = system_time_millis().unwrap();
    assert!(first > 1_577_836_800_000);
    assert!(second + 1000 >= first);
}

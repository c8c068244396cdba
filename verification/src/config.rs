//! The configuration that a peer database is built with.

use vstd::prelude::*;
use crate::address::IpAddr;

verus! {

/// The options that the peer database reads. They are fixed once a database
/// is built.
#[derive(Clone, Debug)]
pub struct NetworkConfig {
    /// Our own address, if it is known. It is kept out of every set of peers.
    pub routable_ip: Option<IpAddr>,
    /// How many established outbound connections are aimed at.
    pub target_out_connections: usize,
    /// Cap on the outbound connection attempts in flight at one time.
    pub max_out_connection_attempts: usize,
    /// Cap on the established inbound connections.
    pub max_in_connections: usize,
    /// Cap on the established inbound connections from one address.
    pub max_in_connections_per_ip: usize,
    /// How many advertised peers without any connection are retained.
    pub max_idle_peers: usize,
    /// How many banned peers without any connection are retained.
    pub max_banned_peers: usize,
    /// Cap on the length of the list of peers that is advertised to others,
    /// and on the number of new peers taken from one list of candidates.
    pub max_advertise_length: usize,
    /// Milliseconds that must pass after a failure before the peer is dialed
    /// again, unless it has been seen alive since.
    pub wakeup_interval: u64,
    /// Path of the file that the peers are saved to.
    pub peers_file: String,
    /// Milliseconds between a change of the peers and the save that follows it.
    pub peers_file_dump_interval: u64,
}

impl NetworkConfig {
    /// Whether `ip` may stand in the directory: it is routable on the public
    /// Internet and is not our own address.
    pub open spec fn admits(&self, ip: IpAddr) -> bool {
        ip.is_global_spec() && self.routable_ip != Some(ip)
    }

    /// Whether `ip` is our own address.
    pub open spec fn is_own_ip_spec(&self, ip: IpAddr) -> bool {
        self.routable_ip == Some(ip)
    }

    /// Whether `ip` is our own address.
    #[verifier::when_used_as_spec(is_own_ip_spec)]
    pub fn is_own_ip(&self, ip: IpAddr) -> (own: bool)
        ensures
            own == self.is_own_ip_spec(ip),
    {
        match self.routable_ip {
            Some(me) => me == ip,
            None => false,
        }
    }
}

} // verus!

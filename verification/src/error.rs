//! The errors that the operations of the peer database return.

use vstd::prelude::*;
use crate::address::IpAddr;

verus! {

/// What went wrong with the connection bookkeeping of one peer.
#[derive(Clone, Copy, Debug, PartialEq, Eq, Structural)]
pub enum NetworkConnectionErrorType {
    /// A connection was reported closed although none was counted.
    CloseConnectionWithNoConnectionToClose(IpAddr),
    /// The directory holds no record for the address.
    PeerInfoNotFoundError(IpAddr),
    /// No attempt slot is left, or an attempt was reported successful although
    /// none was counted.
    ToManyConnectionAttempt(IpAddr),
    /// An attempt was reported failed although none was counted.
    ToManyConnectionFailure(IpAddr),
}

/// An error of a peer database operation. An operation that returns one has
/// left the database as it was.
#[derive(Clone, Copy, Debug, PartialEq, Eq, Structural)]
pub enum CommunicationError {
    /// The address is not routable on the public Internet.
    InvalidIpError(IpAddr),
    /// The caller's bookkeeping and the database's disagree.
    PeerConnectionError(NetworkConnectionErrorType),
    /// The system clock could not be read.
    TimeError,
}

impl CommunicationError {
    /// The error for a peer that the directory does not hold.
    pub open spec fn unknown_peer(ip: IpAddr) -> CommunicationError {
        CommunicationError::PeerConnectionError(
            NetworkConnectionErrorType::PeerInfoNotFoundError(ip),
        )
    }

    /// The error for an attempt that cannot be counted or was not counted.
    pub open spec fn too_many_attempts(ip: IpAddr) -> CommunicationError {
        CommunicationError::PeerConnectionError(
            NetworkConnectionErrorType::ToManyConnectionAttempt(ip),
        )
    }

    /// The error for a failed attempt that was not counted.
    pub open spec fn too_many_failures(ip: IpAddr) -> CommunicationError {
        CommunicationError::PeerConnectionError(
            NetworkConnectionErrorType::ToManyConnectionFailure(ip),
        )
    }

    /// The error for closing a connection that was not counted.
    pub open spec fn nothing_to_close(ip: IpAddr) -> CommunicationError {
        CommunicationError::PeerConnectionError(
            NetworkConnectionErrorType::CloseConnectionWithNoConnectionToClose(ip),
        )
    }
}

} // verus!

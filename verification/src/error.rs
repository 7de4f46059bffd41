//! Errors of the broker.
use vstd::prelude::*;
use crate::protocol::error::ProtocolError;
use crate::protocol::heapless::PushError;
use crate::traits::NetworkError;

verus! {

/// An error raised by the broker.
#[derive(Debug, Clone, Copy, PartialEq, Eq)]
pub enum BrokerError {
    SessionAlreadyExists { session_id: u128 },
    SessionNotFound { session_id: u128 },
    SessionQueueFull { session_id: u128, queue_size: usize },
    SessionDisconnected { session_id: u128 },
    MaxSessionsReached { current: usize, max: usize },
    MaxSubscribersPerTopicReached { current: usize, max: usize },
    MaxTopicsReached { current: usize, max: usize },
    Network(NetworkError),
    Protocol(ProtocolError),
    BufferFull,
}

impl From<NetworkError> for BrokerError {
    fn from(error: NetworkError) -> (r: Self) {
        BrokerError::Network(error)
    }
}

impl vstd::std_specs::convert::FromSpecImpl<NetworkError> for BrokerError {
    open spec fn obeys_from_spec() -> bool {
        true
    }

    open spec fn from_spec(error: NetworkError) -> Self {
        BrokerError::Network(error)
    }
}

impl From<ProtocolError> for BrokerError {
    fn from(error: ProtocolError) -> (r: Self) {
        BrokerError::Protocol(error)
    }
}

impl vstd::std_specs::convert::FromSpecImpl<ProtocolError> for BrokerError {
    open spec fn obeys_from_spec() -> bool {
        true
    }

    open spec fn from_spec(error: ProtocolError) -> Self {
        BrokerError::Protocol(error)
    }
}

impl From<PushError> for BrokerError {
    fn from(error: PushError) -> (r: Self) {
        BrokerError::BufferFull
    }
}

impl vstd::std_specs::convert::FromSpecImpl<PushError> for BrokerError {
    open spec fn obeys_from_spec() -> bool {
        true
    }

    open spec fn from_spec(error: PushError) -> Self {
        BrokerError::BufferFull
    }
}

} // verus!

//! Messages passed between a client task and the broker.
use vstd::prelude::*;
use crate::client::ClientId;
use crate::protocol::packets::Packet;

verus! {

/// A message from a client task to the broker.
#[derive(Debug, Clone, PartialEq, Eq)]
pub enum ClientToBrokerMessage<const MAX_TOPIC_NAME_LENGTH: usize, const MAX_PAYLOAD_SIZE: usize> {
    /// The client has connected.
    Connected(ClientId),
    /// A packet received from the client.
    Packet(Packet<MAX_TOPIC_NAME_LENGTH, MAX_PAYLOAD_SIZE>),
    /// The client has disconnected.
    Disconnected,
    /// Reading from or writing to the client failed.
    IoError,
}

/// A message from the broker to a client task.
#[derive(Debug, Clone, PartialEq, Eq)]
pub enum BrokerToClientMessage<const MAX_TOPIC_NAME_LENGTH: usize, const MAX_PAYLOAD_SIZE: usize> {
    /// A packet to send to the client.
    SendPacket(Packet<MAX_TOPIC_NAME_LENGTH, MAX_PAYLOAD_SIZE>),
    /// The client is to be disconnected.
    Disconnect,
}

} // verus!

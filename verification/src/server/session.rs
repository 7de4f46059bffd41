//! A client task's side of a session: its identifier, its two message queues and whether
//! it is connected.
use vstd::prelude::*;
use crate::client::ClientId;
use crate::server::message::{BrokerToClientMessage, ClientToBrokerMessage};

verus! {

#[verifier::external_type_specification]
#[verifier::external_body]
#[verifier::reject_recursive_types(T)]
pub struct ExSpscQueue<T, const N: usize>(heapless::spsc::Queue<T, N>);

/// Calls `heapless::spsc::Queue::new`, which makes an empty queue of capacity `N - 1`.
/// What the queue holds is not stated here.
#[verifier::external_body]
fn new_queue<T, const N: usize>() -> heapless::spsc::Queue<T, N> {
    heapless::spsc::Queue::new()
}

/// A client session: its identifier, the queue of messages to the broker, the queue of
/// messages to the client, and whether the client is connected.
#[derive(Debug, PartialEq, Eq)]
#[verifier::reject_recursive_types(MAX_TOPIC_NAME_LENGTH)]
#[verifier::reject_recursive_types(MAX_PAYLOAD_SIZE)]
pub struct ClientSession<
    const CLIENT_TO_BROKER_QUEUE_SIZE: usize,
    const BROKER_TO_CLIENT_QUEUE_SIZE: usize,
    const MAX_TOPIC_NAME_LENGTH: usize,
    const MAX_PAYLOAD_SIZE: usize,
> {
    pub client_id: ClientId,
    pub client_to_broker: heapless::spsc::Queue<
        ClientToBrokerMessage<MAX_TOPIC_NAME_LENGTH, MAX_PAYLOAD_SIZE>,
        CLIENT_TO_BROKER_QUEUE_SIZE,
    >,
    pub broker_to_client: heapless::spsc::Queue<
        BrokerToClientMessage<MAX_TOPIC_NAME_LENGTH, MAX_PAYLOAD_SIZE>,
        BROKER_TO_CLIENT_QUEUE_SIZE,
    >,
    pub is_connected: bool,
}

impl<
    const CLIENT_TO_BROKER_QUEUE_SIZE: usize,
    const BROKER_TO_CLIENT_QUEUE_SIZE: usize,
    const MAX_TOPIC_NAME_LENGTH: usize,
    const MAX_PAYLOAD_SIZE: usize,
> ClientSession<CLIENT_TO_BROKER_QUEUE_SIZE, BROKER_TO_CLIENT_QUEUE_SIZE, MAX_TOPIC_NAME_LENGTH, MAX_PAYLOAD_SIZE> {
    /// A session for `client_id`, not yet connected, with empty queues.
    pub fn new(client_id: ClientId) -> (r: Self)
        ensures
            r.client_id == client_id,
            !r.is_connected,
    {
        ClientSession {
            client_id,
            client_to_broker: new_queue(),
            broker_to_client: new_queue(),
            is_connected: false,
        }
    }

    /// Marks the session connected.
    pub fn connect(&mut self)
        ensures
            final(self).is_connected,
            final(self).client_id == old(self).client_id,
            final(self).client_to_broker == old(self).client_to_broker,
            final(self).broker_to_client == old(self).broker_to_client,
    {
        self.is_connected = true;
    }

    /// Marks the session disconnected.
    pub fn disconnect(&mut self)
        ensures
            !final(self).is_connected,
            final(self).client_id == old(self).client_id,
            final(self).client_to_broker == old(self).client_to_broker,
            final(self).broker_to_client == old(self).broker_to_client,
    {
        self.is_connected = false;
    }
}

} // verus!

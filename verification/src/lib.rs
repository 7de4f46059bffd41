//! A minimal MQTT 3.1.1 broker core: wire codec, topic registry, sessions and routing.
pub mod protocol;
pub mod client;
pub mod error;
pub mod traits;
pub mod topics;
pub mod session;
pub mod broker;
pub mod server;
pub mod state;
pub mod handler;
pub mod task;
pub mod notify;

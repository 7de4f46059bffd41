//! Settings for the handling of each connection.
use vstd::prelude::*;

verus! {

/// How connections are handled: the keep-alive a session starts with, and how many
/// encoded packets may wait to be written to a connection.
#[derive(Debug, Clone)]
pub struct HandlerConfig {
    pub default_keep_alive_secs: u16,
    pub frame_channel_capacity: usize,
}

impl Default for HandlerConfig {
    fn default() -> (r: Self)
        ensures
            r.default_keep_alive_secs == 60,
            r.frame_channel_capacity == 32,
    {
        HandlerConfig { default_keep_alive_secs: 60, frame_channel_capacity: 32 }
    }
}

/// How long, in milliseconds, a connection may stay silent before it is closed: one and a
/// half keep-alive intervals, counted in whole seconds.
pub open spec fn spec_keep_alive_timeout_ms(keep_alive_secs: u16) -> int {
    (keep_alive_secs as int * 3 / 2) * 1000
}

/// How long, in milliseconds, a connection may stay silent before it is closed.
pub fn keep_alive_timeout_ms(keep_alive_secs: u16) -> (r: u64)
    ensures
        r == spec_keep_alive_timeout_ms(keep_alive_secs),
{
    (keep_alive_secs as u64 * 3 / 2) * 1000
}

/// Whether a connection silent for `elapsed_ms` milliseconds has run out its keep-alive:
/// the timeout is reached as soon as the silence lasts as long as it.
pub fn keep_alive_expired(keep_alive_secs: u16, elapsed_ms: u128) -> (r: bool)
    ensures
        r == (elapsed_ms >= spec_keep_alive_timeout_ms(keep_alive_secs)),
{
    elapsed_ms >= keep_alive_timeout_ms(keep_alive_secs) as u128
}

} // verus!

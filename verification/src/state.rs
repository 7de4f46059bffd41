//! Session identifiers made from a time stamp and a counter, and what is kept of each
//! connection.
use vstd::prelude::*;
use std::sync::atomic::{AtomicU64, Ordering};

verus! {

/// The identifier made from `stamp` and `counter`: the stamp shifted up by 32 bits, with the
/// counter or'ed into the low bits.
pub open spec fn spec_session_id(stamp: u128, counter: u64) -> u128 {
    (stamp << 32u128) | (counter as u128)
}

/// The identifier made from `stamp` and `counter`.
pub fn session_id_from(stamp: u128, counter: u64) -> (r: u128)
    ensures
        r == spec_session_id(stamp, counter),
{
    (stamp << 32u128) | (counter as u128)
}

/// A shared counter of the session identifiers handed out.
#[derive(Debug)]
pub struct SessionIdGenerator(AtomicU64);

impl SessionIdGenerator {
    /// A generator whose counter starts at zero.
    pub fn new() -> (r: Self) {
        SessionIdGenerator(AtomicU64::new(0))
    }

    /// A new identifier for a session started at `base_secs`, the seconds since the Unix
    /// epoch: the counter is taken and advanced.
    pub fn generate(&self, base_secs: u128) -> (r: u128)
        ensures
            exists|counter: u64| r == #[trigger] spec_session_id(base_secs, counter),
    {
        let counter = self.0.fetch_add(1, Ordering::Relaxed);
        let r = session_id_from(base_secs, counter);
        assert(r == spec_session_id(base_secs, counter));
        r
    }
}

impl Default for SessionIdGenerator {
    fn default() -> (r: Self) {
        Self::new()
    }
}

/// A counter of the session identifiers handed out, for one task.
pub struct SessionIdGen(u64);

impl SessionIdGen {
    /// How many identifiers have been handed out, modulo 2^64.
    pub closed spec fn count(&self) -> u64 {
        self.0
    }

    /// A generator whose counter starts at zero.
    pub fn new() -> (r: Self)
        ensures
            r.count() == 0,
    {
        SessionIdGen(0)
    }

    /// A new identifier for a session started at tick `timestamp`: the counter is taken and
    /// advanced, wrapping around.
    pub fn generate(&mut self, timestamp: u128) -> (r: u128)
        ensures
            r == spec_session_id(timestamp, old(self).count()),
            final(self).count() == (if old(self).count() == u64::MAX {
                0
            } else {
                old(self).count() + 1
            }),
    {
        let counter = self.0;
        self.0 = self.0.wrapping_add(1);
        session_id_from(timestamp, counter)
    }
}

impl Default for SessionIdGen {
    fn default() -> (r: Self)
        ensures
            r.count() == 0,
    {
        Self::new()
    }
}

/// What the server keeps of a connection: its session and the address of its peer.
#[derive(Debug)]
pub struct ConnectionHandle {
    pub session_id: u128,
    pub peer_addr: String,
}

} // verus!

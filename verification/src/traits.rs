//! Network addresses and errors, and the clock the broker reads.
use vstd::prelude::*;

verus! {

/// An IPv4 socket address.
#[derive(Debug, Clone, Copy, PartialEq, Eq)]
pub struct SocketAddr {
    pub ip: [u8; 4],
    pub port: u16,
}

/// An error raised by a network operation.
#[derive(Debug, Clone, Copy, PartialEq, Eq, Structural)]
pub enum NetworkError {
    ConnectionClosed,
    ReadFailed,
    ReadWouldBlock,
    ReadTimedOut,
    ReadInterrupted,
    WriteFailed,
    WriteWouldBlock,
    WriteTimedOut,
    WriteInterrupted,
    FlushFailed,
    AcceptFailed,
    AcceptWouldBlock,
    CloseFailed,
}

/// A clock that reads the current time in nanoseconds.
pub trait TimeSource {
    fn now_nano_secs(&self) -> u128;
}

/// A clock that always reads zero.
#[derive(Debug, Clone, Copy)]
pub struct DummyTimeSource;

impl TimeSource for DummyTimeSource {
    fn now_nano_secs(&self) -> (r: u128)
        ensures
            r == 0,
    {
        0
    }
}

} // verus!

//! Client identifiers.
use vstd::prelude::*;
use vstd::string::*;
use crate::protocol::error::ProtocolError;
use crate::protocol::heapless::HeaplessString;

verus! {

/// Longest client identifier the broker stores, in bytes.
pub const MAX_CLIENT_ID_LENGTH: usize = 23;

/// Client identifier.
/// The Server MUST allow ClientIds which are between 1 and 23 UTF-8 encoded bytes in length, and that contain only the characters
/// "0123456789abcdefghijklmnopqrstuvwxyzABCDEFGHIJKLMNOPQRSTUVWXYZ"
#[derive(Debug, Clone, Copy, PartialEq, Eq, PartialOrd, Ord, Hash)]
pub struct ClientId(HeaplessString<MAX_CLIENT_ID_LENGTH>);

impl View for ClientId {
    type V = Seq<u8>;

    closed spec fn view(&self) -> Seq<u8> {
        self.0@
    }
}

impl ClientId {
    /// Wraps a string as a client identifier.
    pub fn new(value: HeaplessString<MAX_CLIENT_ID_LENGTH>) -> (r: Self)
        ensures
            r@ == value@,
    {
        ClientId(value)
    }

    /// A client identifier holding the bytes of `value`; fails when they are longer
    /// than the maximum.
    pub fn from_str(value: &str) -> (r: Result<Self, ProtocolError>)
        ensures
            (r is Ok) <==> value.spec_bytes().len() <= MAX_CLIENT_ID_LENGTH,
            r matches Ok(c) ==> c@ == value.spec_bytes(),
            r matches Err(e) ==> e == (ProtocolError::ClientIdLengthExceeded {
                max_length: MAX_CLIENT_ID_LENGTH,
                actual_length: value.spec_bytes().len() as usize,
            }),
    {
        match HeaplessString::from_str(value) {
            Ok(s) => Ok(ClientId(s)),
            Err(_) => Err(
                ProtocolError::ClientIdLengthExceeded {
                    max_length: MAX_CLIENT_ID_LENGTH,
                    actual_length: value.len(),
                },
            ),
        }
    }

    /// The identifier as a string.
    pub fn as_heapless(&self) -> (r: &HeaplessString<MAX_CLIENT_ID_LENGTH>)
        ensures
            r@ == self@,
    {
        &self.0
    }
}

impl Default for ClientId {
    fn default() -> (r: Self)
        ensures
            r@ == Seq::<u8>::empty(),
    {
        ClientId(HeaplessString::new())
    }
}

impl From<HeaplessString<MAX_CLIENT_ID_LENGTH>> for ClientId {
    fn from(value: HeaplessString<MAX_CLIENT_ID_LENGTH>) -> (r: Self) {
        ClientId(value)
    }
}

impl vstd::std_specs::convert::FromSpecImpl<HeaplessString<MAX_CLIENT_ID_LENGTH>> for ClientId {
    closed spec fn obeys_from_spec() -> bool {
        true
    }

    closed spec fn from_spec(value: HeaplessString<MAX_CLIENT_ID_LENGTH>) -> Self {
        ClientId(value)
    }
}

impl<'a> TryFrom<&'a str> for ClientId {
    type Error = ProtocolError;

    fn try_from(value: &'a str) -> (r: Result<Self, ProtocolError>)
        ensures
            (r is Ok) <==> value.spec_bytes().len() <= MAX_CLIENT_ID_LENGTH,
            r matches Ok(c) ==> c@ == value.spec_bytes(),
            r matches Err(e) ==> e == (ProtocolError::ClientIdLengthExceeded {
                max_length: MAX_CLIENT_ID_LENGTH,
                actual_length: value.spec_bytes().len() as usize,
            }),
    {
        Self::from_str(value)
    }
}

impl<'a> vstd::std_specs::convert::TryFromSpecImpl<&'a str> for ClientId {
    open spec fn obeys_try_from_spec() -> bool {
        false
    }

    open spec fn try_from_spec(v: &'a str) -> Result<Self, ProtocolError> {
        Err(ProtocolError::ClientIdEmpty)
    }
}

impl core::ops::Deref for ClientId {
    type Target = HeaplessString<MAX_CLIENT_ID_LENGTH>;

    fn deref(&self) -> (r: &HeaplessString<MAX_CLIENT_ID_LENGTH>)
        ensures
            r@ == self@,
    {
        &self.0
    }
}

} // verus!

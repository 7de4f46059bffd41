//! Quality-of-service levels.
use vstd::prelude::*;
use crate::protocol::error::ProtocolError;

verus! {

/// The delivery guarantee of a PUBLISH.
#[derive(Debug, Copy, Clone, Eq, PartialEq, Hash, Ord, PartialOrd, Structural)]
pub enum QoS {
    AtMostOnce,
    AtLeastOnce,
    ExactlyOnce,
}

/// The wire value of a QoS level.
pub open spec fn qos_code(q: QoS) -> u8 {
    match q {
        QoS::AtMostOnce => 0,
        QoS::AtLeastOnce => 1,
        QoS::ExactlyOnce => 2,
    }
}

/// The QoS level a wire value stands for, or the error for an invalid one.
pub open spec fn spec_qos_from(value: u8) -> Result<QoS, ProtocolError> {
    if value == 0 {
        Ok(QoS::AtMostOnce)
    } else if value == 1 {
        Ok(QoS::AtLeastOnce)
    } else if value == 2 {
        Ok(QoS::ExactlyOnce)
    } else {
        Err(ProtocolError::InvalidQosLevel { level: value })
    }
}

impl QoS {
    /// Reads a QoS level from its wire value.
    pub fn from_u8(value: u8) -> (r: Result<Self, ProtocolError>)
        ensures
            r == spec_qos_from(value),
    {
        match value {
            0 => Ok(QoS::AtMostOnce),
            1 => Ok(QoS::AtLeastOnce),
            2 => Ok(QoS::ExactlyOnce),
            _ => Err(ProtocolError::InvalidQosLevel { level: value }),
        }
    }

    /// The wire value of this level.
    pub fn to_u8(self) -> (r: u8)
        ensures
            r == qos_code(self),
    {
        match self {
            QoS::AtMostOnce => 0,
            QoS::AtLeastOnce => 1,
            QoS::ExactlyOnce => 2,
        }
    }
}

impl Default for QoS {
    fn default() -> (r: Self)
        ensures
            r == QoS::AtMostOnce,
    {
        QoS::AtMostOnce
    }
}

pub proof fn lemma_qos_code_roundtrip(q: QoS)
    ensures
        spec_qos_from(qos_code(q)) == Ok::<QoS, ProtocolError>(q),
{
}

} // verus!

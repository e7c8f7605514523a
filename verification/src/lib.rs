//! A verified codec for the MQTT v3.1.1 control-packet wire format.
//!
//! The library decodes a byte cursor into strongly typed packet structures
//! and encodes those structures back into bytes. Decoding never panics:
//! every malformed input is reported through [`Error`]. The two directions
//! are proved symmetric: `decode(encode(p)) == p` for every structurally
//! valid packet `p` (see `packet::lemma_packet_roundtrip`).
use vstd::prelude::*;

pub mod buf;
pub mod fields;
pub mod packet;
pub mod utils;
pub mod varint;

verus! {

/// Delivery-guarantee level attached to PUBLISH packets and subscriptions.
#[derive(Clone, Copy, Debug, PartialEq, Eq, Structural)]
pub enum QosLevel {
    AtMostOnce,
    AtLeastOnce,
    ExactlyOnce,
}

impl QosLevel {
    /// The 2-bit wire value of this level.
    pub open spec fn spec_as_u8(self) -> u8 {
        match self {
            QosLevel::AtMostOnce => 0,
            QosLevel::AtLeastOnce => 1,
            QosLevel::ExactlyOnce => 2,
        }
    }

    /// Returns the 2-bit wire value of this level.
    pub fn as_u8(self) -> (r: u8)
        ensures
            r == self.spec_as_u8(),
    {
        match self {
            QosLevel::AtMostOnce => 0,
            QosLevel::AtLeastOnce => 1,
            QosLevel::ExactlyOnce => 2,
        }
    }
}

/// Which length-prefixed string field a UTF-8 decode error refers to.
#[derive(Clone, Copy, Debug, PartialEq, Eq, Structural)]
pub enum FieldName {
    ClientId,
    WillTopic,
    WillMessage,
    Username,
    Password,
    PublishTopic,
    TopicName,
}

/// Every way in which decoding or encoding a packet can fail.
#[derive(Clone, Copy, Debug, PartialEq, Eq, Structural)]
pub enum Error {
    /// The remaining-length integer carried a continuation bit in its
    /// fourth byte, so a fifth byte would be needed.
    MalformedVarInt,
    /// The 4-bit packet-type field holds a value outside 1..=14.
    UnknownPacketType,
    /// A string field is not valid UTF-8; carries the field it refers to.
    InvalidUtf8(FieldName),
    /// The declared remaining length is inconsistent with the bytes the
    /// body layout actually needs: truncated or over-long input.
    MalformedPacket,
    /// Encode-time: a value cannot be represented in its wire width.
    ValueOutOfRange,
}

} // verus!

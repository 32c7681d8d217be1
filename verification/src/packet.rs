//! Typed packet model the receiver core works on.
//!
//! Wire encoding and decoding belong to the packet-codec collaborator; the
//! receiver consumes and produces packets already decoded into these plain
//! shapes.  Each packet carries a timestamp and the destination connection
//! identifier stamped by the emitting side.

use vstd::prelude::*;

verus! {

/// The information an ACK summarises: the high-water mark of received data.
#[derive(Clone, Copy, Debug, PartialEq, Eq, Structural)]
pub struct AckInfo {
    /// Largest received sequence number being acknowledged.
    pub lrsn: i32,
}

/// The control-packet shapes of the protocol.
#[derive(Clone, Debug, PartialEq, Eq)]
pub enum ControlType {
    /// Handshake payload, relayed verbatim; negotiation itself is owned by
    /// the connection-setup collaborator.
    Handshake(Vec<u8>),
    /// Keep the connection alive; resets the receiver's expiration count.
    KeepAlive,
    /// Acknowledgment of received data: ACK sequence number and summary.
    Ack(i32, AckInfo),
    /// Sender's echo of an ACK, by ACK sequence number; correlated against
    /// the ACK history window to measure round-trip time.
    Ack2(i32),
    /// Negative acknowledgment listing sequence numbers believed lost.
    Nak(Vec<i32>),
    /// The sender declares it will never retransmit the inclusive sequence
    /// range carried here.
    DropRequest(i32, i32),
    /// Terminal: the connection is closing.
    Shutdown,
}

/// A decoded packet: either application data or control information.
#[derive(Clone, Debug, PartialEq, Eq)]
pub enum Packet {
    /// An application data packet.
    Data {
        /// Sequence number of this packet.
        seq_number: i32,
        /// Sender-stamped timestamp.
        timestamp: i64,
        /// Destination connection identifier.
        dest_sockid: i32,
        /// The application payload.
        payload: Vec<u8>,
    },
    /// A control packet.
    Control {
        /// Sender-stamped timestamp.
        timestamp: i64,
        /// Destination connection identifier.
        dest_sockid: i32,
        /// The control information carried.
        control_type: ControlType,
    },
}

} // verus!

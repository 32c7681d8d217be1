//! Receiving-side reliability engine of a UDP-based reliable-transport
//! protocol (ARQ with timing-based flow estimation, in the style of UDT/SRT).
//!
//! Given a stream of arriving data and control packets over an unreliable,
//! unordered, duplicate-prone datagram channel, the receiver detects lost
//! packets, drives retransmission requests (NAK), acknowledges received data
//! (ACK/ACK2) and maintains the timing statistics used for round-trip-time
//! estimation.  Transport I/O, packet encoding and handshake negotiation are
//! collaborators outside this crate; the state machine here works on plain
//! decoded values and returns the packets to emit.

pub mod loss_list;
pub mod packet;
pub mod receiver;
pub mod seq_num;
pub mod timer;
pub mod window;

//! Decoding and frame reassembly for the gamepad video stream.
//!
//! The stream arrives as UDP datagrams, each carrying one fragment of a
//! video frame behind a bit-packed, big-endian header. `incoming_packet_parser`
//! turns one datagram into a [`incoming_packet_parser::WUPVideoPacket`],
//! `packet_organizer` collects the fragments of one frame, and `reassembly`
//! routes packets to frames, retires stale frames and hands out completed ones.
//! Both the 32-bit timestamp and the 10-bit sequence number wrap; `paws`
//! orders them on their rings.

use vstd::prelude::*;

pub mod incoming_packet_parser;
pub mod packet_organizer;
pub mod paws;
pub mod reassembly;

verus! {

/// The largest datagram that a source should be ready to receive.
/// The theoretical maximum is 2063 bytes (16 header bytes and 2047 payload
/// bytes); observed datagrams stay below 1700 bytes.
pub const WUP_VID_PACKET_BUFFER_SIZE: usize = 2048;

/// Distance, in timestamp units (microseconds), behind the newest timestamp
/// after which a frame can no longer be completed: five frames at ~60 Hz.
pub const STALE_FRAME_THRESHOLD: u32 = 16683 * 5;

} // verus!

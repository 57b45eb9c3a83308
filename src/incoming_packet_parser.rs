//! The datagram header: decoding one datagram into a [`WUPVideoPacket`] and
//! encoding a packet back into its wire form.
//!
//! Wire layout, big-endian, fields packed from the most significant bit of
//! the first byte:
//!
//! ```text
//! bytes 0..2   magic:4 | packet_type:2 | seq_id:10
//! bytes 2..4   init:1 | frame_begin:1 | chunk_end:1 | frame_end:1
//!              | has_timestamp:1 | payload_size:11
//! bytes 4..8   timestamp (u32)
//! bytes 8..16  extended header (opaque)
//! bytes 16..   payload (payload_size bytes)
//! ```

use vstd::prelude::*;

pub use crate::paws::{paws_comparison, u10_paws_compare, u32_paws_compare};

verus! {

/// Length of the fixed header in front of the payload.
pub const HEADER_LEN: usize = 16;

/// Shortest datagram accepted: the header and one payload byte.
pub const MIN_DATAGRAM_LEN: usize = 17;

/// The magic value that marks a video datagram.
pub const VIDEO_MAGIC: u8 = 15;

/// The only packet type carried on the video stream.
pub const VIDEO_PACKET_TYPE: u8 = 0;

/// One decoded video datagram: one fragment of a frame.
///
/// The narrow wire fields are held in the smallest integer type that fits
/// them; `wf` states that each value fits its width on the wire.
#[derive(PartialEq, Eq, Clone, Debug)]
pub struct WUPVideoPacket {
    /// 4 bits on the wire.
    pub magic: u8,
    /// 2 bits on the wire.
    pub packet_type: u8,
    /// 10 bits on the wire; wraps at 1024.
    pub seq_id: u16,
    pub init: bool,
    pub frame_begin: bool,
    pub chunk_end: bool,
    pub frame_end: bool,
    pub has_timestamp: bool,
    /// 11 bits on the wire: the length of `payload`.
    pub payload_size: u16,
    /// Microseconds; wraps about every 1.19 hours.
    pub timestamp: u32,
    pub extended_header: [u8; 8],
    pub payload: Vec<u8>,
}

/// The mathematical content of a [`WUPVideoPacket`].
pub struct VideoPacketModel {
    pub magic: u8,
    pub packet_type: u8,
    pub seq_id: u16,
    pub init: bool,
    pub frame_begin: bool,
    pub chunk_end: bool,
    pub frame_end: bool,
    pub has_timestamp: bool,
    pub payload_size: u16,
    pub timestamp: u32,
    pub extended_header: Seq<u8>,
    pub payload: Seq<u8>,
}

impl View for WUPVideoPacket {
    type V = VideoPacketModel;

    open spec fn view(&self) -> VideoPacketModel {
        VideoPacketModel {
            magic: self.magic,
            packet_type: self.packet_type,
            seq_id: self.seq_id,
            init: self.init,
            frame_begin: self.frame_begin,
            chunk_end: self.chunk_end,
            frame_end: self.frame_end,
            has_timestamp: self.has_timestamp,
            payload_size: self.payload_size,
            timestamp: self.timestamp,
            extended_header: self.extended_header@,
            payload: self.payload@,
        }
    }
}

impl VideoPacketModel {
    /// Every header field fits its width on the wire.
    pub open spec fn fits_wire(self) -> bool {
        &&& self.magic < 16
        &&& self.packet_type < 4
        &&& self.seq_id < 1024
        &&& self.payload_size < 2048
        &&& self.extended_header.len() == 8
    }

    /// Every header field fits its width on the wire and the payload has
    /// the announced length.
    pub open spec fn wf(self) -> bool {
        &&& self.fits_wire()
        &&& self.payload.len() == self.payload_size
    }

    /// The header marks a video datagram that carries a timestamp.
    pub open spec fn is_video(self) -> bool {
        &&& self.magic == VIDEO_MAGIC
        &&& self.packet_type == VIDEO_PACKET_TYPE
        &&& self.has_timestamp
    }
}

impl WUPVideoPacket {
    /// Every header field fits its width on the wire and the payload has
    /// the announced length.
    pub open spec fn wf(&self) -> bool {
        self@.wf()
    }

    /// Tells whether every header field fits its width on the wire and the
    /// payload has the announced length.
    pub fn is_well_formed(&self) -> (r: bool)
        ensures
            r == self.wf(),
    {
        self.magic < 16 && self.packet_type < 4 && self.seq_id < 1024 && self.payload_size < 2048
            && self.payload.len() == self.payload_size as usize
    }
}

/// Bit `weight` (a power of two) of `x`.
pub open spec fn flag_bit(x: u8, weight: int) -> bool {
    (x as int / weight) % 2 == 1
}

/// `weight` when `f` holds, else 0: a flag's contribution to its byte.
pub open spec fn flag_weight(f: bool, weight: int) -> int {
    if f {
        weight
    } else {
        0
    }
}

/// The magic: the top four bits of byte 0.
pub open spec fn wire_magic(b: Seq<u8>) -> int {
    b[0] as int / 16
}

/// The packet type: the next two bits of byte 0.
pub open spec fn wire_packet_type(b: Seq<u8>) -> int {
    (b[0] as int / 4) % 4
}

/// The sequence number: the low two bits of byte 0, then byte 1.
pub open spec fn wire_seq_id(b: Seq<u8>) -> int {
    (b[0] as int % 4) * 256 + b[1] as int
}

/// The timestamp flag: bit 3 of byte 2.
pub open spec fn wire_has_timestamp(b: Seq<u8>) -> bool {
    flag_bit(b[2], 8)
}

/// The payload length: the low three bits of byte 2, then byte 3.
pub open spec fn wire_payload_size(b: Seq<u8>) -> int {
    (b[2] as int % 8) * 256 + b[3] as int
}

/// The big-endian 32-bit integer in bytes `at .. at + 4`.
pub open spec fn be_u32(b: Seq<u8>, at: int) -> int {
    b[at] as int * 0x100_0000 + b[at + 1] as int * 0x1_0000 + b[at + 2] as int * 0x100 + b[at
        + 3] as int
}

/// The reasons for which a datagram is not a video packet, in the order
/// in which they are checked.
pub open spec fn rejects(b: Seq<u8>) -> bool {
    ||| b.len() < MIN_DATAGRAM_LEN
    ||| wire_magic(b) != VIDEO_MAGIC
    ||| wire_packet_type(b) != VIDEO_PACKET_TYPE
    ||| !wire_has_timestamp(b)
    ||| b.len() < HEADER_LEN + wire_payload_size(b)
}

/// What a datagram decodes to: nothing when it is rejected, else the
/// header's fields, the extended header and `payload_size` payload bytes.
pub open spec fn decode_spec(b: Seq<u8>) -> Option<VideoPacketModel> {
    if rejects(b) {
        None
    } else {
        Some(
            VideoPacketModel {
                magic: wire_magic(b) as u8,
                packet_type: wire_packet_type(b) as u8,
                seq_id: wire_seq_id(b) as u16,
                init: flag_bit(b[2], 128),
                frame_begin: flag_bit(b[2], 64),
                chunk_end: flag_bit(b[2], 32),
                frame_end: flag_bit(b[2], 16),
                has_timestamp: flag_bit(b[2], 8),
                payload_size: wire_payload_size(b) as u16,
                timestamp: be_u32(b, 4) as u32,
                extended_header: b.subrange(8, 16),
                payload: b.subrange(16, 16 + wire_payload_size(b)),
            },
        )
    }
}

/// The wire form of a packet.
pub open spec fn encode_spec(p: VideoPacketModel) -> Seq<u8> {
    seq![
        (p.magic as int * 16 + p.packet_type as int * 4 + p.seq_id as int / 256) as u8,
        (p.seq_id as int % 256) as u8,
        (flag_weight(p.init, 128) + flag_weight(p.frame_begin, 64) + flag_weight(p.chunk_end, 32)
            + flag_weight(p.frame_end, 16) + flag_weight(p.has_timestamp, 8) + p.payload_size as int
            / 256) as u8,
        (p.payload_size as int % 256) as u8,
        (p.timestamp as int / 0x100_0000) as u8,
        (p.timestamp as int / 0x1_0000 % 256) as u8,
        (p.timestamp as int / 0x100 % 256) as u8,
        (p.timestamp as int % 256) as u8,
    ] + p.extended_header + p.payload
}

/// Copies `b[from .. from + len]` into a new vector.
fn copy_bytes(b: &[u8], from: usize, len: usize) -> (r: Vec<u8>)
    requires
        from + len <= b@.len(),
    ensures
        r@ == b@.subrange(from as int, from + len),
{
    let mut r: Vec<u8> = Vec::with_capacity(len);
    let n = b.len();
    let mut i: usize = 0;
    while i < len
        invariant
            n == b@.len(),
            from + len <= n,
            i <= len,
            r@ == b@.subrange(from as int, from + i),
        decreases len - i,
    {
        r.push(b[from + i]);
        i += 1;
        assert(r@ =~= b@.subrange(from as int, from + i));
    }
    r
}

/// Decodes one datagram. Returns `None` when it is shorter than
/// [`MIN_DATAGRAM_LEN`], its magic or packet type is not that of video,
/// its timestamp flag is clear, or it is shorter than the header and the
/// payload that the header announces. Bytes past the payload are ignored.
pub fn process_video_packet(packet: &[u8]) -> (r: Option<WUPVideoPacket>)
    ensures
        match r {
            None => decode_spec(packet@) is None,
            Some(p) => decode_spec(packet@) == Some(p@) && p.wf(),
        },
{
    let len = packet.len();
    if len < MIN_DATAGRAM_LEN {
        return None;
    }
    let b0 = packet[0];
    let b2 = packet[2];
    let magic: u8 = b0 / 16;
    if magic != VIDEO_MAGIC {
        return None;
    }
    let packet_type: u8 = (b0 / 4) % 4;
    if packet_type != VIDEO_PACKET_TYPE {
        return None;
    }
    let seq_id: u16 = ((b0 % 4) as u16) * 256 + packet[1] as u16;
    let init = (b2 / 128) % 2 == 1;
    let frame_begin = (b2 / 64) % 2 == 1;
    let chunk_end = (b2 / 32) % 2 == 1;
    let frame_end = (b2 / 16) % 2 == 1;
    let has_timestamp = (b2 / 8) % 2 == 1;
    if !has_timestamp {
        return None;
    }
    let payload_size: u16 = ((b2 % 8) as u16) * 256 + packet[3] as u16;
    if len < HEADER_LEN + payload_size as usize {
        return None;
    }
    let timestamp: u32 = (packet[4] as u32) * 0x100_0000 + (packet[5] as u32) * 0x1_0000
        + (packet[6] as u32) * 0x100 + packet[7] as u32;
    let extended_header: [u8; 8] = [
        packet[8],
        packet[9],
        packet[10],
        packet[11],
        packet[12],
        packet[13],
        packet[14],
        packet[15],
    ];
    let payload = copy_bytes(packet, HEADER_LEN, payload_size as usize);
    let p = WUPVideoPacket {
        magic,
        packet_type,
        seq_id,
        init,
        frame_begin,
        chunk_end,
        frame_end,
        has_timestamp,
        payload_size,
        timestamp,
        extended_header,
        payload,
    };
    assert(p@.extended_header =~= packet@.subrange(8, 16));
    Some(p)
}

/// Appends the bytes of `b` to `out`.
fn append_bytes(out: &mut Vec<u8>, b: &[u8])
    ensures
        final(out)@ == old(out)@ + b@,
{
    let mut i: usize = 0;
    while i < b.len()
        invariant
            i <= b@.len(),
            out@ == old(out)@ + b@.subrange(0, i as int),
        decreases b@.len() - i,
    {
        out.push(b[i]);
        i += 1;
        assert(out@ =~= old(out)@ + b@.subrange(0, i as int));
    }
    assert(b@.subrange(0, b@.len() as int) =~= b@);
}

/// Encodes a packet into its wire form: the 16-byte header followed by the
/// payload bytes as they are held.
pub fn encode_video_packet(p: &WUPVideoPacket) -> (r: Vec<u8>)
    requires
        p@.fits_wire(),
    ensures
        r@ == encode_spec(p@),
{
    let mut r: Vec<u8> = Vec::new();
    r.push(p.magic * 16 + p.packet_type * 4 + (p.seq_id / 256) as u8);
    r.push((p.seq_id % 256) as u8);
    let init: u8 = if p.init { 128 } else { 0 };
    let frame_begin: u8 = if p.frame_begin { 64 } else { 0 };
    let chunk_end: u8 = if p.chunk_end { 32 } else { 0 };
    let frame_end: u8 = if p.frame_end { 16 } else { 0 };
    let has_timestamp: u8 = if p.has_timestamp { 8 } else { 0 };
    r.push(init + frame_begin + chunk_end + frame_end + has_timestamp + (p.payload_size / 256) as u8);
    r.push((p.payload_size % 256) as u8);
    r.push((p.timestamp / 0x100_0000) as u8);
    r.push((p.timestamp / 0x1_0000 % 256) as u8);
    r.push((p.timestamp / 0x100 % 256) as u8);
    r.push((p.timestamp % 256) as u8);
    append_bytes(&mut r, p.extended_header.as_slice());
    append_bytes(&mut r, p.payload.as_slice());
    assert(r@ =~= encode_spec(p@));
    r
}

proof fn lemma_flags_byte(init: bool, begin: bool, chunk_end: bool, end: bool, ts: bool, low: int)
    requires
        0 <= low < 8,
    ensures
        ({
            let x = (flag_weight(init, 128) + flag_weight(begin, 64) + flag_weight(chunk_end, 32)
                + flag_weight(end, 16) + flag_weight(ts, 8) + low) as u8;
            &&& flag_bit(x, 128) == init
            &&& flag_bit(x, 64) == begin
            &&& flag_bit(x, 32) == chunk_end
            &&& flag_bit(x, 16) == end
            &&& flag_bit(x, 8) == ts
            &&& x as int % 8 == low
        }),
{
}

proof fn lemma_be_u32_bytes(t: u32)
    ensures
        (t as int / 0x100_0000) as u8 as int * 0x100_0000 + (t as int / 0x1_0000 % 256) as u8 as int
            * 0x1_0000 + (t as int / 0x100 % 256) as u8 as int * 0x100 + (t as int % 256) as u8 as int
            == t as int,
{
}

proof fn lemma_first_byte(x: u8)
    ensures
        x as int == (x as int / 16) * 16 + (x as int / 4 % 4) * 4 + x as int % 4,
{
}

proof fn lemma_flags_of_byte(x: u8)
    ensures
        x as int == flag_weight(flag_bit(x, 128), 128) + flag_weight(flag_bit(x, 64), 64)
            + flag_weight(flag_bit(x, 32), 32) + flag_weight(flag_bit(x, 16), 16) + flag_weight(
            flag_bit(x, 8),
            8,
        ) + x as int % 8,
{
}

proof fn lemma_be_u32_of_bytes(a: u8, b: u8, c: u8, d: u8)
    ensures
        ({
            let t = a as int * 0x100_0000 + b as int * 0x1_0000 + c as int * 0x100 + d as int;
            &&& t / 0x100_0000 == a
            &&& t / 0x1_0000 % 256 == b
            &&& t / 0x100 % 256 == c
            &&& t % 256 == d
        }),
{
}

/// Encoding a well-formed video packet with a non-empty payload and
/// decoding the bytes gives the packet back, field for field.
pub proof fn lemma_round_trip(p: VideoPacketModel)
    requires
        p.wf(),
        p.is_video(),
        p.payload_size >= 1,
    ensures
        decode_spec(encode_spec(p)) == Some(p),
{
    let b = encode_spec(p);
    lemma_flags_byte(
        p.init,
        p.frame_begin,
        p.chunk_end,
        p.frame_end,
        p.has_timestamp,
        p.payload_size as int / 256,
    );
    lemma_be_u32_bytes(p.timestamp);
    assert(b.subrange(8, 16) =~= p.extended_header);
    assert(b.subrange(16, 16 + p.payload_size as int) =~= p.payload);
    let q = decode_spec(b)->Some_0;
    assert(q.seq_id == p.seq_id);
    assert(q.payload_size == p.payload_size);
    assert(q.timestamp == p.timestamp);
}

/// A buffer of at least 17 bytes whose header holds the video magic, the
/// video packet type and the timestamp flag, and which is long enough for
/// the payload it announces, decodes; re-encoding the packet gives the
/// buffer's first `16 + payload_size` bytes.
pub proof fn lemma_decode_accepts(b: Seq<u8>)
    requires
        b.len() >= MIN_DATAGRAM_LEN,
        wire_magic(b) == VIDEO_MAGIC,
        wire_packet_type(b) == VIDEO_PACKET_TYPE,
        wire_has_timestamp(b),
        b.len() >= HEADER_LEN + wire_payload_size(b),
    ensures
        decode_spec(b) is Some,
        decode_spec(b)->Some_0.wf(),
        encode_spec(decode_spec(b)->Some_0) == b.subrange(0, HEADER_LEN + wire_payload_size(b)),
{
    let p = decode_spec(b)->Some_0;
    let e = encode_spec(p);
    lemma_first_byte(b[0]);
    lemma_flags_of_byte(b[2]);
    lemma_be_u32_of_bytes(b[4], b[5], b[6], b[7]);
    assert(e =~= b.subrange(0, HEADER_LEN + wire_payload_size(b)));
}

/// A buffer whose magic is not that of video, whose packet type is not
/// video's, whose timestamp flag is clear, or which is shorter than the
/// header and the payload it announces, is rejected.
pub proof fn lemma_decode_rejects(b: Seq<u8>)
    requires
        wire_magic(b) != VIDEO_MAGIC || wire_packet_type(b) != VIDEO_PACKET_TYPE
            || !wire_has_timestamp(b) || b.len() < HEADER_LEN + wire_payload_size(b),
    ensures
        decode_spec(b) is None,
{
}

} // verus!

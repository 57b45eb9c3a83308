use drc_sim_rust_lib::incoming_packet_parser::{
    encode_video_packet, paws_comparison, process_video_packet, WUPVideoPacket,
};
use drc_sim_rust_lib::packet_organizer::{IncompleteReasonKind, PacketRejectReason};
use drc_sim_rust_lib::reassembly::{FrameStatus, IngestReport, ReassemblyEngine};
use drc_sim_rust_lib::{STALE_FRAME_THRESHOLD, WUP_VID_PACKET_BUFFER_SIZE};
use std::cmp::Ordering;

fn fragment(seq_id: u16, frame_begin: bool, frame_end: bool, timestamp: u32) -> WUPVideoPacket {
    WUPVideoPacket {
        magic: 15,
        packet_type: 0,
        seq_id,
        init: false,
        frame_begin,
        chunk_end: false,
        frame_end,
        has_timestamp: true,
        payload_size: 1,
        timestamp,
        extended_header: [0; 8],
        payload: vec![seq_id as u8],
    }
}

fn completed_seq_ids(report: &IngestReport) -> Vec<u16> {
    match &report.status {
        FrameStatus::Completed(frame) => frame.complete().unwrap().iter().map(|p| p.seq_id).collect(),
        FrameStatus::Incomplete(kind) => panic!("frame incomplete: {:?}", kind),
    }
}

fn incomplete(report: &IngestReport) -> IncompleteReasonKind {
    match &report.status {
        FrameStatus::Completed(_) => panic!("frame unexpectedly complete"),
        FrameStatus::Incomplete(kind) => *kind,
    }
}

#[test]
fn minimum_frame_one_fragment() {
    // Byte 2 is 0x18: of the five flags only frame_end and has_timestamp
    // are set.
    let buf: [u8; 17] = [
        0xF0, 0x01, 0x18, 0x01, 0x00, 0x00, 0x00, 0x01, 0, 0, 0, 0, 0, 0, 0, 0, 0x01,
    ];
    let packet = process_video_packet(&buf).unwrap();
    assert_eq!(packet.magic, 15);
    assert_eq!(packet.packet_type, 0);
    assert_eq!(packet.seq_id, 1);
    assert!(!packet.init);
    assert!(!packet.frame_begin);
    assert!(packet.frame_end);
    assert!(!packet.chunk_end);
    assert!(packet.has_timestamp);
    assert_eq!(packet.payload_size, 1);
    assert_eq!(packet.timestamp, 1);
    assert_eq!(packet.extended_header, [0u8; 8]);
    assert_eq!(packet.payload, vec![0x01]);

    // With frame_begin set as well (byte 2 = 0x58) the one fragment is a
    // whole frame.
    let mut whole = buf;
    whole[2] = 0x58;
    let packet = process_video_packet(&whole).unwrap();
    assert!(packet.frame_begin && packet.frame_end);
    let mut engine = ReassemblyEngine::new(STALE_FRAME_THRESHOLD);
    let report = engine.ingest(packet);
    assert_eq!(report.rejected, None);
    assert_eq!(completed_seq_ids(&report), vec![1]);
    assert_eq!(engine.accumulator_count(), 0);
}

#[test]
fn all_ones_datagram() {
    let mut buf = vec![0xF3, 0xFF, 0xF8, 0x01];
    buf.extend([0xFF; 13]);
    let packet = process_video_packet(&buf).unwrap();
    assert_eq!(packet.magic, 15);
    assert_eq!(packet.packet_type, 0);
    assert_eq!(packet.seq_id, 0x3FF);
    assert!(packet.init && packet.frame_begin && packet.chunk_end && packet.frame_end);
    assert!(packet.has_timestamp);
    assert_eq!(packet.payload_size, 1);
    assert_eq!(packet.timestamp, 0xFFFFFFFF);
    assert_eq!(packet.extended_header, [0xFF; 8]);
    assert_eq!(packet.payload, vec![0xFF]);
}

#[test]
fn bad_magic_rejects() {
    let mut buf = [0u8; 17];
    buf[0] = 0xE0;
    buf[2] = 0x18;
    buf[3] = 0x01;
    assert_eq!(process_video_packet(&buf), None);
    let engine = ReassemblyEngine::new(STALE_FRAME_THRESHOLD);
    assert_eq!(engine.accumulator_count(), 0);
    assert_eq!(engine.high_water_mark(), None);
}

#[test]
fn decoder_rejection_variants() {
    let good = encode_video_packet(&fragment(7, true, true, 99));
    assert!(process_video_packet(&good).is_some());
    // Shorter than 17 bytes.
    assert_eq!(process_video_packet(&good[..16]), None);
    // Packet type 1.
    let mut bad_type = good.clone();
    bad_type[0] |= 0x04;
    assert_eq!(process_video_packet(&bad_type), None);
    // Timestamp flag clear.
    let mut no_timestamp = good.clone();
    no_timestamp[2] &= !0x08;
    assert_eq!(process_video_packet(&no_timestamp), None);
    // Announces two payload bytes, holds one.
    let mut truncated = good.clone();
    truncated[3] = 2;
    assert_eq!(process_video_packet(&truncated), None);
    // Trailing bytes past the payload are ignored.
    let mut padded = good.clone();
    padded.resize(WUP_VID_PACKET_BUFFER_SIZE, 0);
    assert_eq!(process_video_packet(&padded), Some(fragment(7, true, true, 99)));
}

#[test]
fn round_trip_keeps_every_field() {
    let packet = WUPVideoPacket {
        magic: 15,
        packet_type: 0,
        seq_id: 0x2A5,
        init: true,
        frame_begin: false,
        chunk_end: true,
        frame_end: false,
        has_timestamp: true,
        payload_size: 3,
        timestamp: 0x1234_5678,
        extended_header: [1, 2, 3, 4, 5, 6, 7, 8],
        payload: vec![9, 10, 11],
    };
    assert!(packet.is_well_formed());
    let bytes = encode_video_packet(&packet);
    assert_eq!(
        bytes,
        vec![0xF2, 0xA5, 0xA8, 0x03, 0x12, 0x34, 0x56, 0x78, 1, 2, 3, 4, 5, 6, 7, 8, 9, 10, 11]
    );
    assert_eq!(process_video_packet(&bytes), Some(packet));
}

#[test]
fn well_formedness_check() {
    assert!(fragment(1023, true, true, 0).is_well_formed());
    assert!(!fragment(1024, true, true, 0).is_well_formed());
    let mut packet = fragment(1, true, true, 0);
    packet.payload_size = 2;
    assert!(!packet.is_well_formed());
}

#[test]
fn paws_comparison_against_half_space() {
    assert_eq!(paws_comparison(5, 512), Some(Ordering::Less));
    assert_eq!(paws_comparison(512, 512), None);
    assert_eq!(paws_comparison(600, 512), Some(Ordering::Greater));
}

#[test]
fn three_fragment_frame_in_order() {
    let mut engine = ReassemblyEngine::new(STALE_FRAME_THRESHOLD);
    let r1 = engine.ingest(fragment(284, true, false, 127384127));
    assert_eq!(incomplete(&r1), IncompleteReasonKind::NoEndPacket);
    let r2 = engine.ingest(fragment(285, false, false, 127384127));
    assert_eq!(incomplete(&r2), IncompleteReasonKind::NoEndPacket);
    assert_eq!(engine.frame_timestamps(), vec![127384127]);
    let r3 = engine.ingest(fragment(286, false, true, 127384127));
    assert_eq!(completed_seq_ids(&r3), vec![284, 285, 286]);
    assert_eq!(engine.accumulator_count(), 0);
}

#[test]
fn three_fragment_frame_across_wrap() {
    let mut engine = ReassemblyEngine::new(STALE_FRAME_THRESHOLD);
    engine.ingest(fragment(1, false, true, 127384127));
    engine.ingest(fragment(1023, true, false, 127384127));
    let report = engine.ingest(fragment(0, false, false, 127384127));
    assert_eq!(completed_seq_ids(&report), vec![1023, 0, 1]);
}

#[test]
fn stale_eviction() {
    let threshold: u32 = 1000;
    let t0: u32 = 50_000;
    let mut engine = ReassemblyEngine::new(threshold);
    assert_eq!(engine.stale_frame_threshold(), threshold);
    let first = engine.ingest(fragment(10, true, false, t0));
    assert!(first.evicted.is_empty());
    let second = engine.ingest(fragment(20, true, false, t0 + threshold + 1));
    assert_eq!(second.evicted, vec![t0]);
    assert_eq!(engine.accumulator_count(), 1);
    assert_eq!(engine.frame_timestamps(), vec![t0 + threshold + 1]);
    assert_eq!(engine.high_water_mark(), Some(t0 + threshold + 1));
}

#[test]
fn frame_at_threshold_is_kept() {
    let threshold: u32 = 1000;
    let mut engine = ReassemblyEngine::new(threshold);
    engine.ingest(fragment(10, true, false, 5));
    let report = engine.ingest(fragment(20, true, false, 5 + threshold));
    assert!(report.evicted.is_empty());
    assert_eq!(engine.frame_timestamps(), vec![5, 5 + threshold]);
}

#[test]
fn eviction_across_timestamp_wrap() {
    let threshold: u32 = 100;
    let mut engine = ReassemblyEngine::new(threshold);
    engine.ingest(fragment(1, true, false, 0xFFFF_FF00));
    let report = engine.ingest(fragment(2, true, false, 0x10));
    assert_eq!(report.evicted, vec![0xFFFF_FF00]);
    assert_eq!(engine.high_water_mark(), Some(0x10));
}

#[test]
fn older_packet_keeps_high_water_mark() {
    let mut engine = ReassemblyEngine::new(STALE_FRAME_THRESHOLD);
    engine.ingest(fragment(1, true, false, 2_000_000));
    engine.ingest(fragment(5, true, false, 1_990_000));
    assert_eq!(engine.high_water_mark(), Some(2_000_000));
    assert_eq!(engine.accumulator_count(), 2);
}

#[test]
fn rejected_fragment_is_reported_and_frame_kept() {
    let mut engine = ReassemblyEngine::new(STALE_FRAME_THRESHOLD);
    engine.ingest(fragment(3, true, false, 77));
    let report = engine.ingest(fragment(3, false, false, 77));
    assert_eq!(report.rejected, Some(PacketRejectReason::AlreadyHaveSeq));
    assert_eq!(incomplete(&report), IncompleteReasonKind::NoEndPacket);
    assert_eq!(engine.accumulator_count(), 1);
}

#[test]
fn fatal_frame_is_dropped() {
    let mut engine = ReassemblyEngine::new(STALE_FRAME_THRESHOLD);
    engine.ingest(fragment(40, false, false, 77));
    engine.ingest(fragment(10, true, false, 77));
    let report = engine.ingest(fragment(11, false, true, 77));
    assert_eq!(incomplete(&report), IncompleteReasonKind::TooManyPackets);
    assert_eq!(engine.accumulator_count(), 0);
}

use std::cmp::Ordering;

use drc_sim_rust_lib::incoming_packet_parser::{
    encode_video_packet, process_video_packet, u10_paws_compare, u32_paws_compare,
    WUPVideoPacket,
};

fn data_from_wupvideopacket(input: WUPVideoPacket) -> Result<Vec<u8>, &'static str> {
    Ok(encode_video_packet(&input))
}

const ONES_SLICE: [u8; 17] = [
    0xF0, 0x1, // magic, packet_type, seq_id
    0x8, // init, frame_begin, chunk_end, frame_end, has_timestamp, first 3 of payload_size
    0x1, // other 8 of payload_size
    0x0, 0x0, 0x0, 0x1, // timestamp
    0x0, 0x0, 0x0, 0x0, 0x0, 0x0, 0x0, 0x0, // extended_header
    0x01, // payload
];

fn data_ones() -> WUPVideoPacket {
    WUPVideoPacket {
        magic: 15,
        packet_type: 0,
        seq_id: 1,
        init: false,
        frame_begin: false,
        chunk_end: false,
        frame_end: false,
        has_timestamp: true,
        payload_size: 1,
        timestamp: 1,
        extended_header: 0u64.to_be_bytes(),
        payload: Vec::from([0x1]),
    }
}

const CHRISTMAS_TREE_SLICE: [u8; 17] = [
    0xF3, 0xFF, // magic, packet_type, seq_id
    0xF8, // init, frame_begin, chunk_end, frame_end, has_timestamp, first 3 of payload_size
    0x1,  // other 8 of payload_size
    0xFF, 0xFF, 0xFF, 0xFF, // timestamp
    0xFF, 0xFF, 0xFF, 0xFF, 0xFF, 0xFF, 0xFF, 0xFF, // extended_header
    0xFF, // payload
];

fn data_christmas_tree() -> WUPVideoPacket {
    WUPVideoPacket {
        magic: 15,
        packet_type: 0,
        seq_id: 1023,
        init: true,
        frame_begin: true,
        chunk_end: true,
        frame_end: true,
        has_timestamp: true,
        payload_size: 1,
        timestamp: 0xFFFFFFFF,
        extended_header: 0xFFFFFFFFFFFFFFFFu64.to_be_bytes(),
        payload: Vec::from([0xFF]),
    }
}

#[test]
fn test_incoming_packet_parser_test_data_from_wupvideopacket_ones() {
    assert_eq!(
        data_from_wupvideopacket(data_ones()).unwrap(),
        [0xF0, 1, 8, 1, 0, 0, 0, 1, 0, 0, 0, 0, 0, 0, 0, 0, 1]
    );
}

#[test]
fn test_incoming_packet_parser_test_data_from_wupvideopacket_christmastree() {
    assert_eq!(
        data_from_wupvideopacket(data_christmas_tree()).unwrap(),
        CHRISTMAS_TREE_SLICE
    );
}

#[test]
fn test_incoming_packet_parser_christmas_tree_video_packet() {
    assert_eq!(
        process_video_packet(&CHRISTMAS_TREE_SLICE),
        Some(data_christmas_tree())
    );
}

#[test]
fn ones_video_packet() {
    assert_eq!(process_video_packet(&ONES_SLICE), Some(data_ones()));
}

#[test]
fn test_incoming_packet_parser_fail_with_invalid_magic() {
    let mut packet = data_ones();
    packet.magic = 14;
    assert_eq!(
        process_video_packet(&data_from_wupvideopacket(packet).unwrap()),
        None
    );
}

#[test]
fn test_incoming_packet_parser_fail_with_invalid_type() {
    let mut packet = CHRISTMAS_TREE_SLICE.clone();
    packet[0] = 0xF8;
    assert_eq!(process_video_packet(&packet), None);
}

/// Ensures that the comparison of s and t equals comparison, and that
/// the inverse is also true.
fn do_u32_timestamp_compare_test(s: u32, t: u32, comparison: Ordering) {
    let result = u32_paws_compare(s, t);
    assert_eq!(
        result,
        Some(comparison),
        "{:#X} was not {:?} to {:#X} (it was {:?})",
        s,
        comparison,
        t,
        result
    );
    let comparison = comparison.reverse();
    let result = u32_paws_compare(t, s);
    assert_eq!(
        result,
        Some(comparison),
        "on inversion test, {:#X} was not {:?} to {:#X} (it was {:?})",
        s,
        comparison,
        t,
        result
    );
}

#[test]
fn test_u32_timestamp_compare() {
    do_u32_timestamp_compare_test(0xFFFFFFFF, 0x00000000, Ordering::Less);
    do_u32_timestamp_compare_test(0xFFFFFFFF, 0x00000001, Ordering::Less);
    do_u32_timestamp_compare_test(0xFFFFFFFF, 0x000000F1, Ordering::Less);
    do_u32_timestamp_compare_test(0xFFFFFFFF, 0x000000FF, Ordering::Less);
    do_u32_timestamp_compare_test(0xFFFFFFFF, 0x0000FFFE, Ordering::Less);
    do_u32_timestamp_compare_test(0xFFFFFFFF, 0xFFFFFFFE, Ordering::Greater);
    do_u32_timestamp_compare_test(0xFFFFFFFF, 0xFFFF0000, Ordering::Greater);
    do_u32_timestamp_compare_test(0xFFFFFFFF, 0x0FFFFFFF, Ordering::Less);
    do_u32_timestamp_compare_test(0xFFFFFFFF, 0x0FFFFFFF, Ordering::Less);
    do_u32_timestamp_compare_test(0xFFFFFFFF, 0x10000000, Ordering::Less);
    do_u32_timestamp_compare_test(0xFFFFFFFF, 0x70000000, Ordering::Less);
    do_u32_timestamp_compare_test(0xFFFFFFFF, 0x7FFFFFFE, Ordering::Less);
    do_u32_timestamp_compare_test(0xFFFFFFFF, 0x80000000, Ordering::Greater);
    // 0x7FFFFFFF and 0xFFFFFFFF are exactly 2**31 apart.
    assert_eq!(u32_paws_compare(0xFFFFFFFF, 0x7FFFFFFF), None);
    assert_eq!(u32_paws_compare(0x7FFFFFFF, 0xFFFFFFFF), None);

    // The same with an arbitrarily chosen s.
    assert_eq!(u32_paws_compare(0x9E911F8, 0x89E911F8), None);
    assert_eq!(u32_paws_compare(0x89E911F8, 0x9E911F8), None);
}

#[test]
fn u10_compare_across_wrap() {
    assert_eq!(u10_paws_compare(1023, 0), Some(Ordering::Less));
    assert_eq!(u10_paws_compare(0, 1023), Some(Ordering::Greater));
    assert_eq!(u10_paws_compare(5, 5), Some(Ordering::Equal));
    assert_eq!(u10_paws_compare(100, 611), Some(Ordering::Less));
    assert_eq!(u10_paws_compare(100, 613), Some(Ordering::Greater));
    assert_eq!(u10_paws_compare(100, 612), None);
    assert_eq!(u10_paws_compare(612, 100), None);
    assert_eq!(u10_paws_compare(0, 512), None);
}

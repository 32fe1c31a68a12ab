use printer_gateway::depacketizer::{AccessUnit, H264RtpDepacketizer};
use printer_gateway::rtp::RtpPacket;

fn packet(seq: u16, ts: u32, marker: bool, payload: &[u8]) -> RtpPacket {
    RtpPacket {
        payload_type: 96,
        marker,
        sequence_number: seq,
        timestamp: ts,
        ssrc: 1,
        payload: payload.to_vec(),
    }
}

fn stap(nals: &[&[u8]]) -> Vec<u8> {
    let mut out = vec![0x18];
    for nal in nals {
        out.extend_from_slice(&(nal.len() as u16).to_be_bytes());
        out.extend_from_slice(nal);
    }
    out
}

fn has_idr(unit: &AccessUnit) -> bool {
    unit.nals.iter().any(|n| !n.is_empty() && n[0] & 0x1F == 5)
}

#[test]
fn stap_a_assembly_gives_one_unit() {
    let mut d = H264RtpDepacketizer::new();
    let payload = [0x18, 0x00, 0x03, 0x67, 0x42, 0x00, 0x00, 0x02, 0xAA, 0xBB];
    let units = d.handle(&packet(1, 1000, true, &payload));
    assert_eq!(units.len(), 1);
    assert_eq!(units[0].nals, vec![vec![0x67, 0x42, 0x00], vec![0xAA, 0xBB]]);
    assert!(!units[0].is_idr);
    assert_eq!(units[0].rtp_timestamp, 1000);
}

#[test]
fn stap_a_equals_single_nal_packets() {
    let a: &[u8] = &[0x67, 1, 2, 3];
    let b: &[u8] = &[0x68, 4];
    let c: &[u8] = &[0x65, 5, 6, 7, 8];
    let mut one = H264RtpDepacketizer::new();
    let from_stap = one.handle(&packet(10, 777, true, &stap(&[a, b, c])));
    let mut three = H264RtpDepacketizer::new();
    let mut from_singles = Vec::new();
    from_singles.extend(three.handle(&packet(20, 777, false, a)));
    from_singles.extend(three.handle(&packet(21, 777, false, b)));
    from_singles.extend(three.handle(&packet(22, 777, true, c)));
    assert_eq!(from_stap.len(), 1);
    assert_eq!(from_singles.len(), 1);
    assert_eq!(from_stap[0].nals, from_singles[0].nals);
    assert_eq!(from_stap[0].rtp_timestamp, from_singles[0].rtp_timestamp);
    assert_eq!(from_stap[0].is_idr, from_singles[0].is_idr);
    assert!(from_stap[0].is_idr);
}

#[test]
fn one_unit_per_timestamp_with_marker_at_end() {
    let mut d = H264RtpDepacketizer::new();
    let mut units = Vec::new();
    for i in 0..5u16 {
        units.extend(d.handle(&packet(i, 9000, i == 4, &[0x41, i as u8])));
    }
    assert_eq!(units.len(), 1);
    assert_eq!(units[0].rtp_timestamp, 9000);
    assert_eq!(units[0].nals.len(), 5);
    assert!(!units[0].is_idr);
}

#[test]
fn timestamp_change_ends_the_unit() {
    let mut d = H264RtpDepacketizer::new();
    assert!(d.handle(&packet(1, 100, false, &[0x41, 1])).is_empty());
    let units = d.handle(&packet(2, 200, false, &[0x65, 2]));
    assert_eq!(units.len(), 1);
    assert_eq!(units[0].rtp_timestamp, 100);
    assert_eq!(units[0].nals, vec![vec![0x41, 1]]);
    let units = d.handle(&packet(3, 200, true, &[0x41, 3]));
    assert_eq!(units.len(), 1);
    assert_eq!(units[0].rtp_timestamp, 200);
    assert!(units[0].is_idr);
    assert_eq!(units[0].is_idr, has_idr(&units[0]));
}

#[test]
fn fu_a_reassembles_fragments() {
    let mut d = H264RtpDepacketizer::new();
    assert!(d.handle(&packet(10, 5, false, &[0x7C, 0x85, 1, 2])).is_empty());
    assert!(d.handle(&packet(11, 5, false, &[0x7C, 0x05, 3])).is_empty());
    let units = d.handle(&packet(12, 5, true, &[0x7C, 0x45, 4, 5]));
    assert_eq!(units.len(), 1);
    assert_eq!(units[0].nals, vec![vec![0x65, 1, 2, 3, 4, 5]]);
    assert!(units[0].is_idr);
}

#[test]
fn fu_a_gap_drops_the_buffer() {
    let mut d = H264RtpDepacketizer::new();
    assert!(d.handle(&packet(10, 5, false, &[0x7C, 0x85, 1, 2])).is_empty());
    assert!(d.handle(&packet(12, 5, false, &[0x7C, 0x05, 3])).is_empty());
    assert!(d.handle(&packet(13, 5, true, &[0x7C, 0x45, 4])).is_empty());
}

#[test]
fn fu_a_sequence_wraps() {
    let mut d = H264RtpDepacketizer::new();
    assert!(d.handle(&packet(0xFFFF, 5, false, &[0x7C, 0x81, 1])).is_empty());
    let units = d.handle(&packet(0, 5, true, &[0x7C, 0x41, 2]));
    assert_eq!(units.len(), 1);
    assert_eq!(units[0].nals, vec![vec![0x61, 1, 2]]);
}

#[test]
fn fu_a_buffer_over_limit_is_dropped() {
    let mut d = H264RtpDepacketizer::new();
    let mut first = vec![0x7C, 0x81];
    first.extend(std::iter::repeat(0u8).take(60_000));
    assert!(d.handle(&packet(0, 5, false, &first)).is_empty());
    let mut middle = vec![0x7C, 0x01];
    middle.extend(std::iter::repeat(0u8).take(60_000));
    let mut seq = 1u16;
    for _ in 0..70 {
        assert!(d.handle(&packet(seq, 5, false, &middle)).is_empty());
        seq += 1;
    }
    assert!(d.handle(&packet(seq, 5, true, &[0x7C, 0x41, 1])).is_empty());
}

#[test]
fn unknown_and_empty_payloads_are_ignored() {
    let mut d = H264RtpDepacketizer::new();
    assert!(d.handle(&packet(1, 5, true, &[])).is_empty());
    assert!(d.handle(&packet(2, 5, true, &[0x19, 1, 2])).is_empty());
    assert!(d.handle(&packet(3, 5, true, &[0x00])).is_empty());
    assert!(d.handle(&packet(4, 5, true, &[0x18])).is_empty());
    assert!(d.handle(&packet(5, 5, true, &[0x7C, 0x85])).is_empty());
}

#[test]
fn stap_a_stops_at_truncated_unit() {
    let mut d = H264RtpDepacketizer::new();
    let units = d.handle(&packet(1, 5, true, &[0x18, 0, 1, 0x41, 0, 9, 1, 2]));
    assert_eq!(units.len(), 1);
    assert_eq!(units[0].nals, vec![vec![0x41]]);
}

#[test]
fn parameter_sets_are_taken_once() {
    let mut d = H264RtpDepacketizer::new();
    assert_eq!(d.take_parameter_sets(), None);
    d.handle(&packet(1, 5, false, &[0x67, 1]));
    assert_eq!(d.take_parameter_sets(), None);
    d.handle(&packet(2, 5, false, &[0x68, 2]));
    assert_eq!(d.take_parameter_sets(), Some((vec![0x67, 1], vec![0x68, 2])));
    assert_eq!(d.take_parameter_sets(), None);
    d.handle(&packet(3, 5, true, &[0x67, 9]));
    assert_eq!(d.take_parameter_sets(), Some((vec![0x67, 9], vec![0x68, 2])));
}

#[test]
fn oversized_access_unit_is_dropped() {
    let mut d = H264RtpDepacketizer::new();
    let mut nal = vec![0x41];
    nal.extend(std::iter::repeat(7u8).take(65_000));
    let mut emitted = Vec::new();
    for i in 0..140u16 {
        emitted.extend(d.handle(&packet(i, 5, i == 139, &nal)));
    }
    assert_eq!(emitted.len(), 1);
    assert_eq!(emitted[0].nals.len(), 10);
}

#[test]
fn access_unit_at_the_limit_is_kept() {
    let mut d = H264RtpDepacketizer::new();
    let mut nal = vec![0x41];
    nal.extend(std::iter::repeat(7u8).take(65_535));
    let mut emitted = Vec::new();
    for i in 0..128u16 {
        emitted.extend(d.handle(&packet(i, 5, i == 127, &nal)));
    }
    assert_eq!(emitted.len(), 1);
    assert_eq!(emitted[0].nals.len(), 128);
    let total: usize = emitted[0].nals.iter().map(|n| n.len()).sum();
    assert_eq!(total, 8 * 1024 * 1024);
}

#[test]
fn repeated_parameter_sets_are_no_change() {
    let mut d = H264RtpDepacketizer::new();
    d.handle(&packet(1, 5, false, &[0x67, 1]));
    d.handle(&packet(2, 5, true, &[0x68, 2]));
    assert_eq!(d.take_parameter_sets(), Some((vec![0x67, 1], vec![0x68, 2])));
    d.handle(&packet(3, 6, false, &[0x67, 1]));
    assert_eq!(d.take_parameter_sets(), None);
    d.handle(&packet(4, 6, true, &[0x68, 2]));
    assert_eq!(d.take_parameter_sets(), None);
    d.handle(&packet(5, 7, true, &[0x18, 0, 2, 0x67, 1, 0, 2, 0x68, 2]));
    assert_eq!(d.take_parameter_sets(), None);
    d.handle(&packet(6, 8, false, &[0x68, 3]));
    d.handle(&packet(7, 8, true, &[0x67, 1]));
    assert_eq!(d.take_parameter_sets(), Some((vec![0x67, 1], vec![0x68, 3])));
    assert_eq!(d.take_parameter_sets(), None);
}

#[test]
fn changed_set_stays_marked_until_taken() {
    let mut d = H264RtpDepacketizer::new();
    d.handle(&packet(1, 5, false, &[0x67, 1]));
    d.handle(&packet(2, 5, false, &[0x68, 2]));
    d.handle(&packet(3, 5, true, &[0x67, 1]));
    assert_eq!(d.take_parameter_sets(), Some((vec![0x67, 1], vec![0x68, 2])));
}

use printer_gateway::rtp::RtpPacket;
use printer_gateway::time::RtpTimeMapper;

fn header(marker: bool, pt: u8, seq: u16, ts: u32) -> Vec<u8> {
    let mut v = vec![0x80, (if marker { 0x80 } else { 0 }) | pt];
    v.extend_from_slice(&seq.to_be_bytes());
    v.extend_from_slice(&ts.to_be_bytes());
    v.extend_from_slice(&0x11223344u32.to_be_bytes());
    v
}

#[test]
fn rtp_parse_reads_header_and_payload() {
    let mut data = header(true, 96, 0x1234, 0xDEADBEEF);
    data.extend_from_slice(&[1, 2, 3]);
    let p = RtpPacket::parse(&data).unwrap();
    assert!(p.marker);
    assert_eq!(p.payload_type, 96);
    assert_eq!(p.sequence_number, 0x1234);
    assert_eq!(p.timestamp, 0xDEADBEEF);
    assert_eq!(p.ssrc, 0x11223344);
    assert_eq!(p.payload, vec![1, 2, 3]);
}

#[test]
fn rtp_parse_rejects_short_and_wrong_version() {
    assert!(RtpPacket::parse(&[0x80; 11]).is_none());
    let mut data = header(false, 96, 1, 1);
    data[0] = 0x40;
    assert!(RtpPacket::parse(&data).is_none());
}

#[test]
fn rtp_parse_skips_csrc_extension_and_padding() {
    let mut data = header(false, 96, 7, 9);
    data[0] = 0x80 | 0x20 | 0x10 | 0x01;
    data.extend_from_slice(&[9, 9, 9, 9]);
    data.extend_from_slice(&[0xBE, 0xDE, 0x00, 0x01, 5, 5, 5, 5]);
    data.extend_from_slice(&[0xAA, 0xBB, 0x00, 0x02]);
    let p = RtpPacket::parse(&data).unwrap();
    assert_eq!(p.payload, vec![0xAA, 0xBB]);
}

#[test]
fn rtp_parse_rejects_padding_that_reaches_into_header() {
    let mut data = header(false, 96, 7, 9);
    data[0] = 0x80 | 0x20;
    data.extend_from_slice(&[0xAA, 200]);
    assert!(RtpPacket::parse(&data).is_none());
}

#[test]
fn rtp_parse_rejects_truncated_extension() {
    let mut data = header(false, 96, 7, 9);
    data[0] = 0x80 | 0x10;
    data.extend_from_slice(&[0xBE, 0xDE]);
    assert!(RtpPacket::parse(&data).is_none());
}

#[test]
fn time_mapper_starts_at_zero_and_handles_wrap() {
    let mut m = RtpTimeMapper::new();
    assert_eq!(m.pts90k(0xFFFF_FF00), 0);
    assert_eq!(m.pts90k(0x0000_0010), 0x110);
    assert_eq!(m.pts90k(0xFFFF_FF00), 0);
    assert_eq!(m.pts90k(0xFFFF_FF01), 1);
}

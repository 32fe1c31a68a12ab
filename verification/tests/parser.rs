use printer_gateway::parser::{RtspEvent, RtspResponse, RtspStreamParser};

fn response(event: &RtspEvent) -> &RtspResponse {
    match event {
        RtspEvent::Response(r) => r,
        _ => panic!("not a response"),
    }
}

#[test]
fn parses_response_with_body() {
    let mut p = RtspStreamParser::new();
    let events = p.append(
        b"RTSP/1.0 200 OK\r\nCSeq: 2\r\nContent-Type: application/sdp\r\nContent-Length: 5\r\n\r\nhello",
    );
    assert_eq!(events.len(), 1);
    let r = response(&events[0]);
    assert_eq!(r.status_code, 200);
    assert_eq!(r.reason_phrase, b"OK".to_vec());
    assert_eq!(r.body, b"hello".to_vec());
    assert_eq!(r.cseq(), Some(2));
    assert_eq!(r.header(b"Content-Type"), Some(&b"application/sdp".to_vec()));
    assert_eq!(r.header(b"content-type"), Some(&b"application/sdp".to_vec()));
    assert_eq!(r.header(b"missing"), None);
}

#[test]
fn parses_interleaved_frames_between_responses() {
    let mut p = RtspStreamParser::new();
    let mut data = vec![0x24, 0, 0, 3, 1, 2, 3];
    data.extend_from_slice(b"RTSP/1.0 404 Not Found\r\nCSeq: 9\r\n\r\n");
    data.extend_from_slice(&[0x24, 1, 0, 0]);
    let events = p.append(&data);
    assert_eq!(events.len(), 3);
    match &events[0] {
        RtspEvent::Interleaved { channel, payload } => {
            assert_eq!(*channel, 0);
            assert_eq!(payload, &vec![1, 2, 3]);
        }
        _ => panic!("expected a frame"),
    }
    let r = response(&events[1]);
    assert_eq!(r.status_code, 404);
    assert_eq!(r.reason_phrase, b"Not Found".to_vec());
    match &events[2] {
        RtspEvent::Interleaved { channel, payload } => {
            assert_eq!(*channel, 1);
            assert!(payload.is_empty());
        }
        _ => panic!("expected a frame"),
    }
}

#[test]
fn keeps_incomplete_frames_until_more_arrives() {
    let mut p = RtspStreamParser::new();
    assert!(p.append(&[0x24, 0, 0]).is_empty());
    assert!(p.append(&[2, 9]).is_empty());
    let events = p.append(&[8, 0x24]);
    assert_eq!(events.len(), 1);
    assert!(p.append(b"").is_empty());
    let whole = b"RTSP/1.0 200 OK\r\nCSeq: 1\r\nContent-Length: 4\r\n\r\nbody";
    let mut q = RtspStreamParser::new();
    let mut seen = 0;
    for (i, b) in whole.iter().enumerate() {
        let events = q.append(&[*b]);
        if i + 1 < whole.len() {
            assert!(events.is_empty());
        } else {
            seen = events.len();
            assert_eq!(response(&events[0]).body, b"body".to_vec());
        }
    }
    assert_eq!(seen, 1);
}

#[test]
fn drops_malformed_status_line_and_stays_in_sync() {
    let mut p = RtspStreamParser::new();
    let mut data = b"garbage\r\nCSeq: 1\r\n\r\n".to_vec();
    data.extend_from_slice(b"RTSP/1.0 abc OK\r\nCSeq: 2\r\n\r\n");
    data.extend_from_slice(&[0x24, 5, 0, 1, 0xEE]);
    data.extend_from_slice(b"RTSP/1.0 200 OK\r\nCSeq: 3\r\n\r\n");
    let events = p.append(&data);
    assert_eq!(events.len(), 2);
    match &events[0] {
        RtspEvent::Interleaved { channel, payload } => {
            assert_eq!(*channel, 5);
            assert_eq!(payload, &vec![0xEE]);
        }
        _ => panic!("expected a frame"),
    }
    assert_eq!(response(&events[1]).cseq(), Some(3));
}

#[test]
fn drops_response_without_cseq_with_its_body() {
    let mut p = RtspStreamParser::new();
    let mut data = b"RTSP/1.0 200 OK\r\nContent-Length: 3\r\n\r\n$$$".to_vec();
    data.extend_from_slice(b"RTSP/1.0 200 OK\r\nCSeq: 4\r\n\r\n");
    let events = p.append(&data);
    assert_eq!(events.len(), 1);
    assert_eq!(response(&events[0]).cseq(), Some(4));
}

#[test]
fn header_names_fold_case_and_last_wins() {
    let mut p = RtspStreamParser::new();
    let events = p.append(
        b"RTSP/1.0 200\r\nCSEQ:  7 \r\nX-A: one\r\nx-a: two\r\nNoColon\r\n\r\n",
    );
    assert_eq!(events.len(), 1);
    let r = response(&events[0]);
    assert_eq!(r.reason_phrase, Vec::<u8>::new());
    assert_eq!(r.cseq(), Some(7));
    assert_eq!(r.header(b"X-A"), Some(&b"two".to_vec()));
    assert_eq!(r.header(b"nocolon"), Some(&Vec::new()));
}

#[test]
fn unreadable_content_length_counts_as_zero() {
    let mut p = RtspStreamParser::new();
    let events = p.append(b"RTSP/1.0 200 OK\r\nCSeq: 1\r\nContent-Length: many\r\n\r\n");
    assert_eq!(events.len(), 1);
    assert!(response(&events[0]).body.is_empty());
}

#[test]
fn status_line_needs_a_code() {
    let mut p = RtspStreamParser::new();
    assert!(p.append(b"RTSP/1.0\r\nCSeq: 1\r\n\r\n").is_empty());
    assert!(p.append(b"RTSP/1.0 65536 X\r\nCSeq: 1\r\n\r\n").is_empty());
    let events = p.append(b"RTSP/1.0 65535 X Y\r\nCSeq: 1\r\n\r\n");
    assert_eq!(events.len(), 1);
    assert_eq!(response(&events[0]).status_code, 65535);
    assert_eq!(response(&events[0]).reason_phrase, b"X Y".to_vec());
}

use printer_gateway::auth::{RtspAuthenticator, RtspCredentials};
use printer_gateway::client::{
    base_candidate, build_request, keepalive_interval_ms, parse_interleaved_channels,
    parse_session_info, HandshakePhase, HandshakeStep, InterleavedPacket, RtspConnectionState,
    RtspHandshake,
};
use printer_gateway::parser::{Header, RtspEvent, RtspResponse, RtspStreamParser};

fn response(text: &str) -> RtspResponse {
    let mut p = RtspStreamParser::new();
    let mut events = p.append(text.as_bytes());
    assert_eq!(events.len(), 1);
    match events.remove(0) {
        RtspEvent::Response(r) => r,
        _ => panic!("not a response"),
    }
}

fn header(name: &str, value: &str) -> Header {
    Header { name: name.as_bytes().to_vec(), value: value.as_bytes().to_vec() }
}

fn string(v: Vec<u8>) -> String {
    String::from_utf8(v).unwrap()
}

#[test]
fn build_request_lays_out_lines() {
    let headers = vec![header("Accept", "application/sdp"), header("X", "y")];
    assert_eq!(
        string(build_request(b"DESCRIBE", b"rtsp://h/s", 3, &headers, None)),
        "DESCRIBE rtsp://h/s RTSP/1.0\r\nCSeq: 3\r\nUser-Agent: BambuLANViewer/1.0\r\nAccept: application/sdp\r\nX: y\r\n\r\n"
    );
    let auth = b"Authorization: Basic eA==".to_vec();
    assert_eq!(
        string(build_request(b"OPTIONS", b"*", 0, &Vec::new(), Some(&auth))),
        "OPTIONS * RTSP/1.0\r\nCSeq: 0\r\nUser-Agent: BambuLANViewer/1.0\r\nAuthorization: Basic eA==\r\n\r\n"
    );
}

#[test]
fn interleaved_channels_from_transport() {
    let r = response("RTSP/1.0 200 OK\r\nCSeq: 1\r\nTransport: RTP/AVP/TCP;unicast; interleaved=2-3 ;ssrc=1\r\n\r\n");
    assert_eq!(parse_interleaved_channels(&r), Some((2, 3)));
    let r = response("RTSP/1.0 200 OK\r\nCSeq: 1\r\nTransport: RTP/AVP/TCP;interleaved=2\r\n\r\n");
    assert_eq!(parse_interleaved_channels(&r), None);
    let r = response("RTSP/1.0 200 OK\r\nCSeq: 1\r\nTransport: interleaved=x-1;interleaved=4-5\r\n\r\n");
    assert_eq!(parse_interleaved_channels(&r), None);
    let r = response("RTSP/1.0 200 OK\r\nCSeq: 1\r\n\r\n");
    assert_eq!(parse_interleaved_channels(&r), None);
    let r = response("RTSP/1.0 200 OK\r\nCSeq: 1\r\nTransport: interleaved=0-256\r\n\r\n");
    assert_eq!(parse_interleaved_channels(&r), None);
}

#[test]
fn session_info_from_header() {
    let r = response("RTSP/1.0 200 OK\r\nCSeq: 1\r\nSession: abc123 ; timeout=60\r\n\r\n");
    assert_eq!(parse_session_info(&r), Some((b"abc123".to_vec(), Some(60))));
    let r = response("RTSP/1.0 200 OK\r\nCSeq: 1\r\nSession: abc;timeout=x;timeout=9;timeout=\r\n\r\n");
    assert_eq!(parse_session_info(&r), Some((b"abc".to_vec(), Some(9))));
    let r = response("RTSP/1.0 200 OK\r\nCSeq: 1\r\nSession: s1\r\n\r\n");
    assert_eq!(parse_session_info(&r), Some((b"s1".to_vec(), None)));
    let r = response("RTSP/1.0 200 OK\r\nCSeq: 1\r\nSession:  ;timeout=5\r\n\r\n");
    assert_eq!(parse_session_info(&r), None);
    let r = response("RTSP/1.0 200 OK\r\nCSeq: 1\r\n\r\n");
    assert_eq!(parse_session_info(&r), None);
}

#[test]
fn keepalive_is_half_the_timeout() {
    assert_eq!(keepalive_interval_ms(None), 5000);
    assert_eq!(keepalive_interval_ms(Some(2)), 1000);
    assert_eq!(keepalive_interval_ms(Some(60)), 30_000);
    assert_eq!(keepalive_interval_ms(Some(u64::MAX)), u64::MAX);
}

#[test]
fn connection_numbers_requests_and_adds_session() {
    let mut c = RtspConnectionState::new(None);
    let (n, text) = c.next_request(b"DESCRIBE", b"rtsp://h/s", vec![header("Accept", "application/sdp")]);
    assert_eq!(n, 1);
    assert_eq!(
        string(text),
        "DESCRIBE rtsp://h/s RTSP/1.0\r\nCSeq: 1\r\nUser-Agent: BambuLANViewer/1.0\r\nAccept: application/sdp\r\n\r\n"
    );
    c.note_response(&response("RTSP/1.0 200 OK\r\nCSeq: 1\r\nSession: S9;timeout=30\r\n\r\n"));
    assert_eq!(c.session_timeout(), Some(30));
    let (n, text) = c.next_request(b"DESCRIBE", b"u", Vec::new());
    assert_eq!(n, 2);
    assert!(!string(text).contains("Session"));
    let (n, text) = c.next_request(b"PLAY", b"u", vec![header("Range", "npt=0-")]);
    assert_eq!(n, 3);
    assert_eq!(
        string(text),
        "PLAY u RTSP/1.0\r\nCSeq: 3\r\nUser-Agent: BambuLANViewer/1.0\r\nRange: npt=0-\r\nSession: S9\r\n\r\n"
    );
    let (_, text) = c.next_request(b"PLAY", b"u", vec![header("Session", "mine")]);
    assert_eq!(
        string(text),
        "PLAY u RTSP/1.0\r\nCSeq: 4\r\nUser-Agent: BambuLANViewer/1.0\r\nSession: mine\r\n\r\n"
    );
    c.note_response(&response("RTSP/1.0 200 OK\r\nCSeq: 1\r\nSession: T1\r\n\r\n"));
    assert_eq!(c.session_timeout(), None);
}

#[test]
fn connection_retries_once_after_a_challenge() {
    let auth = RtspAuthenticator::new(RtspCredentials {
        username: b"u".to_vec(),
        password: b"p".to_vec(),
    });
    let mut c = RtspConnectionState::new(Some(auth));
    let (_, text) = c.next_request(b"OPTIONS", b"u", Vec::new());
    assert!(string(text).contains("Authorization: Basic dTpw\r\n"));
    let refusal = response(
        "RTSP/1.0 401 Unauthorized\r\nCSeq: 1\r\nWWW-Authenticate: Digest realm=\"r\", nonce=\"n\"\r\n\r\n",
    );
    assert!(c.retry_after(&refusal, 1));
    let (_, text) = c.next_request(b"OPTIONS", b"u", Vec::new());
    assert!(string(text).contains("Authorization: Digest username=\"u\", realm=\"r\""));
    assert!(!c.retry_after(&refusal, 2));
    let basic = response("RTSP/1.0 401 Unauthorized\r\nCSeq: 1\r\nWWW-Authenticate: Basic realm=\"r\"\r\n\r\n");
    assert!(!c.retry_after(&basic, 1));
    let ok = response("RTSP/1.0 200 OK\r\nCSeq: 1\r\nWWW-Authenticate: Digest realm=\"r\", nonce=\"n\"\r\n\r\n");
    assert!(!c.retry_after(&ok, 1));
    let mut anonymous = RtspConnectionState::new(None);
    assert!(!anonymous.retry_after(&refusal, 1));
}

fn sent(step: HandshakeStep) -> (String, String, Vec<(String, String)>) {
    match step {
        HandshakeStep::Send(r) => (
            string(r.method),
            string(r.uri),
            r.headers.into_iter().map(|h| (string(h.name), string(h.value))).collect(),
        ),
        other => panic!("expected a request, got {:?}", other),
    }
}

#[test]
fn handshake_describes_sets_up_and_plays() {
    let (mut h, first) = RtspHandshake::start(b"rtsp://h/live");
    assert_eq!(string(first.method), "DESCRIBE");
    assert_eq!(string(first.uri), "rtsp://h/live");
    assert_eq!(first.headers.len(), 1);
    assert_eq!(string(first.headers[0].name.clone()), "Accept");
    assert_eq!(string(first.headers[0].value.clone()), "application/sdp");
    assert_eq!(h.phase(), HandshakePhase::Describing);

    let body = "a=control:*\r\nm=video 0 RTP/AVP 96\r\na=control:track1\r\n";
    let describe = response(&format!(
        "RTSP/1.0 200 OK\r\nCSeq: 1\r\nContent-Base: rtsp://h/live/\r\nContent-Length: {}\r\n\r\n{}",
        body.len(),
        body
    ));
    assert_eq!(base_candidate(&describe), Some(&b"rtsp://h/live/".to_vec()));
    let (method, uri, headers) = sent(h.on_response(&describe, b"rtsp://h/live/"));
    assert_eq!(method, "SETUP");
    assert_eq!(uri, "rtsp://h/live/track1");
    assert_eq!(
        headers,
        vec![("Transport".to_string(), "RTP/AVP/TCP;unicast;interleaved=0-1".to_string())]
    );
    assert_eq!(h.phase(), HandshakePhase::SettingUp);
    assert_eq!(h.sdp().unwrap().payload_type, Some(96));

    let setup = response("RTSP/1.0 200 OK\r\nCSeq: 2\r\nTransport: RTP/AVP/TCP;interleaved=4-5\r\n\r\n");
    let (method, uri, headers) = sent(h.on_response(&setup, b"ignored"));
    assert_eq!(method, "PLAY");
    assert_eq!(uri, "rtsp://h/live/");
    assert_eq!(headers, vec![("Range".to_string(), "npt=0-".to_string())]);
    assert_eq!(h.rtp_channel(), 4);
    assert_eq!(h.play_uri(), &b"rtsp://h/live/".to_vec());

    let play = response("RTSP/1.0 204 No Content\r\nCSeq: 3\r\n\r\n");
    assert!(matches!(h.on_response(&play, b""), HandshakeStep::Established));
    assert_eq!(h.phase(), HandshakePhase::Playing);
    assert!(matches!(h.on_response(&play, b""), HandshakeStep::Ignored));
}

#[test]
fn handshake_stops_on_refusal() {
    let (mut h, _) = RtspHandshake::start(b"rtsp://h/live");
    let refused = response("RTSP/1.0 454 Session Not Found\r\nCSeq: 1\r\n\r\n");
    match h.on_response(&refused, b"rtsp://h/live") {
        HandshakeStep::Refused { phase, status_code } => {
            assert_eq!(phase, HandshakePhase::Describing);
            assert_eq!(status_code, 454);
        }
        other => panic!("expected a refusal, got {:?}", other),
    }
    assert_eq!(h.phase(), HandshakePhase::Failed);
    assert!(matches!(h.on_response(&refused, b""), HandshakeStep::Ignored));
}

#[test]
fn handshake_defaults_channel_and_base() {
    let (mut h, _) = RtspHandshake::start(b"rtsp://h/live");
    let describe = response("RTSP/1.0 200 OK\r\nCSeq: 1\r\nContent-Location: rtsp://h/x\r\n\r\n");
    assert_eq!(base_candidate(&describe), Some(&b"rtsp://h/x".to_vec()));
    let (_, uri, _) = sent(h.on_response(&describe, b"rtsp://h/live"));
    assert_eq!(uri, "rtsp://h/live");
    let setup = response("RTSP/1.0 200 OK\r\nCSeq: 2\r\n\r\n");
    let (_, uri, _) = sent(h.on_response(&setup, b""));
    assert_eq!(uri, "rtsp://h/live");
    assert_eq!(h.rtp_channel(), 0);
    let none = response("RTSP/1.0 200 OK\r\nCSeq: 2\r\n\r\n");
    assert_eq!(base_candidate(&none), None);
}

#[test]
fn interleaved_packet_holds_channel_and_payload() {
    let p = InterleavedPacket { channel: 2, payload: vec![1] };
    assert_eq!(p.channel, 2);
    assert_eq!(p.payload, vec![1]);
}

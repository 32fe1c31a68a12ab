use printer_gateway::sdp::{joined_or_base, parse_sdp, resolve_control, SdpInfo};

fn text(v: &Option<Vec<u8>>) -> Option<&str> {
    v.as_deref().map(|b| std::str::from_utf8(b).unwrap())
}

const BODY: &str = "v=0\r\no=- 0 0 IN IP4 10.0.0.2\r\ns=Session\r\na=control:*\r\nm=audio 0 RTP/AVP 0\r\na=control:track9\r\nm=video 0 RTP/AVP 96\r\na=rtpmap:96 H264/90000\r\na=fmtp:96 packetization-mode=1; sprop-parameter-sets=Z0IAH+0BQHsg,aM4G4g==; profile-level-id=42001F\r\na=control:track1\r\n";

#[test]
fn parses_video_section() {
    let info = parse_sdp(BODY.as_bytes()).unwrap();
    assert_eq!(text(&info.session_control), Some("track9"));
    assert_eq!(text(&info.video_control), Some("track1"));
    assert_eq!(info.payload_type, Some(96));
    assert_eq!(info.sps, Some(vec![0x67, 0x42, 0x00, 0x1F, 0xED, 0x01, 0x40, 0x7B, 0x20]));
    assert_eq!(info.pps, Some(vec![0x68, 0xCE, 0x06, 0xE2]));
}

#[test]
fn session_control_before_media_sections() {
    let info = parse_sdp(b"a=control:*\nm=video 0 RTP/AVP 97\n").unwrap();
    assert_eq!(text(&info.session_control), Some("*"));
    assert_eq!(info.video_control, None);
    assert_eq!(info.payload_type, Some(97));
    assert_eq!(info.sps, None);
}

#[test]
fn empty_body_gives_empty_description() {
    let info = parse_sdp(b"").unwrap();
    assert_eq!(info.video_control, None);
    assert_eq!(info.session_control, None);
    assert_eq!(info.payload_type, None);
    assert_eq!(info.sps, None);
    assert_eq!(info.pps, None);
}

#[test]
fn rtpmap_overrides_payload_type_only_for_h264() {
    let info = parse_sdp(b"m=video 0 RTP/AVP 96\na=rtpmap:98 h264/90000\n").unwrap();
    assert_eq!(info.payload_type, Some(98));
    let info = parse_sdp(b"m=video 0 RTP/AVP 96\na=rtpmap:98 H265/90000\n").unwrap();
    assert_eq!(info.payload_type, Some(96));
    let info = parse_sdp(b"m=video 0 RTP/AVP 96\na=rtpmap:300 H264/90000\n").unwrap();
    assert_eq!(info.payload_type, None);
    let info = parse_sdp(b"m=VIDEO 0 RTP/AVP x\n").unwrap();
    assert_eq!(info.payload_type, None);
}

#[test]
fn invalid_base64_clears_the_set() {
    let info = parse_sdp(
        b"m=video 0 RTP/AVP 96\na=fmtp:96 sprop-parameter-sets=Z0IAHw==,aM4=\na=fmtp:96 sprop-parameter-sets=!!!\n",
    )
    .unwrap();
    assert_eq!(info.sps, None);
    assert_eq!(info.pps, Some(vec![0x68, 0xCE]));
}

#[test]
fn attributes_outside_video_are_ignored() {
    let info = parse_sdp(b"a=rtpmap:96 H264/90000\na=fmtp:96 sprop-parameter-sets=Z0IAHw==\n").unwrap();
    assert_eq!(info.payload_type, None);
    assert_eq!(info.sps, None);
}

#[test]
fn control_urls_resolve_against_base() {
    let base = b"rtsp://10.0.0.2:322/streaming/live/";
    assert_eq!(
        resolve_control(b"track1", base),
        b"rtsp://10.0.0.2:322/streaming/live/track1".to_vec()
    );
    assert_eq!(resolve_control(b"*", base), base.to_vec());
    assert_eq!(resolve_control(b"RTSPS://other/x", base), b"RTSPS://other/x".to_vec());
    assert_eq!(resolve_control(b"/abs", base), b"rtsp://10.0.0.2:322/abs".to_vec());
    assert_eq!(resolve_control(b"track1", b"not a url"), b"not a url".to_vec());
    assert_eq!(
        resolve_control(b"t", b"rtsp://h/a/b"),
        b"rtsp://h/a/t".to_vec()
    );
}

#[test]
fn resolved_urls_of_a_description() {
    let base = b"rtsp://h/live/";
    let info = SdpInfo {
        video_control: Some(b"trackID=1".to_vec()),
        session_control: Some(b"*".to_vec()),
        payload_type: None,
        sps: None,
        pps: None,
    };
    assert_eq!(info.resolved_video_control_url(base), b"rtsp://h/live/trackID=1".to_vec());
    assert_eq!(info.resolved_play_url(base), base.to_vec());
    let bare = SdpInfo {
        video_control: None,
        session_control: Some(b"rtsp://h/other".to_vec()),
        payload_type: None,
        sps: None,
        pps: None,
    };
    assert_eq!(bare.resolved_video_control_url(base), base.to_vec());
    assert_eq!(bare.resolved_play_url(base), b"rtsp://h/other".to_vec());
}

#[test]
fn joined_or_base_prefers_the_joined_url() {
    assert_eq!(joined_or_base(Some(b"a".to_vec()), b"b"), b"a".to_vec());
    assert_eq!(joined_or_base(None, b"b"), b"b".to_vec());
}

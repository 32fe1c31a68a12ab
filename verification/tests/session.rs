use printer_gateway::cmaf::{CmafSegmenter, SegmenterAction};
use printer_gateway::commands::CommandRequest;
use printer_gateway::json::{JsonMember, JsonNumber, JsonValue};
use printer_gateway::pipeline::VideoPipeline;
use printer_gateway::session::{
    choose_rtsp_url, client_id, effective_part_duration, report_topic, request_topic, MqttAction,
    MqttEvent, MqttSession,
};

fn obj(members: Vec<(&str, JsonValue)>) -> JsonValue {
    JsonValue::Object(
        members
            .into_iter()
            .map(|(k, value)| JsonMember { key: k.as_bytes().to_vec(), value })
            .collect(),
    )
}

#[test]
fn topics_and_client_id() {
    assert_eq!(report_topic(b"01S00A"), b"device/01S00A/report".to_vec());
    assert_eq!(request_topic(b"01S00A"), b"device/01S00A/request".to_vec());
    assert_eq!(
        client_id(b"bambu-lan-viewer", b"01S00A", b"x7Kq2p"),
        b"bambu-lan-viewer-01S00A-x7Kq2p".to_vec()
    );
}

#[test]
fn supervisor_settings() {
    assert_eq!(effective_part_duration(29_970, 180_000), 29_970);
    assert_eq!(effective_part_duration(0, 180_000), 180_000);
    assert_eq!(effective_part_duration(0, 0), 22_500);
    let a = b"rtsp://configured".to_vec();
    let b = b"rtsp://reported".to_vec();
    assert_eq!(choose_rtsp_url(Some(&a), Some(&b)), Some(&a));
    assert_eq!(choose_rtsp_url(None, Some(&b)), Some(&b));
    assert_eq!(choose_rtsp_url(None, None), None);
}

#[test]
fn session_tracks_connection_and_reports() {
    let mut s = MqttSession::new(b"1".to_vec(), b"SER".to_vec());
    assert!(!s.state.connected);
    assert!(matches!(s.on_event(MqttEvent::Connected, 1), MqttAction::Broadcast));
    assert!(s.state.connected);
    assert_eq!(s.state.last_update, None);
    assert!(matches!(s.on_event(MqttEvent::ConnectionLost, 2), MqttAction::Reconnect));
    assert!(!s.state.connected);
    let report = obj(vec![(
        "print",
        obj(vec![("mc_percent", JsonValue::Number(JsonNumber::Unsigned(37)))]),
    )]);
    assert!(matches!(s.on_event(MqttEvent::Report(report), 3), MqttAction::Broadcast));
    assert!(s.state.connected);
    assert_eq!(s.state.percent, Some(37));
    assert_eq!(s.state.last_update, Some(3));
    assert!(matches!(s.on_event(MqttEvent::Unreadable, 4), MqttAction::Nothing));
    assert_eq!(s.state.last_update, Some(3));
    assert!(matches!(s.on_event(MqttEvent::ConnectionLost, 5), MqttAction::Reconnect));
    assert_eq!(s.state.last_update, None);
    assert_eq!(s.state.percent, Some(37));
    assert!(matches!(s.on_event(MqttEvent::CommandsClosed, 6), MqttAction::Stop));
}

#[test]
fn session_numbers_commands() {
    let mut s = MqttSession::new(b"77".to_vec(), b"SER".to_vec());
    for expected in ["1", "2", "3"] {
        match s.on_event(MqttEvent::Command(CommandRequest::Pause), 0) {
            MqttAction::Publish { topic, payload } => {
                assert_eq!(topic, b"device/SER/request".to_vec());
                assert_eq!(
                    payload.get(b"user_id").unwrap().as_text().unwrap(),
                    &b"77".to_vec()
                );
                let id = payload.get(b"print").unwrap().get(b"sequence_id").unwrap();
                assert_eq!(id.as_text().unwrap(), &expected.as_bytes().to_vec());
            }
            _ => panic!("expected a publish"),
        }
    }
    s.sequence_id = u64::MAX;
    s.on_event(MqttEvent::Command(CommandRequest::Home), 0);
    assert_eq!(s.sequence_id, 0);
}

fn rtp(pt: u8, marker: bool, seq: u16, ts: u32, payload: &[u8]) -> Vec<u8> {
    let mut v = vec![0x80, (if marker { 0x80 } else { 0 }) | pt];
    v.extend_from_slice(&seq.to_be_bytes());
    v.extend_from_slice(&ts.to_be_bytes());
    v.extend_from_slice(&[0, 0, 0, 1]);
    v.extend_from_slice(payload);
    v
}

fn kinds(actions: &[SegmenterAction]) -> Vec<&'static str> {
    actions
        .iter()
        .map(|a| match a {
            SegmenterAction::WriteInit { .. } => "init",
            SegmenterAction::CreateSegment { .. } => "create",
            SegmenterAction::AppendPart { .. } => "part",
            SegmenterAction::RemoveSegment { .. } => "remove",
            SegmenterAction::WritePlaylist { .. } => "playlist",
        })
        .collect()
}

#[test]
fn pipeline_turns_frames_into_actions() {
    let mut p = VideoPipeline::new(2, Some(96), CmafSegmenter::new(180_000, 6, 30_000));
    let sps = [0x67, 0x42, 0x00, 0x1F, 0xED, 0x01, 0x40, 0x7B, 0x20];
    let base: u32 = 0xFFFF_FF00;
    let mut stap = vec![0x18, 0, 9];
    stap.extend_from_slice(&sps);
    stap.extend_from_slice(&[0, 2, 0x68, 0xCE, 0, 2, 0x65, 0x01]);
    assert!(p.on_frame(0, &rtp(96, true, 1, base, &stap)).is_empty());
    assert!(p.on_frame(2, &rtp(97, true, 1, base, &stap)).is_empty());
    assert!(p.on_frame(2, &[0x80, 0x60]).is_empty());
    let actions = p.on_frame(2, &rtp(96, true, 1, base, &stap));
    assert_eq!(kinds(&actions), vec!["init", "create"]);
    match &actions[0] {
        SegmenterAction::WriteInit { codec, .. } => assert_eq!(codec, &b"avc1.42001F".to_vec()),
        _ => unreachable!(),
    }
    let mut seq = 2u16;
    let mut all = Vec::new();
    for i in 1..=11u32 {
        let ts = base.wrapping_add(i * 3000);
        all.extend(p.on_frame(2, &rtp(96, true, seq, ts, &[0x41, i as u8])));
        seq += 1;
    }
    assert_eq!(kinds(&all), vec!["part", "playlist"]);
    match &all[0] {
        SegmenterAction::AppendPart { filename, bytes } => {
            assert_eq!(filename, &b"seg000000.m4s".to_vec());
            let tfdt = bytes.windows(4).position(|w| w == b"tfdt").unwrap();
            assert_eq!(&bytes[tfdt + 8..tfdt + 16], &[0, 0, 0, 0, 0, 0, 0, 0]);
        }
        _ => unreachable!(),
    }
    let done = p.finish();
    assert_eq!(kinds(&done), vec!["part", "playlist"]);
    match &done[0] {
        SegmenterAction::AppendPart { bytes, .. } => {
            let tfdt = bytes.windows(4).position(|w| w == b"tfdt").unwrap();
            assert_eq!(&bytes[tfdt + 8..tfdt + 16], &30_000u64.to_be_bytes());
        }
        _ => unreachable!(),
    }
    assert!(p.finish().is_empty());
}

#[test]
fn pipeline_takes_parameter_sets_from_outside() {
    let mut p = VideoPipeline::new(0, None, CmafSegmenter::new(180_000, 6, 30_000));
    p.set_parameter_sets(vec![0x67, 0x64, 0x00, 0x28], vec![0x68]);
    let actions = p.on_frame(0, &rtp(33, true, 1, 5, &[0x65, 1]));
    assert_eq!(kinds(&actions), vec!["init", "create"]);
}

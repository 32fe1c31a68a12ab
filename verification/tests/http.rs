use printer_gateway::http::{
    command_refusal, content_range, content_type, db_error_status, decide_range, decide_reload,
    is_safe_segment_name, ll_request_ready, parse_ll_playlist, parse_range, parse_range_start,
    unsatisfied_range, CommandRefusal, ErrorResponse, RangeDecision, ReloadDecision,
};

#[test]
fn range_on_empty_file_is_not_satisfiable() {
    assert_eq!(parse_range(b"bytes=0-", 0), None);
    assert_eq!(decide_range(b"seg000001.mp4", Some(b"bytes=0-"), 0, true), RangeDecision::NotSatisfiable);
    assert_eq!(decide_range(b"init.mp4", Some(b"bytes=0-"), 0, false), RangeDecision::NotSatisfiable);
}

#[test]
fn suffix_range_of_zero_is_none() {
    assert_eq!(parse_range(b"bytes=-0", 100), None);
    assert_eq!(parse_range(b"bytes=-0", 0), None);
}

#[test]
fn ranges_are_read_and_clamped() {
    assert_eq!(parse_range(b"bytes=0-", 10), Some((0, 9)));
    assert_eq!(parse_range(b"bytes=3-5", 10), Some((3, 5)));
    assert_eq!(parse_range(b"bytes=3-500", 10), Some((3, 9)));
    assert_eq!(parse_range(b"bytes=9-9", 10), Some((9, 9)));
    assert_eq!(parse_range(b"bytes=10-", 10), None);
    assert_eq!(parse_range(b"bytes=5-3", 10), None);
    assert_eq!(parse_range(b"bytes=-4", 10), Some((6, 9)));
    assert_eq!(parse_range(b"bytes=-40", 10), Some((0, 9)));
    assert_eq!(parse_range(b"bytes=-4", 0), None);
    assert_eq!(parse_range(b"bytes=+2-+3", 10), Some((2, 3)));
    assert_eq!(parse_range(b"bytes=2", 10), None);
    assert_eq!(parse_range(b"bytes=a-3", 10), None);
    assert_eq!(parse_range(b"bytes=2-b", 10), None);
    assert_eq!(parse_range(b"bytes=-", 10), None);
    assert_eq!(parse_range(b"items=0-1", 10), None);
    assert_eq!(parse_range(b"bytes=0-1-2", 10), None);
    assert_eq!(parse_range(b"bytes=99999999999999999999-", 10), None);
}

#[test]
fn range_start_ignores_the_length() {
    assert_eq!(parse_range_start(b"bytes=500-"), Some(500));
    assert_eq!(parse_range_start(b"bytes=500-600"), Some(500));
    assert_eq!(parse_range_start(b"bytes=500"), Some(500));
    assert_eq!(parse_range_start(b"bytes=-500"), None);
    assert_eq!(parse_range_start(b"bytes=x-"), None);
    assert_eq!(parse_range_start(b"500-"), None);
}

#[test]
fn range_decisions() {
    assert_eq!(decide_range(b"seg1.m4s", None, 10, true), RangeDecision::Full);
    assert_eq!(decide_range(b"seg1.m4s", Some(b"bytes=2-3"), 10, true), RangeDecision::Partial(2, 3));
    assert_eq!(decide_range(b"seg1.m4s", Some(b"bytes=10-19"), 10, true), RangeDecision::Wait(10));
    assert_eq!(
        decide_range(b"seg1.m4s", Some(b"bytes=10-19"), 10, false),
        RangeDecision::NotSatisfiable
    );
    assert_eq!(
        decide_range(b"init.mp4", Some(b"bytes=10-19"), 10, true),
        RangeDecision::NotSatisfiable
    );
    assert_eq!(
        decide_range(b"seg1.m4s", Some(b"bytes=5-3"), 10, true),
        RangeDecision::NotSatisfiable
    );
    assert_eq!(decide_range(b"seg1.m4s", Some(b"bytes=-0"), 10, true), RangeDecision::NotSatisfiable);
}

#[test]
fn content_types_and_ranges() {
    assert_eq!(content_type(b"seg000001.m4s"), b"video/mp4".to_vec());
    assert_eq!(content_type(b"init.mp4"), b"video/mp4".to_vec());
    assert_eq!(content_type(b"stream.m3u8"), b"application/octet-stream".to_vec());
    assert_eq!(content_type(b"mp4"), b"application/octet-stream".to_vec());
    assert_eq!(content_range(0, 9, 10), b"bytes 0-9/10".to_vec());
    assert_eq!(unsatisfied_range(0), b"bytes */0".to_vec());
}

#[test]
fn segment_names_must_stay_in_the_directory() {
    assert!(is_safe_segment_name(b"seg000001.m4s"));
    assert!(is_safe_segment_name(b"a.b.c"));
    assert!(is_safe_segment_name(b""));
    assert!(!is_safe_segment_name(b"../etc/passwd"));
    assert!(!is_safe_segment_name(b"a/b"));
    assert!(!is_safe_segment_name(b"a..b"));
}

const PLAYLIST: &str = "#EXTM3U\n#EXT-X-VERSION:9\n#EXT-X-MEDIA-SEQUENCE:9\n#EXT-X-PART:DURATION=0.333,URI=\"seg000009.m4s\",BYTERANGE=\"10@0\"\n#EXT-X-PART:DURATION=0.333,URI=\"seg000009.m4s\",BYTERANGE=\"10@10\"\n#EXTINF:2.000,\nseg000009.m4s\n#EXT-X-PART:DURATION=0.333,URI=\"seg000010.m4s\",BYTERANGE=\"10@0\"\r\n  #EXT-X-PART:DURATION=0.333,URI=\"seg000010.m4s\",BYTERANGE=\"10@10\"\n\n#EXT-X-PART:DURATION=0.333,URI=\"seg000010.m4s\",BYTERANGE=\"10@20\"\n";

#[test]
fn playlist_index_counts_parts() {
    let index = parse_ll_playlist(PLAYLIST.as_bytes()).unwrap();
    assert_eq!(index.media_sequence, 9);
    assert_eq!(index.parts_by_seq.len(), 1);
    assert_eq!(index.parts_by_seq.get(&9), Some(&2));
    assert_eq!(index.in_progress_seq, 10);
    assert_eq!(index.in_progress_parts, 3);
    assert_eq!(index.last_complete_seq, Some(9));
    assert!(parse_ll_playlist(b"#EXTM3U\nseg1.m4s\n").is_none());
    assert!(parse_ll_playlist(b"#EXT-X-MEDIA-SEQUENCE:x\n").is_none());
}

#[test]
fn ll_blocking_reload() {
    let p = PLAYLIST.as_bytes();
    assert!(!ll_request_ready(p, 10, Some(3)));
    assert!(ll_request_ready(p, 10, Some(2)));
    assert!(ll_request_ready(p, 10, Some(0)));
    let longer = format!(
        "{}#EXT-X-PART:DURATION=0.333,URI=\"seg000010.m4s\",BYTERANGE=\"10@30\"\n",
        PLAYLIST
    );
    assert!(ll_request_ready(longer.as_bytes(), 10, Some(3)));
    assert!(ll_request_ready(p, 9, Some(1)));
    assert!(!ll_request_ready(p, 9, Some(2)));
    assert!(ll_request_ready(p, 8, Some(99)));
    assert!(ll_request_ready(p, 8, None));
    assert!(ll_request_ready(p, 9, None));
    assert!(!ll_request_ready(p, 10, None));
    assert!(!ll_request_ready(p, 11, Some(0)));
    assert!(ll_request_ready(b"not a playlist", 5, Some(1)));
    assert!(!ll_request_ready(b"#EXT-X-MEDIA-SEQUENCE:3\n", 3, None));
}

#[test]
fn registry_errors_map_to_statuses() {
    assert_eq!(db_error_status(b"insert printer: UNIQUE constraint failed: printers.serial"), 409);
    assert_eq!(db_error_status(b"printer name is required"), 400);
    assert_eq!(db_error_status(b"disk full"), 500);
    assert_eq!(db_error_status(b""), 500);
}

#[test]
fn commands_are_refused_when_disconnected() {
    assert_eq!(command_refusal(false, true), Some(CommandRefusal::NotConnected));
    assert_eq!(command_refusal(false, false), Some(CommandRefusal::NotConnected));
    assert_eq!(command_refusal(true, false), Some(CommandRefusal::QueueUnavailable));
    assert_eq!(command_refusal(true, true), None);
    assert_eq!(ErrorResponse::new(b"printer not found").error, b"printer not found".to_vec());
}

#[test]
fn reload_waits_only_for_what_is_named_and_missing() {
    let p = PLAYLIST.as_bytes();
    assert_eq!(decide_reload(p, None, None, true), ReloadDecision::Answer);
    assert_eq!(decide_reload(p, None, Some(3), true), ReloadDecision::Answer);
    assert_eq!(decide_reload(p, Some(10), Some(3), true), ReloadDecision::Wait);
    assert_eq!(decide_reload(p, Some(10), Some(3), false), ReloadDecision::Answer);
    assert_eq!(decide_reload(p, Some(10), Some(2), true), ReloadDecision::Answer);
    assert_eq!(decide_reload(p, Some(10), None, true), ReloadDecision::Wait);
    assert_eq!(decide_reload(p, Some(9), None, true), ReloadDecision::Answer);
    assert_eq!(decide_reload(b"", Some(9), None, true), ReloadDecision::Answer);
}

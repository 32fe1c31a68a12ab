use printer_gateway::cmaf::{
    build_part_line, build_segment_filename, compute_sample_durations, render_playlist,
    CmafSegmenter, PartInfo, Sample, SegmentInfo, SegmenterAction,
};
use printer_gateway::depacketizer::AccessUnit;
use printer_gateway::http::parse_ll_playlist;
use std::collections::VecDeque;

fn unit(idr: bool, fill: u8) -> AccessUnit {
    AccessUnit {
        nals: vec![vec![if idr { 0x65 } else { 0x41 }, fill, fill]],
        rtp_timestamp: 0,
        is_idr: idr,
    }
}

fn string(v: &[u8]) -> String {
    String::from_utf8(v.to_vec()).unwrap()
}

fn playlists(actions: &[SegmenterAction]) -> Vec<String> {
    actions
        .iter()
        .filter_map(|a| match a {
            SegmenterAction::WritePlaylist { text } => Some(string(text)),
            _ => None,
        })
        .collect()
}

fn kinds(actions: &[SegmenterAction]) -> Vec<&'static str> {
    actions
        .iter()
        .map(|a| match a {
            SegmenterAction::WriteInit { .. } => "init",
            SegmenterAction::CreateSegment { .. } => "create",
            SegmenterAction::AppendPart { .. } => "part",
            SegmenterAction::RemoveSegment { .. } => "remove",
            SegmenterAction::WritePlaylist { .. } => "playlist",
        })
        .collect()
}

const SPS: [u8; 9] = [0x67, 0x42, 0x00, 0x1F, 0xED, 0x01, 0x40, 0x7B, 0x20];
const PPS: [u8; 4] = [0x68, 0xCE, 0x06, 0xE2];

#[test]
fn segment_filenames_have_six_digits() {
    assert_eq!(string(&build_segment_filename(0)), "seg000000.m4s");
    assert_eq!(string(&build_segment_filename(42)), "seg000042.m4s");
    assert_eq!(string(&build_segment_filename(1_234_567)), "seg1234567.m4s");
}

#[test]
fn part_duration_is_clamped() {
    assert_eq!(CmafSegmenter::new(180_000, 6, 29_970).part_duration(), 29_970);
    assert_eq!(CmafSegmenter::new(180_000, 6, 0).part_duration(), 180_000);
    assert_eq!(CmafSegmenter::new(180_000, 6, 10).part_duration(), 9_000);
    assert_eq!(CmafSegmenter::new(180_000, 6, 500_000).part_duration(), 180_000);
    assert_eq!(CmafSegmenter::new(100, 6, 500_000).part_duration(), 9_000);
}

#[test]
fn units_before_first_idr_are_dropped() {
    let mut s = CmafSegmenter::new(180_000, 6, 29_970);
    assert!(s.push_access_unit(unit(false, 1), 0).is_empty());
    assert!(s.current().is_none());
    let actions = s.push_access_unit(unit(true, 2), 3000);
    assert_eq!(kinds(&actions), vec!["create"]);
    assert_eq!(s.current().unwrap().start_pts, 3000);
}

#[test]
fn init_is_written_once_per_parameter_sets() {
    let mut s = CmafSegmenter::new(180_000, 6, 29_970);
    assert!(s.ensure_init().is_empty());
    s.set_parameter_sets(SPS.to_vec(), PPS.to_vec());
    let actions = s.ensure_init();
    assert_eq!(kinds(&actions), vec!["init"]);
    match &actions[0] {
        SegmenterAction::WriteInit { bytes, codec } => {
            assert_eq!(string(codec), "avc1.42001F");
            assert_eq!(&bytes[4..8], b"ftyp");
            let at = bytes.windows(4).position(|w| w == b"tkhd").unwrap();
            assert_eq!(&bytes[at + 80..at + 88], &[0x02, 0x80, 0, 0, 0x01, 0xE0, 0, 0]);
        }
        _ => unreachable!(),
    }
    assert!(s.ensure_init().is_empty());
    s.set_parameter_sets(SPS.to_vec(), PPS.to_vec());
    assert!(s.push_access_unit(unit(false, 0), 0).is_empty());
    s.set_parameter_sets(vec![0x67], PPS.to_vec());
    let actions = s.ensure_init();
    match &actions[0] {
        SegmenterAction::WriteInit { bytes, codec } => {
            assert_eq!(string(codec), "avc1.000000");
            let at = bytes.windows(4).position(|w| w == b"tkhd").unwrap();
            assert_eq!(&bytes[at + 80..at + 88], &[0x05, 0x00, 0, 0, 0x02, 0xD0, 0, 0]);
        }
        _ => unreachable!(),
    }
}

#[test]
fn segment_boundary_at_idr_after_target() {
    let mut s = CmafSegmenter::new(180_000, 6, 29_970);
    let mut closed_at = None;
    let mut parts_in_first = 0;
    for frame in 0..=60u64 {
        let idr = frame % 30 == 0;
        let actions = s.push_access_unit(unit(idr, frame as u8), frame * 3000);
        if kinds(&actions).contains(&"create") && frame > 0 {
            closed_at = Some(frame);
        }
        if closed_at.is_none() {
            parts_in_first += kinds(&actions).iter().filter(|k| **k == "part").count();
        }
    }
    assert_eq!(closed_at, Some(60));
    assert_eq!(s.segments().len(), 1);
    let seg = &s.segments()[0];
    assert_eq!(seg.seq, 0);
    assert_eq!(seg.duration, 59 * 3000);
    assert_eq!(string(&seg.filename), "seg000000.m4s");
    assert_eq!(seg.parts.len(), 6);
    assert_eq!(parts_in_first, 5);
    assert!(seg.parts[0].independent);
    assert!(seg.parts[3].independent);
    assert!(!seg.parts[1].independent);
    assert_eq!(seg.parts[0].duration, 30_000);
    assert_eq!(s.current().unwrap().seq, 1);
    assert_eq!(s.current().unwrap().part_samples.len(), 1);
}

fn check_tiling(seg: &SegmentInfo) {
    assert_eq!(seg.parts[0].byte_start, 0);
    for k in 0..seg.parts.len() {
        assert_eq!(seg.parts[k].index as usize, k);
        let end = seg.parts[k].byte_start + seg.parts[k].byte_length;
        if k + 1 < seg.parts.len() {
            assert_eq!(end, seg.parts[k + 1].byte_start);
        } else {
            assert_eq!(end, seg.bytes);
        }
    }
}

#[test]
fn parts_tile_the_segment_file_and_window_slides() {
    let mut s = CmafSegmenter::new(90_000, 2, 30_000);
    s.set_parameter_sets(SPS.to_vec(), PPS.to_vec());
    let mut appended: std::collections::HashMap<String, u64> = std::collections::HashMap::new();
    let mut removed = Vec::new();
    let mut sequences = Vec::new();
    let mut fragment_numbers = Vec::new();
    for frame in 0..200u64 {
        for action in s.push_access_unit(unit(frame % 15 == 0, frame as u8), frame * 6000) {
            match action {
                SegmenterAction::AppendPart { filename, bytes } => {
                    *appended.entry(string(&filename)).or_insert(0) += bytes.len() as u64;
                    assert_eq!(&bytes[4..8], b"styp");
                    assert_eq!(&bytes[40..44], b"moof");
                    fragment_numbers.push(u32::from_be_bytes([
                        bytes[56], bytes[57], bytes[58], bytes[59],
                    ]));
                }
                SegmenterAction::RemoveSegment { filename } => removed.push(string(&filename)),
                SegmenterAction::WritePlaylist { text } => {
                    sequences.push(parse_ll_playlist(&text).unwrap().media_sequence);
                }
                _ => {}
            }
        }
        assert!(s.segments().len() <= 2);
    }
    for action in s.finalize_segment() {
        match action {
            SegmenterAction::AppendPart { filename, bytes } => {
                *appended.entry(string(&filename)).or_insert(0) += bytes.len() as u64;
            }
            SegmenterAction::RemoveSegment { filename } => removed.push(string(&filename)),
            SegmenterAction::WritePlaylist { text } => {
                sequences.push(parse_ll_playlist(&text).unwrap().media_sequence);
            }
            _ => {}
        }
    }
    assert!(s.current().is_none());
    assert!(s.finalize_segment().is_empty());
    assert_eq!(s.segments().len(), 2);
    for seg in s.segments().iter() {
        check_tiling(seg);
        assert_eq!(appended[&string(&seg.filename)], seg.bytes);
    }
    assert_eq!(s.segments()[1].seq, s.segments()[0].seq + 1);
    assert_eq!(removed.len() as u64, s.segments()[0].seq);
    for (i, name) in removed.iter().enumerate() {
        assert_eq!(name, &format!("seg{:06}.m4s", i));
    }
    assert_eq!(sequences[0], 0);
    for pair in sequences.windows(2) {
        assert!(pair[1] == pair[0] || pair[1] == pair[0] + 1);
    }
    assert_eq!(*sequences.last().unwrap(), s.segments()[0].seq);
    for (i, n) in fragment_numbers.iter().enumerate() {
        assert_eq!(*n as usize, i + 1);
    }
}

#[test]
fn sample_durations_follow_timestamps() {
    let sample = |pts| Sample { pts90k: pts, is_idr: false, nals: vec![] };
    let (d, total) = compute_sample_durations(&vec![sample(0), sample(3000), sample(4500)], None, 30_000);
    assert_eq!(d, vec![3000, 1500, 1500]);
    assert_eq!(total, 6000);
    let (d, total) = compute_sample_durations(&vec![sample(0), sample(3000)], Some(2000), 30_000);
    assert_eq!(d, vec![3000, 2000]);
    assert_eq!(total, 5000);
    let (d, total) = compute_sample_durations(&vec![sample(7)], None, 30_000);
    assert_eq!(d, vec![30_000]);
    assert_eq!(total, 30_000);
    let (d, total) = compute_sample_durations(&vec![sample(5), sample(5), sample(4)], None, 30_000);
    assert_eq!(d, vec![3000, 3000, 3000]);
    assert_eq!(total, 9000);
    let (d, total) = compute_sample_durations(&vec![sample(5), sample(5)], Some(0), 30_000);
    assert_eq!(d, vec![1, 1]);
    assert_eq!(total, 0);
    let (d, _) = compute_sample_durations(&vec![sample(0)], None, u64::MAX);
    assert_eq!(d, vec![u32::MAX]);
    let (d, total) = compute_sample_durations(&Vec::new(), None, 1);
    assert!(d.is_empty());
    assert_eq!(total, 0);
}

fn part(index: u32, duration: u64, start: u64, length: u64, independent: bool) -> PartInfo {
    PartInfo { index, duration, byte_start: start, byte_length: length, independent }
}

#[test]
fn part_lines_are_exact() {
    assert_eq!(
        string(&build_part_line(b"seg000003.m4s", part(0, 29_970, 0, 1234, true))),
        "#EXT-X-PART:DURATION=0.333,URI=\"seg000003.m4s\",BYTERANGE=\"1234@0\",INDEPENDENT=YES\n"
    );
    assert_eq!(
        string(&build_part_line(b"s", part(1, 90, 1234, 5, false))),
        "#EXT-X-PART:DURATION=0.001,URI=\"s\",BYTERANGE=\"5@1234\"\n"
    );
    assert_eq!(
        string(&build_part_line(b"s", part(1, 90_045, 0, 0, false))),
        "#EXT-X-PART:DURATION=1.001,URI=\"s\",BYTERANGE=\"0@0\"\n"
    );
}

#[test]
fn playlist_is_exact_and_repeatable() {
    let mut segments = VecDeque::new();
    segments.push_back(SegmentInfo {
        seq: 10,
        duration: 183_000,
        filename: b"seg000010.m4s".to_vec(),
        parts: vec![part(0, 90_000, 0, 100, true), part(1, 93_000, 100, 50, false)],
        bytes: 150,
    });
    let text = string(&render_playlist(180_000, 29_970, &segments, None));
    assert_eq!(
        text,
        "#EXTM3U\n#EXT-X-VERSION:9\n#EXT-X-INDEPENDENT-SEGMENTS\n#EXT-X-TARGETDURATION:3\n#EXT-X-PART-INF:PART-TARGET=1.033\n#EXT-X-SERVER-CONTROL:CAN-BLOCK-RELOAD=YES,PART-HOLD-BACK=3.100,HOLD-BACK=9.000\n#EXT-X-MAP:URI=\"init.mp4\"\n#EXT-X-MEDIA-SEQUENCE:10\n#EXT-X-PART:DURATION=1.000,URI=\"seg000010.m4s\",BYTERANGE=\"100@0\",INDEPENDENT=YES\n#EXT-X-PART:DURATION=1.033,URI=\"seg000010.m4s\",BYTERANGE=\"50@100\"\n#EXTINF:2.033,\nseg000010.m4s\n"
    );
    assert_eq!(text, string(&render_playlist(180_000, 29_970, &segments, None)));
    let empty = string(&render_playlist(180_000, 29_970, &VecDeque::new(), None));
    assert_eq!(
        empty,
        "#EXTM3U\n#EXT-X-VERSION:9\n#EXT-X-INDEPENDENT-SEGMENTS\n#EXT-X-TARGETDURATION:2\n#EXT-X-PART-INF:PART-TARGET=0.333\n#EXT-X-SERVER-CONTROL:CAN-BLOCK-RELOAD=YES,PART-HOLD-BACK=0.999,HOLD-BACK=6.000\n#EXT-X-MAP:URI=\"init.mp4\"\n#EXT-X-MEDIA-SEQUENCE:0\n"
    );
    let tiny = string(&render_playlist(9_000, 9_000, &VecDeque::new(), None));
    assert!(tiny.contains("#EXT-X-TARGETDURATION:1\n"));
    assert!(tiny.contains("PART-HOLD-BACK=0.300,HOLD-BACK=3.000\n"));
    let short = string(&render_playlist(9_000, 900, &VecDeque::new(), None));
    assert!(short.contains("PART-TARGET=0.010\n"));
    assert!(short.contains("PART-HOLD-BACK=0.110,HOLD-BACK=3.000\n"));
}

#[test]
fn playlist_lists_parts_of_segment_in_progress() {
    let mut s = CmafSegmenter::new(180_000, 6, 30_000);
    let mut last = None;
    for frame in 0..25u64 {
        for p in playlists(&s.push_access_unit(unit(frame == 0, 1), frame * 3000)) {
            last = Some(p);
        }
    }
    let text = last.unwrap();
    assert!(text.contains("#EXT-X-MEDIA-SEQUENCE:0\n"));
    assert_eq!(text.matches("#EXT-X-PART:").count(), 2);
    assert!(!text.contains("#EXTINF"));
    assert!(text.ends_with("\"\n"));
    let index = parse_ll_playlist(text.as_bytes()).unwrap();
    assert_eq!(index.in_progress_seq, 0);
    assert_eq!(index.in_progress_parts, 2);
    assert_eq!(index.last_complete_seq, None);
}

#[test]
fn finalize_without_time_gives_minimum_duration() {
    let mut s = CmafSegmenter::new(180_000, 6, 30_000);
    s.push_access_unit(unit(true, 1), 500);
    let actions = s.finalize_segment();
    assert_eq!(kinds(&actions), vec!["part", "playlist"]);
    assert_eq!(s.segments()[0].duration, 9_000);
    assert_eq!(s.segments()[0].parts[0].duration, 30_000);
    assert_eq!(s.segments()[0].parts[0].byte_start, 0);
}

#[test]
fn window_of_zero_keeps_nothing() {
    let mut s = CmafSegmenter::new(3_000, 0, 30_000);
    s.push_access_unit(unit(true, 1), 0);
    let actions = s.push_access_unit(unit(true, 1), 3_000);
    assert_eq!(kinds(&actions), vec!["part", "remove", "playlist", "create"]);
    assert!(s.segments().is_empty());
}

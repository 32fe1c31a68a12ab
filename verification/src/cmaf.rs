//! Cutting a stream of access units into CMAF segments and parts, and
//! writing the Low-Latency HLS playlist that lists them.
//!
//! The segmenter decides; it touches no file. Every call returns the
//! actions that follow from it, in order: files to create, bytes to append,
//! files to remove, the playlist to replace. Times are counted in ticks of
//! the 90 kHz media clock.

use std::collections::VecDeque;
use vstd::prelude::*;
use vstd::slice::slice_to_vec;
use crate::depacketizer::AccessUnit;
use crate::mp4::{
    avc_sample, build_avc_sample, build_init_mp4, build_mdat, build_moof, build_styp,
    codec_string, codec_string_from_sps, init_mp4, len32, low32, mdat, moof, styp,
    SAMPLE_FLAG_NON_SYNC, SAMPLE_FLAG_SYNC,
};
use crate::numeral::{decimal, decimal_padded, push_decimal, push_decimal_padded};
use crate::octets::append;
use crate::sps::{parse_sps_dimensions, sps_dimensions};
use crate::text::{bytes_eq, lit, views};

verus! {

/// Ticks of the media clock in one second.
pub const TICKS_PER_SECOND: u64 = 90_000;

/// The shortest part target: a tenth of a second.
pub const MIN_PART_TICKS: u64 = 9_000;

/// The duration of a segment that holds a single instant: a tenth of a second.
pub const MIN_SEGMENT_TICKS: u64 = 9_000;

/// The shortest duration that a part is listed with: a millisecond.
pub const MIN_LISTED_PART_TICKS: u64 = 90;

/// The sample duration assumed where nothing better is known.
pub const FALLBACK_SAMPLE_TICKS: u32 = 3_000;

/// The picture width assumed where the parameter set cannot be read.
pub const FALLBACK_WIDTH: u32 = 1280;

/// The picture height assumed where the parameter set cannot be read.
pub const FALLBACK_HEIGHT: u32 = 720;

/// One part of a segment: a byte range of the segment file.
#[derive(Debug, Clone, Copy)]
pub struct PartInfo {
    pub index: u32,
    /// Duration in ticks.
    pub duration: u64,
    pub byte_start: u64,
    pub byte_length: u64,
    /// Whether the part begins with an IDR picture.
    pub independent: bool,
}

/// A segment that is complete.
#[derive(Debug, Clone)]
pub struct SegmentInfo {
    pub seq: u64,
    /// Duration in ticks.
    pub duration: u64,
    pub filename: Vec<u8>,
    pub parts: Vec<PartInfo>,
    /// Length of the segment file.
    pub bytes: u64,
}

/// What a segment holds.
pub struct SegmentModel {
    pub seq: u64,
    pub duration: u64,
    pub filename: Seq<u8>,
    pub parts: Seq<PartInfo>,
    pub bytes: u64,
}

impl View for SegmentInfo {
    type V = SegmentModel;

    open spec fn view(&self) -> SegmentModel {
        SegmentModel {
            seq: self.seq,
            duration: self.duration,
            filename: self.filename@,
            parts: self.parts@,
            bytes: self.bytes,
        }
    }
}

/// The models of a list of segments.
pub open spec fn segment_views(segments: Seq<SegmentInfo>) -> Seq<SegmentModel> {
    Seq::new(segments.len(), |i: int| segments[i]@)
}

/// `ticks` in milliseconds, rounded to the nearest.
pub open spec fn millis(ticks: int) -> int {
    (ticks + 45) / 90
}

/// `ticks` in seconds with three decimals.
pub open spec fn seconds_text(ticks: int) -> Seq<u8> {
    decimal((millis(ticks) / 1000) as nat) + seq![46u8] + decimal_padded(
        (millis(ticks) % 1000) as nat,
        3,
    )
}

/// Appends `ticks` in seconds with three decimals.
pub fn push_seconds(out: &mut Vec<u8>, ticks: u128)
    requires
        ticks <= 0xFFFF_FFFF_FFFF_FFFF * 16,
    ensures
        final(out)@ == old(out)@ + seconds_text(ticks as int),
{
    let ms: u64 = ((ticks + 45) / 90) as u64;
    push_decimal(out, ms / 1000);
    out.push(46);
    push_decimal_padded(out, ms % 1000, 3);
    assert(out@ =~= old(out)@ + seconds_text(ticks as int));
}

/// The file name of the segment numbered `seq`: `seg`, six digits or more,
/// `.m4s`.
pub open spec fn segment_filename(seq: u64) -> Seq<u8> {
    lit("seg") + decimal_padded(seq as nat, 6) + lit(".m4s")
}

/// Builds the file name of a segment.
pub fn build_segment_filename(seq: u64) -> (r: Vec<u8>)
    ensures
        r@ == segment_filename(seq),
{
    let mut out: Vec<u8> = Vec::new();
    append(&mut out, "seg".as_bytes());
    push_decimal_padded(&mut out, seq, 6);
    append(&mut out, ".m4s".as_bytes());
    assert(out@ =~= segment_filename(seq));
    out
}

/// The playlist line of one part.
pub open spec fn part_line(filename: Seq<u8>, part: PartInfo) -> Seq<u8> {
    lit("#EXT-X-PART:DURATION=") + seconds_text(part.duration as int) + lit(",URI=\"") + filename
        + lit("\",BYTERANGE=\"") + decimal(part.byte_length as nat) + lit("@") + decimal(
        part.byte_start as nat,
    ) + lit("\"") + (if part.independent {
        lit(",INDEPENDENT=YES")
    } else {
        Seq::empty()
    }) + lit("\n")
}

/// The playlist lines of the first `n` parts of a segment.
pub open spec fn part_lines(filename: Seq<u8>, parts: Seq<PartInfo>, n: int) -> Seq<u8>
    decreases n,
{
    if n <= 0 {
        Seq::empty()
    } else {
        part_lines(filename, parts, n - 1) + part_line(filename, parts[n - 1])
    }
}

/// The playlist lines of a complete segment: its parts, its duration, its
/// file name.
pub open spec fn segment_lines(seg: SegmentModel) -> Seq<u8> {
    part_lines(seg.filename, seg.parts, seg.parts.len() as int) + lit("#EXTINF:") + seconds_text(
        seg.duration as int,
    ) + lit(",\n") + seg.filename + lit("\n")
}

/// The playlist lines of the first `n` segments.
pub open spec fn segments_lines(segments: Seq<SegmentModel>, n: int) -> Seq<u8>
    decreases n,
{
    if n <= 0 {
        Seq::empty()
    } else {
        segments_lines(segments, n - 1) + segment_lines(segments[n - 1])
    }
}

/// The longest duration among `start` and the first `n` parts.
pub open spec fn longest_part(parts: Seq<PartInfo>, n: int, start: u64) -> u64
    decreases n,
{
    if n <= 0 {
        start
    } else {
        let before = longest_part(parts, n - 1, start);
        if parts[n - 1].duration > before {
            parts[n - 1].duration
        } else {
            before
        }
    }
}

/// The longest duration among `start` and the parts of the first `n` segments.
pub open spec fn longest_part_in(segments: Seq<SegmentModel>, n: int, start: u64) -> u64
    decreases n,
{
    if n <= 0 {
        start
    } else {
        longest_part(
            segments[n - 1].parts,
            segments[n - 1].parts.len() as int,
            longest_part_in(segments, n - 1, start),
        )
    }
}

/// The longest duration among `start` and the first `n` segments.
pub open spec fn longest_segment(segments: Seq<SegmentModel>, n: int, start: u64) -> u64
    decreases n,
{
    if n <= 0 {
        start
    } else {
        let before = longest_segment(segments, n - 1, start);
        if segments[n - 1].duration > before {
            segments[n - 1].duration
        } else {
            before
        }
    }
}

/// The segment in progress, as the playlist shows it.
pub struct OpenSegment {
    pub seq: u64,
    pub filename: Seq<u8>,
    pub parts: Seq<PartInfo>,
}

/// The sequence number of the first segment that a playlist lists: the
/// oldest complete segment, else the segment in progress, else zero.
pub open spec fn media_sequence(segments: Seq<SegmentModel>, current: Option<OpenSegment>) -> u64 {
    if segments.len() > 0 {
        segments[0].seq
    } else {
        match current {
            Some(c) => c.seq,
            None => 0,
        }
    }
}

/// Whole seconds that hold `ticks`.
pub open spec fn whole_seconds(ticks: int) -> int {
    (ticks + 89_999) / 90_000
}

/// The larger of two numbers.
pub open spec fn larger(a: int, b: int) -> int {
    if a > b {
        a
    } else {
        b
    }
}

/// The playlist.
///
/// The target duration is the longest segment, and at least the configured
/// target, in whole seconds. The part target is the longest part, and at
/// least the configured part target. A player holds back three part
/// targets, and at least a tenth of a second more than one; from the end of
/// the playlist three target durations, and at least twice the part
/// hold-back. Every complete segment is listed with its parts, the segment
/// in progress with the parts it has so far.
#[verifier::opaque]
pub open spec fn playlist_text(
    target_duration: u64,
    part_duration: u64,
    segments: Seq<SegmentModel>,
    current: Option<OpenSegment>,
) -> Seq<u8> {
    let target = whole_seconds(
        longest_segment(segments, segments.len() as int, target_duration) as int,
    );
    let in_segments = longest_part_in(segments, segments.len() as int, part_duration);
    let part_target = match current {
        Some(c) => longest_part(c.parts, c.parts.len() as int, in_segments),
        None => in_segments,
    };
    let part_hold_back = larger(part_target * 3, part_target + 9_000);
    let hold_back = larger(target * 3 * 90_000, part_hold_back * 2);
    lit("#EXTM3U\n#EXT-X-VERSION:9\n#EXT-X-INDEPENDENT-SEGMENTS\n#EXT-X-TARGETDURATION:") + decimal(
        target as nat,
    ) + lit("\n#EXT-X-PART-INF:PART-TARGET=") + seconds_text(part_target as int) + lit(
        "\n#EXT-X-SERVER-CONTROL:CAN-BLOCK-RELOAD=YES,PART-HOLD-BACK=",
    ) + seconds_text(part_hold_back) + lit(",HOLD-BACK=") + seconds_text(hold_back) + lit(
        "\n#EXT-X-MAP:URI=\"init.mp4\"\n#EXT-X-MEDIA-SEQUENCE:",
    ) + decimal(media_sequence(segments, current) as nat) + lit("\n") + segments_lines(
        segments,
        segments.len() as int,
    ) + (match current {
        Some(c) => part_lines(c.filename, c.parts, c.parts.len() as int),
        None => Seq::empty(),
    })
}

/// Builds the playlist line of one part.
#[verifier::rlimit(40)]
pub fn build_part_line(filename: &[u8], part: PartInfo) -> (r: Vec<u8>)
    ensures
        r@ == part_line(filename@, part),
{
    let mut line: Vec<u8> = Vec::new();
    append(&mut line, "#EXT-X-PART:DURATION=".as_bytes());
    push_seconds(&mut line, part.duration as u128);
    append(&mut line, ",URI=\"".as_bytes());
    append(&mut line, filename);
    let ghost first = line@;
    assert(first =~= lit("#EXT-X-PART:DURATION=") + seconds_text(part.duration as int) + lit(
        ",URI=\"",
    ) + filename@);
    append(&mut line, "\",BYTERANGE=\"".as_bytes());
    push_decimal(&mut line, part.byte_length);
    append(&mut line, "@".as_bytes());
    push_decimal(&mut line, part.byte_start);
    append(&mut line, "\"".as_bytes());
    let ghost second = line@;
    assert(second =~= first + lit("\",BYTERANGE=\"") + decimal(part.byte_length as nat) + lit("@")
        + decimal(part.byte_start as nat) + lit("\""));
    if part.independent {
        append(&mut line, ",INDEPENDENT=YES".as_bytes());
    }
    let ghost third = line@;
    assert(third =~= second + (if part.independent {
        lit(",INDEPENDENT=YES")
    } else {
        Seq::empty()
    }));
    append(&mut line, "\n".as_bytes());
    assert(line@ =~= part_line(filename@, part));
    line
}

/// Appends the playlist lines of the parts of a segment.
pub fn append_parts(out: &mut Vec<u8>, filename: &[u8], parts: &Vec<PartInfo>)
    ensures
        final(out)@ == old(out)@ + part_lines(filename@, parts@, parts@.len() as int),
{
    let mut i: usize = 0;
    assert(out@ =~= old(out)@ + part_lines(filename@, parts@, 0));
    while i < parts.len()
        invariant
            i <= parts@.len(),
            out@ == old(out)@ + part_lines(filename@, parts@, i as int),
        decreases parts@.len() - i,
    {
        let line = build_part_line(filename, parts[i]);
        append(out, line.as_slice());
        i += 1;
        assert(out@ =~= old(out)@ + part_lines(filename@, parts@, i as int));
    }
}

/// The longest duration among `start` and `parts`.
fn longest_of_parts(parts: &Vec<PartInfo>, start: u64) -> (r: u64)
    ensures
        r == longest_part(parts@, parts@.len() as int, start),
{
    let mut longest: u64 = start;
    let mut i: usize = 0;
    while i < parts.len()
        invariant
            i <= parts@.len(),
            longest == longest_part(parts@, i as int, start),
        decreases parts@.len() - i,
    {
        if parts[i].duration > longest {
            longest = parts[i].duration;
        }
        i += 1;
    }
    longest
}

/// One access unit waiting to be written.
#[derive(Debug, Clone)]
pub struct Sample {
    pub pts90k: u64,
    pub is_idr: bool,
    pub nals: Vec<Vec<u8>>,
}

/// What a sample holds.
pub struct SampleModel {
    pub pts90k: u64,
    pub is_idr: bool,
    pub nals: Seq<Seq<u8>>,
}

impl View for Sample {
    type V = SampleModel;

    open spec fn view(&self) -> SampleModel {
        SampleModel { pts90k: self.pts90k, is_idr: self.is_idr, nals: views(self.nals@) }
    }
}

/// The models of a list of samples.
pub open spec fn sample_views(samples: Seq<Sample>) -> Seq<SampleModel> {
    Seq::new(samples.len(), |i: int| samples[i]@)
}

/// The segment in progress.
#[derive(Debug)]
pub struct SegmentBuffer {
    pub seq: u64,
    pub start_pts: u64,
    pub last_pts: u64,
    pub frames: u64,
    pub filename: Vec<u8>,
    pub bytes_written: u64,
    pub parts: Vec<PartInfo>,
    pub part_index: u32,
    pub part_start_pts: u64,
    pub part_start_byte: u64,
    pub part_samples: Vec<Sample>,
    pub part_independent: bool,
}

/// What a segment in progress holds.
pub struct BufferModel {
    pub seq: u64,
    /// Time of the first access unit.
    pub start_pts: u64,
    /// Time of the latest access unit.
    pub last_pts: u64,
    pub frames: u64,
    pub filename: Seq<u8>,
    /// Bytes handed out for the segment file so far.
    pub bytes_written: u64,
    /// The parts handed out so far.
    pub parts: Seq<PartInfo>,
    /// Index of the part in progress.
    pub part_index: u32,
    pub part_start_pts: u64,
    pub part_start_byte: u64,
    /// The access units of the part in progress.
    pub part_samples: Seq<SampleModel>,
    pub part_independent: bool,
}

impl View for SegmentBuffer {
    type V = BufferModel;

    open spec fn view(&self) -> BufferModel {
        BufferModel {
            seq: self.seq,
            start_pts: self.start_pts,
            last_pts: self.last_pts,
            frames: self.frames,
            filename: self.filename@,
            bytes_written: self.bytes_written,
            parts: self.parts@,
            part_index: self.part_index,
            part_start_pts: self.part_start_pts,
            part_start_byte: self.part_start_byte,
            part_samples: sample_views(self.part_samples@),
            part_independent: self.part_independent,
        }
    }
}

/// The segment in progress as the playlist shows it.
pub open spec fn open_segment(b: BufferModel) -> OpenSegment {
    OpenSegment { seq: b.seq, filename: b.filename, parts: b.parts }
}

/// The longest duration among `start` and the parts of `segments`.
fn longest_in_segments(segments: &VecDeque<SegmentInfo>, start: u64) -> (r: u64)
    ensures
        r == longest_part_in(segment_views(segments@), segments@.len() as int, start),
{
    let mut longest: u64 = start;
    let ghost all = segment_views(segments@);
    let mut i: usize = 0;
    while i < segments.len()
        invariant
            i <= segments@.len(),
            all == segment_views(segments@),
            longest == longest_part_in(all, i as int, start),
        decreases segments@.len() - i,
    {
        assert(all[i as int] == segments@[i as int]@);
        longest = longest_of_parts(&segments[i].parts, longest);
        i += 1;
    }
    longest
}

/// The longest duration among `start` and `segments`.
fn longest_of_segments(segments: &VecDeque<SegmentInfo>, start: u64) -> (r: u64)
    ensures
        r == longest_segment(segment_views(segments@), segments@.len() as int, start),
{
    let mut longest: u64 = start;
    let ghost all = segment_views(segments@);
    let mut i: usize = 0;
    while i < segments.len()
        invariant
            i <= segments@.len(),
            all == segment_views(segments@),
            longest == longest_segment(all, i as int, start),
        decreases segments@.len() - i,
    {
        assert(all[i as int] == segments@[i as int]@);
        if segments[i].duration > longest {
            longest = segments[i].duration;
        }
        i += 1;
    }
    longest
}

/// Appends the playlist lines of the complete segments.
fn append_segments(out: &mut Vec<u8>, segments: &VecDeque<SegmentInfo>)
    ensures
        final(out)@ == old(out)@ + segments_lines(
            segment_views(segments@),
            segments@.len() as int,
        ),
{
    let ghost all = segment_views(segments@);
    let mut i: usize = 0;
    assert(out@ =~= old(out)@ + segments_lines(all, 0));
    while i < segments.len()
        invariant
            i <= segments@.len(),
            all == segment_views(segments@),
            out@ == old(out)@ + segments_lines(all, i as int),
        decreases segments@.len() - i,
    {
        assert(all[i as int] == segments@[i as int]@);
        let ghost before = out@;
        let seg = &segments[i];
        append_parts(out, seg.filename.as_slice(), &seg.parts);
        append(out, "#EXTINF:".as_bytes());
        push_seconds(out, seg.duration as u128);
        append(out, ",\n".as_bytes());
        append(out, seg.filename.as_slice());
        append(out, "\n".as_bytes());
        assert(out@ =~= before + segment_lines(seg@));
        i += 1;
        assert(out@ =~= old(out)@ + segments_lines(all, i as int));
    }
}

/// Writes the playlist for the complete segments and the segment in progress.
#[verifier::rlimit(40)]
pub fn render_playlist(
    target_duration: u64,
    part_duration: u64,
    segments: &VecDeque<SegmentInfo>,
    current: Option<&SegmentBuffer>,
) -> (r: Vec<u8>)
    ensures
        r@ == playlist_text(
            target_duration,
            part_duration,
            segment_views(segments@),
            match current {
                Some(c) => Some(open_segment(c@)),
                None => None,
            },
        ),
{
    let ghost all = segment_views(segments@);
    reveal(playlist_text);
    let longest = longest_of_segments(segments, target_duration);
    let target: u64 = longest / TICKS_PER_SECOND + if longest % TICKS_PER_SECOND > 0 { 1 } else { 0 };
    assert(target == whole_seconds(longest as int));
    let in_segments = longest_in_segments(segments, part_duration);
    let part_target: u64 = match current {
        Some(c) => longest_of_parts(&c.parts, in_segments),
        None => in_segments,
    };
    let tripled: u128 = (part_target as u128) * 3;
    let padded: u128 = (part_target as u128) + 9_000;
    let part_hold_back: u128 = if tripled > padded { tripled } else { padded };
    let by_target: u128 = (target as u128) * 3 * 90_000;
    let doubled: u128 = part_hold_back * 2;
    let hold_back: u128 = if by_target > doubled { by_target } else { doubled };
    let media_sequence: u64 = if segments.len() > 0 {
        assert(all[0] == segments@[0]@);
        segments[0].seq
    } else {
        match current {
            Some(c) => c.seq,
            None => 0,
        }
    };
    let mut out: Vec<u8> = Vec::new();
    append(
        &mut out,
        "#EXTM3U\n#EXT-X-VERSION:9\n#EXT-X-INDEPENDENT-SEGMENTS\n#EXT-X-TARGETDURATION:".as_bytes(),
    );
    push_decimal(&mut out, target);
    append(&mut out, "\n#EXT-X-PART-INF:PART-TARGET=".as_bytes());
    push_seconds(&mut out, part_target as u128);
    let ghost first = out@;
    assert(first =~= lit(
        "#EXTM3U\n#EXT-X-VERSION:9\n#EXT-X-INDEPENDENT-SEGMENTS\n#EXT-X-TARGETDURATION:",
    ) + decimal(target as nat) + lit("\n#EXT-X-PART-INF:PART-TARGET=") + seconds_text(
        part_target as int,
    ));
    append(&mut out, "\n#EXT-X-SERVER-CONTROL:CAN-BLOCK-RELOAD=YES,PART-HOLD-BACK=".as_bytes());
    push_seconds(&mut out, part_hold_back);
    append(&mut out, ",HOLD-BACK=".as_bytes());
    push_seconds(&mut out, hold_back);
    let ghost second = out@;
    assert(second =~= first + lit("\n#EXT-X-SERVER-CONTROL:CAN-BLOCK-RELOAD=YES,PART-HOLD-BACK=")
        + seconds_text(part_hold_back as int) + lit(",HOLD-BACK=") + seconds_text(hold_back as int));
    append(&mut out, "\n#EXT-X-MAP:URI=\"init.mp4\"\n#EXT-X-MEDIA-SEQUENCE:".as_bytes());
    push_decimal(&mut out, media_sequence);
    append(&mut out, "\n".as_bytes());
    let ghost third = out@;
    assert(third =~= second + lit("\n#EXT-X-MAP:URI=\"init.mp4\"\n#EXT-X-MEDIA-SEQUENCE:")
        + decimal(media_sequence as nat) + lit("\n"));
    append_segments(&mut out, segments);
    let ghost fourth = out@;
    match current {
        Some(c) => {
            append_parts(&mut out, c.filename.as_slice(), &c.parts);
        },
        None => {
            assert(out@ =~= fourth + Seq::<u8>::empty());
        },
    }
    out
}

/// The sum of two durations; it stops at the largest 64-bit number.
pub open spec fn capped_sum(a: int, b: int) -> u64 {
    if a + b > 0xFFFF_FFFF_FFFF_FFFF {
        0xFFFF_FFFF_FFFF_FFFF
    } else {
        (a + b) as u64
    }
}

/// The difference of two times, zero where the second is the later.
pub open spec fn elapsed(now: u64, since: u64) -> u64 {
    if now > since {
        (now - since) as u64
    } else {
        0
    }
}

/// The duration of sample `i` of a part before it is raised to at least one
/// tick.
///
/// For all but the last sample it is the distance to the next sample, or
/// where time does not advance the last duration of the previous part, or
/// 3000 ticks. For the last sample it is the last duration of the previous
/// part, or else the duration of the sample before it, or for a part of one
/// sample the part target.
pub open spec fn raw_duration(
    samples: Seq<SampleModel>,
    i: int,
    last: Option<u32>,
    part_duration: u64,
    previous: u32,
) -> u32 {
    if i + 1 < samples.len() {
        if samples[i + 1].pts90k > samples[i].pts90k {
            low32(samples[i + 1].pts90k - samples[i].pts90k)
        } else {
            match last {
                Some(d) => d,
                None => FALLBACK_SAMPLE_TICKS,
            }
        }
    } else {
        match last {
            Some(d) => d,
            None => if samples.len() > 1 {
                previous
            } else if part_duration > 0xFFFF_FFFF {
                0xFFFF_FFFFu32
            } else {
                part_duration as u32
            },
        }
    }
}

/// The durations of the first `n` samples of a part, each at least one
/// tick, and the sum of their durations before raising.
pub open spec fn durations_upto(
    samples: Seq<SampleModel>,
    n: int,
    last: Option<u32>,
    part_duration: u64,
) -> (Seq<u32>, u64)
    decreases n,
{
    if n <= 0 {
        (Seq::empty(), 0)
    } else {
        let (before, total) = durations_upto(samples, n - 1, last, part_duration);
        let raw = raw_duration(
            samples,
            n - 1,
            last,
            part_duration,
            if before.len() > 0 {
                before.last()
            } else {
                FALLBACK_SAMPLE_TICKS
            },
        );
        (
            before.push(
                if raw < 1 {
                    1u32
                } else {
                    raw
                },
            ),
            capped_sum(total as int, raw as int),
        )
    }
}

/// The sample flags of each sample: sync for an IDR picture.
pub open spec fn flags_of(samples: Seq<SampleModel>) -> Seq<u32> {
    Seq::new(
        samples.len(),
        |i: int|
            if samples[i].is_idr {
                SAMPLE_FLAG_SYNC
            } else {
                SAMPLE_FLAG_NON_SYNC
            },
    )
}

/// The data of each sample.
pub open spec fn datas_of(samples: Seq<SampleModel>) -> Seq<Seq<u8>> {
    Seq::new(samples.len(), |i: int| avc_sample(samples[i].nals))
}

/// The size of each sample, in its low 32 bits.
pub open spec fn sizes_of(samples: Seq<SampleModel>) -> Seq<u32> {
    Seq::new(samples.len(), |i: int| low32(avc_sample(samples[i].nals).len() as int))
}

/// The bytes of one part: `styp`, `moof`, `mdat`.
#[verifier::opaque]
pub open spec fn part_bytes(
    sequence: u32,
    start_pts: u64,
    samples: Seq<SampleModel>,
    durations: Seq<u32>,
) -> Seq<u8> {
    styp() + moof(sequence, start_pts, durations, sizes_of(samples), flags_of(samples)) + mdat(
        datas_of(samples),
    )
}

/// Computes the duration of every sample of a part and their sum.
pub fn compute_sample_durations(
    samples: &Vec<Sample>,
    last: Option<u32>,
    part_duration: u64,
) -> (r: (Vec<u32>, u64))
    ensures
        (r.0@, r.1) == durations_upto(
            sample_views(samples@),
            samples@.len() as int,
            last,
            part_duration,
        ),
        r.0@.len() == samples@.len(),
{
    let mut durations: Vec<u32> = Vec::new();
    let mut total: u64 = 0;
    let ghost all = sample_views(samples@);
    let mut i: usize = 0;
    while i < samples.len()
        invariant
            i <= samples@.len(),
            all == sample_views(samples@),
            (durations@, total) == durations_upto(all, i as int, last, part_duration),
            durations@.len() == i,
        decreases samples@.len() - i,
    {
        assert(all[i as int] == samples@[i as int]@);
        let previous: u32 = if durations.len() > 0 {
            durations[durations.len() - 1]
        } else {
            FALLBACK_SAMPLE_TICKS
        };
        let raw: u32 = if i + 1 < samples.len() {
            assert(all[i + 1] == samples@[i + 1]@);
            let here = samples[i].pts90k;
            let next = samples[i + 1].pts90k;
            if next > here {
                ((next - here) % 0x1_0000_0000) as u32
            } else {
                match last {
                    Some(d) => d,
                    None => FALLBACK_SAMPLE_TICKS,
                }
            }
        } else {
            match last {
                Some(d) => d,
                None => if samples.len() > 1 {
                    previous
                } else if part_duration > 0xFFFF_FFFF {
                    0xFFFF_FFFF
                } else {
                    part_duration as u32
                },
            }
        };
        durations.push(if raw < 1 { 1 } else { raw });
        total = if (raw as u64) > 0xFFFF_FFFF_FFFF_FFFF - total {
            0xFFFF_FFFF_FFFF_FFFF
        } else {
            total + raw as u64
        };
        i += 1;
    }
    (durations, total)
}

/// Builds the bytes of one part.
pub fn build_part(sequence: u32, start_pts: u64, samples: &Vec<Sample>, durations: &Vec<u32>) -> (r:
    Vec<u8>)
    requires
        durations@.len() == samples@.len(),
    ensures
        r@ == part_bytes(sequence, start_pts, sample_views(samples@), durations@),
{
    let ghost all = sample_views(samples@);
    reveal(part_bytes);
    let mut datas: Vec<Vec<u8>> = Vec::new();
    let mut sizes: Vec<u32> = Vec::new();
    let mut flags: Vec<u32> = Vec::new();
    let mut i: usize = 0;
    while i < samples.len()
        invariant
            i <= samples@.len(),
            all == sample_views(samples@),
            views(datas@) =~= datas_of(all).take(i as int),
            sizes@ =~= sizes_of(all).take(i as int),
            flags@ =~= flags_of(all).take(i as int),
        decreases samples@.len() - i,
    {
        assert(all[i as int] == samples@[i as int]@);
        let data = build_avc_sample(&samples[i].nals);
        sizes.push(len32(data.len()));
        proof {
            crate::text::lemma_views_push(datas@, data);
            assert(datas_of(all).take(i + 1) =~= datas_of(all).take(i as int).push(
                datas_of(all)[i as int],
            ));
        }
        datas.push(data);
        flags.push(if samples[i].is_idr { SAMPLE_FLAG_SYNC } else { SAMPLE_FLAG_NON_SYNC });
        i += 1;
    }
    assert(datas_of(all).take(i as int) =~= datas_of(all));
    assert(sizes_of(all).take(i as int) =~= sizes_of(all));
    assert(flags_of(all).take(i as int) =~= flags_of(all));
    let moof = build_moof(
        sequence,
        start_pts,
        durations.as_slice(),
        sizes.as_slice(),
        flags.as_slice(),
    );
    let mut out = build_styp();
    let mdat = build_mdat(&datas);
    append(&mut out, moof.as_slice());
    append(&mut out, mdat.as_slice());
    out
}

/// Something for the caller to do, in the order given.
#[derive(Debug)]
pub enum SegmenterAction {
    /// Replace `init.mp4` with these bytes and announce them with the codec
    /// string to live subscribers.
    WriteInit { bytes: Vec<u8>, codec: Vec<u8> },
    /// Create the segment file, empty.
    CreateSegment { filename: Vec<u8> },
    /// Append the bytes of one part to the segment file and hand them to
    /// live subscribers.
    AppendPart { filename: Vec<u8>, bytes: Vec<u8> },
    /// Remove the file of a segment that has left the window.
    RemoveSegment { filename: Vec<u8> },
    /// Replace the playlist.
    WritePlaylist { text: Vec<u8> },
}

/// What an action holds.
pub enum ActionModel {
    WriteInit { bytes: Seq<u8>, codec: Seq<u8> },
    CreateSegment { filename: Seq<u8> },
    AppendPart { filename: Seq<u8>, bytes: Seq<u8> },
    RemoveSegment { filename: Seq<u8> },
    WritePlaylist { text: Seq<u8> },
}

impl View for SegmenterAction {
    type V = ActionModel;

    open spec fn view(&self) -> ActionModel {
        match self {
            SegmenterAction::WriteInit { bytes, codec } => ActionModel::WriteInit {
                bytes: bytes@,
                codec: codec@,
            },
            SegmenterAction::CreateSegment { filename } => ActionModel::CreateSegment {
                filename: filename@,
            },
            SegmenterAction::AppendPart { filename, bytes } => ActionModel::AppendPart {
                filename: filename@,
                bytes: bytes@,
            },
            SegmenterAction::RemoveSegment { filename } => ActionModel::RemoveSegment {
                filename: filename@,
            },
            SegmenterAction::WritePlaylist { text } => ActionModel::WritePlaylist { text: text@ },
        }
    }
}

/// The models of a list of actions.
pub open spec fn action_views(actions: Seq<SegmenterAction>) -> Seq<ActionModel> {
    Seq::new(actions.len(), |i: int| actions[i]@)
}

/// The models of a list with one more action are the models of the list
/// with the model of that action.
pub proof fn lemma_action_views_push(actions: Seq<SegmenterAction>, a: SegmenterAction)
    ensures
        action_views(actions.push(a)) == action_views(actions).push(a@),
{
    assert(action_views(actions.push(a)) =~= action_views(actions).push(a@));
}

/// Cuts a stream of access units into segments and parts.
pub struct CmafSegmenter {
    target_duration: u64,
    window: usize,
    sequence: u64,
    segments: VecDeque<SegmentInfo>,
    current: Option<SegmentBuffer>,
    sps: Option<Vec<u8>>,
    pps: Option<Vec<u8>>,
    last_init_sps: Option<Vec<u8>>,
    last_init_pps: Option<Vec<u8>>,
    part_duration: u64,
    last_sample_duration: Option<u32>,
    fragment_sequence: u32,
}

/// What a segmenter holds.
pub struct SegmenterModel {
    /// The shortest duration of a segment, in ticks.
    pub target_duration: u64,
    /// How many complete segments are kept.
    pub window: int,
    /// The number of the next segment.
    pub sequence: u64,
    /// The complete segments that are kept, oldest first.
    pub segments: Seq<SegmentModel>,
    /// The segment in progress.
    pub current: Option<BufferModel>,
    /// The parameter sets of the stream.
    pub sps: Option<Seq<u8>>,
    pub pps: Option<Seq<u8>>,
    /// The parameter sets of the initialization segment handed out last.
    pub last_init_sps: Option<Seq<u8>>,
    pub last_init_pps: Option<Seq<u8>>,
    /// The shortest duration of a part, in ticks.
    pub part_duration: u64,
    /// The duration of the last sample of the part handed out last.
    pub last_sample_duration: Option<u32>,
    /// The number of the next part, over all segments.
    pub fragment_sequence: u32,
}

/// The contents of an optional byte string.
pub open spec fn opt_view(o: Option<Vec<u8>>) -> Option<Seq<u8>> {
    match o {
        Some(v) => Some(v@),
        None => None,
    }
}

impl View for CmafSegmenter {
    type V = SegmenterModel;

    closed spec fn view(&self) -> SegmenterModel {
        SegmenterModel {
            target_duration: self.target_duration,
            window: self.window as int,
            sequence: self.sequence,
            segments: segment_views(self.segments@),
            current: match self.current {
                Some(b) => Some(b@),
                None => None,
            },
            sps: opt_view(self.sps),
            pps: opt_view(self.pps),
            last_init_sps: opt_view(self.last_init_sps),
            last_init_pps: opt_view(self.last_init_pps),
            part_duration: self.part_duration,
            last_sample_duration: self.last_sample_duration,
            fragment_sequence: self.fragment_sequence,
        }
    }
}

/// The part target in force: the one asked for, or the segment target where
/// none is asked for; at least a tenth of a second and at most the segment
/// target.
pub open spec fn resolved_part_duration(target_duration: u64, part_duration: u64) -> u64 {
    let asked = if part_duration == 0 {
        target_duration
    } else {
        part_duration
    };
    let most = if target_duration > MIN_PART_TICKS {
        target_duration
    } else {
        MIN_PART_TICKS
    };
    if asked < MIN_PART_TICKS {
        MIN_PART_TICKS
    } else if asked > most {
        most
    } else {
        asked
    }
}

/// A segmenter that has seen nothing.
pub open spec fn initial(target_duration: u64, window: int, part_duration: u64) -> SegmenterModel {
    SegmenterModel {
        target_duration,
        window,
        sequence: 0,
        segments: Seq::empty(),
        current: None,
        sps: None,
        pps: None,
        last_init_sps: None,
        last_init_pps: None,
        part_duration: resolved_part_duration(target_duration, part_duration),
        last_sample_duration: None,
        fragment_sequence: 1,
    }
}

/// Whether an initialization segment is due: both parameter sets are known
/// and differ from those of the last one handed out.
pub open spec fn init_due(m: SegmenterModel) -> bool {
    m.sps.is_some() && m.pps.is_some() && !(m.last_init_sps == m.sps && m.last_init_pps == m.pps)
}

/// The picture size of the initialization segment: what the sequence
/// parameter set declares, or 1280 by 720 where it cannot be read.
pub open spec fn init_dimensions(sps: Seq<u8>) -> (u32, u32) {
    match sps_dimensions(sps) {
        Some((w, h)) => (w as u32, h as u32),
        None => (FALLBACK_WIDTH, FALLBACK_HEIGHT),
    }
}

/// The segmenter after the initialization segment has been handed out where
/// it is due, and the action that hands it out.
pub open spec fn init_step(m: SegmenterModel) -> (SegmenterModel, Seq<ActionModel>) {
    if init_due(m) {
        let sps = m.sps.unwrap();
        let pps = m.pps.unwrap();
        let size = init_dimensions(sps);
        (
            SegmenterModel { last_init_sps: m.sps, last_init_pps: m.pps, ..m },
            seq![
                ActionModel::WriteInit {
                    bytes: init_mp4(sps, pps, size.0, size.1),
                    codec: codec_string(sps),
                },
            ],
        )
    } else {
        (m, Seq::empty())
    }
}

/// The number after `n`; it starts again at zero after the largest.
pub open spec fn wrapped_next(n: u64) -> u64 {
    if n == 0xFFFF_FFFF_FFFF_FFFF {
        0
    } else {
        (n + 1) as u64
    }
}

/// The 32-bit number after `n`; it starts again at zero after the largest.
pub open spec fn wrapped_next32(n: u32) -> u32 {
    if n == 0xFFFF_FFFF {
        0
    } else {
        (n + 1) as u32
    }
}

/// An empty segment that begins at `pts`.
pub open spec fn fresh_buffer(seq: u64, pts: u64) -> BufferModel {
    BufferModel {
        seq,
        start_pts: pts,
        last_pts: pts,
        frames: 0,
        filename: segment_filename(seq),
        bytes_written: 0,
        parts: Seq::empty(),
        part_index: 0,
        part_start_pts: pts,
        part_start_byte: 0,
        part_samples: Seq::empty(),
        part_independent: true,
    }
}

/// The part that the samples in progress of `b` make, and its bytes.
pub open spec fn next_part(m: SegmenterModel, b: BufferModel) -> (PartInfo, Seq<u8>) {
    let durations = durations_upto(
        b.part_samples,
        b.part_samples.len() as int,
        m.last_sample_duration,
        m.part_duration,
    );
    let bytes = part_bytes(m.fragment_sequence, b.part_start_pts, b.part_samples, durations.0);
    (
        PartInfo {
            index: b.part_index,
            duration: if durations.1 < MIN_LISTED_PART_TICKS {
                MIN_LISTED_PART_TICKS
            } else {
                durations.1
            },
            byte_start: b.part_start_byte,
            byte_length: bytes.len() as u64,
            independent: b.part_independent,
        },
        bytes,
    )
}

/// The segmenter and the segment in progress after the samples in progress
/// have been handed out as one part; nothing happens where there are none.
pub open spec fn flush_step(m: SegmenterModel, b: BufferModel) -> (
    SegmenterModel,
    BufferModel,
    Seq<ActionModel>,
) {
    if b.part_samples.len() == 0 {
        (m, b, Seq::empty())
    } else {
        let (part, bytes) = next_part(m, b);
        let durations = durations_upto(
            b.part_samples,
            b.part_samples.len() as int,
            m.last_sample_duration,
            m.part_duration,
        ).0;
        let written = capped_sum(b.bytes_written as int, bytes.len() as int);
        (
            SegmenterModel {
                last_sample_duration: Some(durations.last()),
                fragment_sequence: wrapped_next32(m.fragment_sequence),
                ..m
            },
            BufferModel {
                part_samples: Seq::empty(),
                bytes_written: written,
                parts: b.parts.push(part),
                part_index: if b.part_index == 0xFFFF_FFFF {
                    b.part_index
                } else {
                    (b.part_index + 1) as u32
                },
                part_start_byte: written,
                part_independent: false,
                ..b
            },
            seq![ActionModel::AppendPart { filename: b.filename, bytes }],
        )
    }
}

/// The removal of the first `n` segments, oldest first.
pub open spec fn removals(segments: Seq<SegmentModel>, n: int) -> Seq<ActionModel>
    decreases n,
{
    if n <= 0 {
        Seq::empty()
    } else {
        removals(segments, n - 1).push(
            ActionModel::RemoveSegment { filename: segments[n - 1].filename },
        )
    }
}

/// How many of `count` segments leave a window of `window`.
pub open spec fn overflow(count: int, window: int) -> int {
    if count > window {
        count - window
    } else {
        0
    }
}

/// The complete segment that a segment in progress becomes.
pub open spec fn completed(b: BufferModel) -> SegmentModel {
    SegmentModel {
        seq: b.seq,
        duration: if b.last_pts > b.start_pts {
            (b.last_pts - b.start_pts) as u64
        } else {
            MIN_SEGMENT_TICKS
        },
        filename: b.filename,
        parts: b.parts,
        bytes: b.bytes_written,
    }
}

/// The segmenter after the segment `b` has been completed: its last part is
/// handed out, it joins the complete segments, the oldest segments leave
/// the window, and the playlist is replaced.
pub open spec fn finalize_step(m: SegmenterModel, b: BufferModel) -> (
    SegmenterModel,
    Seq<ActionModel>,
) {
    let (m1, b1, flushed) = flush_step(m, b);
    let all = m1.segments.push(completed(b1));
    let gone = overflow(all.len() as int, m1.window);
    let kept = all.skip(gone);
    (
        SegmenterModel { segments: kept, ..m1 },
        flushed + removals(all, gone) + seq![
            ActionModel::WritePlaylist {
                text: playlist_text(m1.target_duration, m1.part_duration, kept, None),
            },
        ],
    )
}

/// The segmenter after a new segment has been begun at `pts`.
pub open spec fn start_step(m: SegmenterModel, pts: u64) -> (SegmenterModel, Seq<ActionModel>) {
    (
        SegmenterModel {
            sequence: wrapped_next(m.sequence),
            current: Some(fresh_buffer(m.sequence, pts)),
            ..m
        },
        seq![ActionModel::CreateSegment { filename: segment_filename(m.sequence) }],
    )
}

/// The part in progress of `b` begun anew at `pts`.
pub open spec fn part_begun(b: BufferModel, pts: u64, is_idr: bool) -> BufferModel {
    BufferModel {
        part_start_pts: pts,
        part_start_byte: b.bytes_written,
        part_independent: is_idr,
        ..b
    }
}

/// A sample made of an access unit and its time.
pub open spec fn sample_of(nals: Seq<Seq<u8>>, is_idr: bool, pts: u64) -> SampleModel {
    SampleModel { pts90k: pts, is_idr, nals }
}

/// The segment in progress made ready for an access unit at `pts`.
///
/// Where no sample is waiting, the part begins with this unit. Where
/// samples are waiting and the part target has passed since the part began,
/// the samples are handed out as one part first, the next part begins with
/// this unit, and the playlist is replaced.
pub open spec fn prepared(m: SegmenterModel, b: BufferModel, is_idr: bool, pts: u64) -> (
    SegmenterModel,
    BufferModel,
    Seq<ActionModel>,
) {
    if b.part_samples.len() == 0 {
        (m, part_begun(b, pts, is_idr), Seq::empty())
    } else if elapsed(pts, b.part_start_pts) >= m.part_duration {
        let (m2, b2, flushed) = flush_step(m, b);
        let b3 = part_begun(b2, pts, is_idr);
        (
            m2,
            b3,
            flushed.push(
                ActionModel::WritePlaylist {
                    text: playlist_text(
                        m2.target_duration,
                        m2.part_duration,
                        m2.segments,
                        Some(open_segment(b3)),
                    ),
                },
            ),
        )
    } else {
        (m, b, Seq::empty())
    }
}

/// The segment in progress after one more access unit has joined it.
pub open spec fn joined(
    m: SegmenterModel,
    b: BufferModel,
    nals: Seq<Seq<u8>>,
    is_idr: bool,
    pts: u64,
) -> (SegmenterModel, Seq<ActionModel>) {
    let (m2, b3, actions) = prepared(m, b, is_idr, pts);
    let b4 = BufferModel {
        last_pts: pts,
        frames: if b3.frames == 0xFFFF_FFFF_FFFF_FFFF {
            b3.frames
        } else {
            (b3.frames + 1) as u64
        },
        part_samples: b3.part_samples.push(sample_of(nals, is_idr, pts)),
        ..b3
    };
    (SegmenterModel { current: Some(b4), ..m2 }, actions)
}

/// The segmenter after the segment `b` has been completed and the next
/// begun at `pts`; the new segment is the one in progress.
pub open spec fn rolled(m: SegmenterModel, b: BufferModel, pts: u64) -> (
    SegmenterModel,
    Seq<ActionModel>,
) {
    let (m1, b1, a1) = flush_step(m, b);
    let (m2, a2) = finalize_step(m1, b1);
    let (m3, a3) = start_step(m2, pts);
    (m3, a1 + a2 + a3)
}

/// The segmenter with a segment in progress that is due to take an access
/// unit at `pts`: the segment in progress, or a new one where there is none
/// or where an IDR picture arrives once the segment target has passed.
pub open spec fn made_room(m: SegmenterModel, is_idr: bool, pts: u64) -> (
    SegmenterModel,
    Seq<ActionModel>,
) {
    match m.current {
        None => start_step(m, pts),
        Some(b) => if elapsed(pts, b.start_pts) >= m.target_duration && is_idr {
            rolled(SegmenterModel { current: None, ..m }, b, pts)
        } else {
            (m, Seq::empty())
        },
    }
}

/// The segmenter after one access unit, and the actions that follow.
///
/// The initialization segment is handed out first where it is due. Access
/// units before the first IDR picture are dropped. An IDR picture that
/// arrives once the segment target has passed completes the segment in
/// progress and begins the next.
pub open spec fn push_step(m: SegmenterModel, nals: Seq<Seq<u8>>, is_idr: bool, pts: u64) -> (
    SegmenterModel,
    Seq<ActionModel>,
) {
    let (m1, a1) = init_step(m);
    if m1.current.is_none() && !is_idr {
        (m1, a1)
    } else {
        let (m2, a2) = made_room(m1, is_idr, pts);
        let (m3, a3) = joined(
            SegmenterModel { current: None, ..m2 },
            m2.current.unwrap(),
            nals,
            is_idr,
            pts,
        );
        (m3, a1 + a2 + a3)
    }
}

/// The segmenter after the segment in progress has been completed; nothing
/// happens where there is none.
pub open spec fn finalize_all(m: SegmenterModel) -> (SegmenterModel, Seq<ActionModel>) {
    match m.current {
        Some(b) => finalize_step(SegmenterModel { current: None, ..m }, b),
        None => (m, Seq::empty()),
    }
}

/// Tests two optional byte strings for equality.
fn same_bytes(a: &Option<Vec<u8>>, b: &Option<Vec<u8>>) -> (r: bool)
    ensures
        r == (opt_view(*a) == opt_view(*b)),
{
    match (a, b) {
        (Some(x), Some(y)) => bytes_eq(x.as_slice(), y.as_slice()),
        (None, None) => true,
        _ => false,
    }
}

/// The actions in `out` are those of `before` followed by `added`.
pub open spec fn extended(
    out: Seq<SegmenterAction>,
    before: Seq<SegmenterAction>,
    added: Seq<ActionModel>,
) -> bool {
    action_views(out) == action_views(before) + added
}

impl CmafSegmenter {
    /// A segmenter for segments of at least `target_duration` ticks, parts
    /// of at least `part_duration` ticks, and a playlist of `window`
    /// complete segments. A part duration of zero stands for the segment
    /// target.
    pub fn new(target_duration: u64, window: usize, part_duration: u64) -> (r: Self)
        ensures
            r@ == initial(target_duration, window as int, part_duration),
    {
        let asked: u64 = if part_duration == 0 { target_duration } else { part_duration };
        let most: u64 = if target_duration > MIN_PART_TICKS {
            target_duration
        } else {
            MIN_PART_TICKS
        };
        let resolved: u64 = if asked < MIN_PART_TICKS {
            MIN_PART_TICKS
        } else if asked > most {
            most
        } else {
            asked
        };
        let r = CmafSegmenter {
            target_duration,
            window,
            sequence: 0,
            segments: VecDeque::new(),
            current: None,
            sps: None,
            pps: None,
            last_init_sps: None,
            last_init_pps: None,
            part_duration: resolved,
            last_sample_duration: None,
            fragment_sequence: 1,
        };
        assert(r@.segments =~= Seq::<SegmentModel>::empty());
        r
    }

    /// Makes the parameter sets of the stream known.
    pub fn set_parameter_sets(&mut self, sps: Vec<u8>, pps: Vec<u8>)
        ensures
            final(self)@ == (SegmenterModel { sps: Some(sps@), pps: Some(pps@), ..old(self)@ }),
    {
        self.sps = Some(sps);
        self.pps = Some(pps);
    }

    /// Hands out the initialization segment where it is due.
    fn write_init_if_needed(&mut self, out: &mut Vec<SegmenterAction>)
        ensures
            final(self)@ == init_step(old(self)@).0,
            extended(final(out)@, old(out)@, init_step(old(self)@).1),
    {
        let due: bool = self.sps.is_some() && self.pps.is_some() && !(same_bytes(
            &self.last_init_sps,
            &self.sps,
        ) && same_bytes(&self.last_init_pps, &self.pps));
        if !due {
            assert(action_views(out@) + Seq::<ActionModel>::empty() =~= action_views(out@));
            return ;
        }
        let sps: Vec<u8> = match &self.sps {
            Some(s) => slice_to_vec(s.as_slice()),
            None => Vec::new(),
        };
        let pps: Vec<u8> = match &self.pps {
            Some(p) => slice_to_vec(p.as_slice()),
            None => Vec::new(),
        };
        let (width, height) = match parse_sps_dimensions(sps.as_slice()) {
            Some(d) => d,
            None => (FALLBACK_WIDTH, FALLBACK_HEIGHT),
        };
        let bytes = build_init_mp4(sps.as_slice(), pps.as_slice(), width, height);
        let codec = codec_string_from_sps(sps.as_slice());
        let action = SegmenterAction::WriteInit { bytes, codec };
        proof {
            lemma_action_views_push(out@, action);
            assert(action_views(out@).push(action@) =~= action_views(out@) + seq![action@]);
        }
        out.push(action);
        self.last_init_sps = Some(sps);
        self.last_init_pps = Some(pps);
    }

    /// Hands out the initialization segment where it is due: where both
    /// parameter sets are known and differ from those handed out last.
    pub fn ensure_init(&mut self) -> (r: Vec<SegmenterAction>)
        ensures
            (final(self)@, action_views(r@)) == init_step(old(self)@),
    {
        let mut out: Vec<SegmenterAction> = Vec::new();
        assert(action_views(out@) =~= Seq::<ActionModel>::empty());
        self.write_init_if_needed(&mut out);
        assert(Seq::<ActionModel>::empty() + init_step(old(self)@).1 =~= init_step(old(self)@).1);
        out
    }

    /// Begins a new segment at `pts`.
    fn start_segment(&mut self, pts90k: u64, out: &mut Vec<SegmenterAction>)
        ensures
            final(self)@ == start_step(old(self)@, pts90k).0,
            extended(final(out)@, old(out)@, start_step(old(self)@, pts90k).1),
    {
        let seq: u64 = self.sequence;
        self.sequence = if seq == 0xFFFF_FFFF_FFFF_FFFF { 0 } else { seq + 1 };
        let filename = build_segment_filename(seq);
        let action = SegmenterAction::CreateSegment { filename: slice_to_vec(filename.as_slice()) };
        proof {
            lemma_action_views_push(out@, action);
            assert(action_views(out@).push(action@) =~= action_views(out@) + seq![action@]);
        }
        out.push(action);
        let buffer = SegmentBuffer {
            seq,
            start_pts: pts90k,
            last_pts: pts90k,
            frames: 0,
            filename,
            bytes_written: 0,
            parts: Vec::new(),
            part_index: 0,
            part_start_pts: pts90k,
            part_start_byte: 0,
            part_samples: Vec::new(),
            part_independent: true,
        };
        assert(buffer@.part_samples =~= Seq::<SampleModel>::empty());
        assert(buffer@ == fresh_buffer(seq, pts90k));
        self.current = Some(buffer);
    }

    /// Hands out the samples in progress of `current` as one part.
    fn flush_part(&mut self, current: &mut SegmentBuffer, out: &mut Vec<SegmenterAction>)
        ensures
            final(self)@ == flush_step(old(self)@, old(current)@).0,
            final(current)@ == flush_step(old(self)@, old(current)@).1,
            extended(final(out)@, old(out)@, flush_step(old(self)@, old(current)@).2),
    {
        if current.part_samples.len() == 0 {
            assert(action_views(out@) + Seq::<ActionModel>::empty() =~= action_views(out@));
            return ;
        }
        let mut samples: Vec<Sample> = Vec::new();
        core::mem::swap(&mut samples, &mut current.part_samples);
        let (durations, total) = compute_sample_durations(
            &samples,
            self.last_sample_duration,
            self.part_duration,
        );
        let bytes = build_part(self.fragment_sequence, current.part_start_pts, &samples, &durations);
        self.last_sample_duration = Some(durations[durations.len() - 1]);
        self.fragment_sequence = if self.fragment_sequence == 0xFFFF_FFFF {
            0
        } else {
            self.fragment_sequence + 1
        };
        let byte_length: u64 = bytes.len() as u64;
        let written: u64 = if byte_length > 0xFFFF_FFFF_FFFF_FFFF - current.bytes_written {
            0xFFFF_FFFF_FFFF_FFFF
        } else {
            current.bytes_written + byte_length
        };
        let part = PartInfo {
            index: current.part_index,
            duration: if total < MIN_LISTED_PART_TICKS { MIN_LISTED_PART_TICKS } else { total },
            byte_start: current.part_start_byte,
            byte_length,
            independent: current.part_independent,
        };
        let action = SegmenterAction::AppendPart {
            filename: slice_to_vec(current.filename.as_slice()),
            bytes,
        };
        proof {
            lemma_action_views_push(out@, action);
            assert(action_views(out@).push(action@) =~= action_views(out@) + seq![action@]);
        }
        out.push(action);
        current.parts.push(part);
        current.bytes_written = written;
        if current.part_index < 0xFFFF_FFFF {
            current.part_index = current.part_index + 1;
        }
        current.part_start_byte = written;
        current.part_independent = false;
        assert(current@.part_samples =~= Seq::<SampleModel>::empty());
    }
}

/// The models of a list with one more segment are the models of the list
/// with the model of that segment.
pub proof fn lemma_segment_views_push(segments: Seq<SegmentInfo>, seg: SegmentInfo)
    ensures
        segment_views(segments.push(seg)) == segment_views(segments).push(seg@),
{
    assert(segment_views(segments.push(seg)) =~= segment_views(segments).push(seg@));
}

impl CmafSegmenter {
    /// Completes the segment `current`.
    #[verifier::rlimit(40)]
    fn finalize_segment_buffer(&mut self, current: SegmentBuffer, out: &mut Vec<SegmenterAction>)
        ensures
            final(self)@ == finalize_step(old(self)@, current@).0,
            extended(final(out)@, old(out)@, finalize_step(old(self)@, current@).1),
    {
        let mut current = current;
        let ghost m0 = self@;
        let ghost b0 = current@;
        let ghost out0 = action_views(out@);
        self.flush_part(&mut current, out);
        let ghost m1 = self@;
        let ghost b1 = current@;
        let ghost flushed = flush_step(m0, b0).2;
        let duration: u64 = if current.last_pts > current.start_pts {
            current.last_pts - current.start_pts
        } else {
            MIN_SEGMENT_TICKS
        };
        let seg = SegmentInfo {
            seq: current.seq,
            duration,
            filename: current.filename,
            parts: current.parts,
            bytes: current.bytes_written,
        };
        assert(seg@ == completed(b1));
        proof {
            lemma_segment_views_push(self.segments@, seg);
        }
        self.segments.push_back(seg);
        let ghost all = segment_views(self.segments@);
        assert(all == m1.segments.push(completed(b1)));
        let ghost gone_total = overflow(all.len() as int, m1.window);
        let ghost mut gone: int = 0;
        assert(action_views(out@) =~= out0 + flushed + removals(all, 0));
        assert(all.skip(0) =~= all);
        while self.segments.len() > self.window
            invariant
                0 <= gone <= gone_total,
                gone_total == overflow(all.len() as int, self.window as int),
                segment_views(self.segments@) == all.skip(gone),
                self.segments@.len() == all.len() - gone,
                action_views(out@) == out0 + flushed + removals(all, gone),
                self@ == (SegmenterModel { segments: all.skip(gone), ..m1 }),
            decreases self.segments@.len(),
        {
            let ghost before = self.segments@;
            match self.segments.pop_front() {
                Some(old) => {
                    assert(old@ == all[gone]) by {
                        assert(segment_views(before)[0] == before[0]@);
                        assert(all.skip(gone)[0] == all[gone]);
                    }
                    let action = SegmenterAction::RemoveSegment { filename: old.filename };
                    proof {
                        lemma_action_views_push(out@, action);
                        assert(segment_views(self.segments@) =~= all.skip(gone + 1)) by {
                            assert forall|k: int| 0 <= k < self.segments@.len() implies segment_views(
                                self.segments@,
                            )[k] == all.skip(gone + 1)[k] by {
                                assert(self.segments@[k] == before[k + 1]);
                                assert(segment_views(before)[k + 1] == before[k + 1]@);
                                assert(all.skip(gone)[k + 1] == all[gone + k + 1]);
                            }
                        }
                        assert((out0 + flushed + removals(all, gone)).push(action@) =~= out0
                            + flushed + removals(all, gone + 1));
                        gone = gone + 1;
                    }
                    out.push(action);
                },
                None => {},
            }
        }
        assert(gone == gone_total);
        let text = render_playlist(self.target_duration, self.part_duration, &self.segments, None);
        let action = SegmenterAction::WritePlaylist { text };
        proof {
            lemma_action_views_push(out@, action);
            assert((out0 + flushed + removals(all, gone)).push(action@) =~= out0 + (flushed
                + removals(all, gone) + seq![action@]));
        }
        out.push(action);
    }

    /// Makes the segment `current` ready for an access unit at `pts`.
    fn prepare(
        &mut self,
        current: &mut SegmentBuffer,
        is_idr: bool,
        pts90k: u64,
        out: &mut Vec<SegmenterAction>,
    )
        ensures
            final(self)@ == prepared(old(self)@, old(current)@, is_idr, pts90k).0,
            final(current)@ == prepared(old(self)@, old(current)@, is_idr, pts90k).1,
            extended(
                final(out)@,
                old(out)@,
                prepared(old(self)@, old(current)@, is_idr, pts90k).2,
            ),
    {
        if current.part_samples.len() == 0 {
            current.part_start_pts = pts90k;
            current.part_start_byte = current.bytes_written;
            current.part_independent = is_idr;
            assert(action_views(out@) + Seq::<ActionModel>::empty() =~= action_views(out@));
            return ;
        }
        let since: u64 = if pts90k > current.part_start_pts {
            pts90k - current.part_start_pts
        } else {
            0
        };
        if since < self.part_duration {
            assert(action_views(out@) + Seq::<ActionModel>::empty() =~= action_views(out@));
            return ;
        }
        let ghost flushed = flush_step(old(self)@, old(current)@).2;
        self.flush_part(current, out);
        current.part_start_pts = pts90k;
        current.part_start_byte = current.bytes_written;
        current.part_independent = is_idr;
        let text = render_playlist(
            self.target_duration,
            self.part_duration,
            &self.segments,
            Some(&*current),
        );
        let action = SegmenterAction::WritePlaylist { text };
        proof {
            lemma_action_views_push(out@, action);
            assert((action_views(old(out)@) + flushed).push(action@) =~= action_views(old(out)@)
                + flushed.push(action@));
        }
        out.push(action);
    }

    /// Adds one access unit to the segment `current` and keeps the segment
    /// as the one in progress.
    fn join(
        &mut self,
        current: SegmentBuffer,
        unit: AccessUnit,
        pts90k: u64,
        out: &mut Vec<SegmenterAction>,
    )
        ensures
            final(self)@ == joined(old(self)@, current@, unit@.nals, unit.is_idr, pts90k).0,
            extended(
                final(out)@,
                old(out)@,
                joined(old(self)@, current@, unit@.nals, unit.is_idr, pts90k).1,
            ),
    {
        let mut current = current;
        self.prepare(&mut current, unit.is_idr, pts90k, out);
        current.last_pts = pts90k;
        if current.frames < 0xFFFF_FFFF_FFFF_FFFF {
            current.frames = current.frames + 1;
        }
        let ghost before = current.part_samples@;
        let sample = Sample { pts90k, is_idr: unit.is_idr, nals: unit.nals };
        current.part_samples.push(sample);
        assert(sample_views(current.part_samples@) =~= sample_views(before).push(sample@));
        self.current = Some(current);
    }
}

impl CmafSegmenter {
    /// Completes the segment `current` and begins the next at `pts`.
    fn roll_over(&mut self, current: SegmentBuffer, pts90k: u64, out: &mut Vec<SegmenterAction>)
        ensures
            final(self)@ == rolled(old(self)@, current@, pts90k).0,
            extended(final(out)@, old(out)@, rolled(old(self)@, current@, pts90k).1),
    {
        let mut current = current;
        let ghost m0 = self@;
        let ghost b0 = current@;
        let ghost out0 = action_views(out@);
        self.flush_part(&mut current, out);
        let ghost a1 = flush_step(m0, b0).2;
        let ghost m1 = self@;
        let ghost b1 = current@;
        self.finalize_segment_buffer(current, out);
        let ghost a2 = finalize_step(m1, b1).1;
        let ghost m2 = self@;
        self.start_segment(pts90k, out);
        let ghost a3 = start_step(m2, pts90k).1;
        assert(action_views(out@) =~= out0 + (a1 + a2 + a3));
    }

    /// Sees to it that a segment is in progress that is due to take an
    /// access unit at `pts`.
    fn make_room(&mut self, is_idr: bool, pts90k: u64, out: &mut Vec<SegmenterAction>)
        ensures
            final(self)@ == made_room(old(self)@, is_idr, pts90k).0,
            extended(final(out)@, old(out)@, made_room(old(self)@, is_idr, pts90k).1),
            final(self)@.current.is_some(),
    {
        let mut taken: Option<SegmentBuffer> = None;
        core::mem::swap(&mut taken, &mut self.current);
        match taken {
            None => {
                self.start_segment(pts90k, out);
            },
            Some(current) => {
                let since: u64 = if pts90k > current.start_pts {
                    pts90k - current.start_pts
                } else {
                    0
                };
                if since >= self.target_duration && is_idr {
                    self.roll_over(current, pts90k, out);
                } else {
                    self.current = Some(current);
                    assert(action_views(out@) + Seq::<ActionModel>::empty() =~= action_views(out@));
                }
            },
        }
    }

    /// Takes in one access unit with its presentation time and returns the
    /// actions that follow.
    #[verifier::rlimit(40)]
    pub fn push_access_unit(&mut self, access_unit: AccessUnit, pts90k: u64) -> (r: Vec<
        SegmenterAction,
    >)
        ensures
            (final(self)@, action_views(r@)) == push_step(
                old(self)@,
                access_unit@.nals,
                access_unit.is_idr,
                pts90k,
            ),
    {
        let mut out: Vec<SegmenterAction> = Vec::new();
        let ghost m0 = self@;
        let is_idr: bool = access_unit.is_idr;
        assert(action_views(out@) =~= Seq::<ActionModel>::empty());
        self.write_init_if_needed(&mut out);
        let ghost a1 = init_step(m0).1;
        let ghost m1 = self@;
        assert(action_views(out@) =~= a1);
        if self.current.is_none() && !is_idr {
            return out;
        }
        self.make_room(is_idr, pts90k, &mut out);
        let ghost a2 = made_room(m1, is_idr, pts90k).1;
        let ghost m2 = self@;
        let mut taken: Option<SegmentBuffer> = None;
        core::mem::swap(&mut taken, &mut self.current);
        match taken {
            Some(current) => {
                let ghost a3 = joined(
                    SegmenterModel { current: None, ..m2 },
                    current@,
                    access_unit@.nals,
                    is_idr,
                    pts90k,
                ).1;
                self.join(current, access_unit, pts90k, &mut out);
                assert(action_views(out@) =~= a1 + a2 + a3);
            },
            None => {},
        }
        out
    }

    /// Completes the segment in progress, if there is one, and returns the
    /// actions that follow.
    pub fn finalize_segment(&mut self) -> (r: Vec<SegmenterAction>)
        ensures
            (final(self)@, action_views(r@)) == finalize_all(old(self)@),
    {
        let mut out: Vec<SegmenterAction> = Vec::new();
        assert(action_views(out@) =~= Seq::<ActionModel>::empty());
        let mut taken: Option<SegmentBuffer> = None;
        core::mem::swap(&mut taken, &mut self.current);
        match taken {
            Some(current) => {
                let ghost added = finalize_step(self@, current@).1;
                self.finalize_segment_buffer(current, &mut out);
                assert(Seq::<ActionModel>::empty() + added =~= added);
            },
            None => {},
        }
        out
    }

    /// The complete segments that are kept, oldest first.
    pub fn segments(&self) -> (r: &VecDeque<SegmentInfo>)
        ensures
            segment_views(r@) == self@.segments,
    {
        &self.segments
    }

    /// The segment in progress.
    pub fn current(&self) -> (r: Option<&SegmentBuffer>)
        ensures
            match r {
                Some(b) => self@.current == Some(b@),
                None => self@.current.is_none(),
            },
    {
        self.current.as_ref()
    }

    /// The part target in force, in ticks.
    pub fn part_duration(&self) -> (r: u64)
        ensures
            r == self@.part_duration,
    {
        self.part_duration
    }
}

/// Whether the byte ranges of `parts` tile the first `total` bytes of a
/// file without gap or overlap: the first part begins at zero, every part
/// ends where the next begins, and the last part ends at `total`.
pub open spec fn tiles(parts: Seq<PartInfo>, total: int) -> bool {
    &&& parts.len() == 0 ==> total == 0
    &&& parts.len() > 0 ==> parts[0].byte_start == 0 && parts.last().byte_start
        + parts.last().byte_length == total
    &&& forall|k: int|
        0 <= k < parts.len() - 1 ==> (#[trigger] parts[k]).byte_start + parts[k].byte_length
            == parts[k + 1].byte_start
}

/// Whether the parts of a segment in progress tile what has been handed
/// out for its file, and the part in progress begins where the file ends.
/// Nothing is said of a file whose length has reached the largest 64-bit
/// number.
pub open spec fn buffer_tiled(b: BufferModel) -> bool {
    &&& b.part_start_byte == b.bytes_written
    &&& b.bytes_written < 0xFFFF_FFFF_FFFF_FFFF ==> tiles(b.parts, b.bytes_written as int)
}

/// Whether the parts of a complete segment tile its file.
pub open spec fn segment_tiled(s: SegmentModel) -> bool {
    s.bytes < 0xFFFF_FFFF_FFFF_FFFF ==> tiles(s.parts, s.bytes as int)
}

/// Whether the parts of every segment of `m` tile its file.
pub open spec fn tiled(m: SegmenterModel) -> bool {
    &&& m.window >= 0
    &&& forall|i: int| 0 <= i < m.segments.len() ==> segment_tiled(#[trigger] m.segments[i])
    &&& m.current matches Some(b) ==> buffer_tiled(b)
}

/// Handing out a part keeps the parts of the segment in progress tiling its
/// file.
pub proof fn lemma_flush_tiles(m: SegmenterModel, b: BufferModel)
    requires
        buffer_tiled(b),
    ensures
        buffer_tiled(flush_step(m, b).1),
        flush_step(m, b).0.segments == m.segments,
        flush_step(m, b).0.current == m.current,
{
    if b.part_samples.len() > 0 {
        let b1 = flush_step(m, b).1;
        let (part, bytes) = next_part(m, b);
        if b1.bytes_written < 0xFFFF_FFFF_FFFF_FFFF {
            assert(b1.parts.last() == part);
            assert forall|k: int| 0 <= k < b1.parts.len() - 1 implies (#[trigger] b1.parts[k]).byte_start
                + b1.parts[k].byte_length == b1.parts[k + 1].byte_start by {
                if k < b.parts.len() - 1 {
                    assert(b1.parts[k] == b.parts[k]);
                    assert(b1.parts[k + 1] == b.parts[k + 1]);
                } else {
                    assert(b1.parts[k] == b.parts.last());
                }
            }
            if b.parts.len() > 0 {
                assert(b1.parts[0] == b.parts[0]);
            }
        }
    }
}

/// Completing a segment keeps the parts of every segment tiling its file.
#[verifier::rlimit(40)]
pub proof fn lemma_finalize_tiles(m: SegmenterModel, b: BufferModel)
    requires
        tiled(m),
        m.current.is_none(),
        buffer_tiled(b),
    ensures
        tiled(finalize_step(m, b).0),
        finalize_step(m, b).0.current.is_none(),
{
    lemma_flush_tiles(m, b);
    let (m1, b1, _) = flush_step(m, b);
    let all = m1.segments.push(completed(b1));
    let gone = overflow(all.len() as int, m1.window);
    let kept = all.skip(gone);
    assert forall|i: int| 0 <= i < kept.len() implies segment_tiled(#[trigger] kept[i]) by {
        assert(kept[i] == all[i + gone]);
        if i + gone < m1.segments.len() {
            assert(all[i + gone] == m.segments[i + gone]);
        }
    }
}

/// Making room for an access unit keeps the parts of every segment tiling
/// its file.
pub proof fn lemma_made_room_tiles(m: SegmenterModel, is_idr: bool, pts: u64)
    requires
        tiled(m),
    ensures
        tiled(made_room(m, is_idr, pts).0),
        made_room(m, is_idr, pts).0.current.is_some(),
{
    match m.current {
        None => {},
        Some(b) => {
            if elapsed(pts, b.start_pts) >= m.target_duration && is_idr {
                let m0 = SegmenterModel { current: None, ..m };
                lemma_flush_tiles(m0, b);
                let (m1, b1, _) = flush_step(m0, b);
                assert(tiled(m1));
                lemma_finalize_tiles(m1, b1);
            }
        },
    }
}

/// Taking in an access unit keeps the parts of every segment tiling its
/// file.
pub proof fn lemma_push_tiles(m: SegmenterModel, nals: Seq<Seq<u8>>, is_idr: bool, pts: u64)
    requires
        tiled(m),
    ensures
        tiled(push_step(m, nals, is_idr, pts).0),
{
    let (m1, _) = init_step(m);
    assert(tiled(m1));
    if m1.current.is_none() && !is_idr {
    } else {
        lemma_made_room_tiles(m1, is_idr, pts);
        let (m2, _) = made_room(m1, is_idr, pts);
        let b = m2.current.unwrap();
        let m3 = SegmenterModel { current: None, ..m2 };
        if b.part_samples.len() == 0 {
        } else if elapsed(pts, b.part_start_pts) >= m3.part_duration {
            lemma_flush_tiles(m3, b);
        }
    }
}

/// Completing the segment in progress keeps the parts of every segment
/// tiling its file.
pub proof fn lemma_finalize_all_tiles(m: SegmenterModel)
    requires
        tiled(m),
    ensures
        tiled(finalize_all(m).0),
{
    match m.current {
        Some(b) => {
            lemma_finalize_tiles(SegmenterModel { current: None, ..m }, b);
        },
        None => {},
    }
}

/// A segmenter that has seen nothing has no parts that could fail to tile.
pub proof fn lemma_initial_tiles(target_duration: u64, window: int, part_duration: u64)
    requires
        window >= 0,
    ensures
        tiled(initial(target_duration, window, part_duration)),
{
}

/// The parts of every segment tile its file.
///
/// In a segmenter that has been brought to its state by taking in access
/// units and completing segments, the byte ranges of the parts of a
/// complete segment tile the file from zero to its length: part 0 begins at
/// zero and every part ends where the next begins. This holds of every file
/// shorter than the largest 64-bit number.
pub proof fn lemma_parts_tile(m: SegmenterModel, i: int, k: int)
    requires
        tiled(m),
        0 <= i < m.segments.len(),
        m.segments[i].bytes < 0xFFFF_FFFF_FFFF_FFFF,
        0 <= k < m.segments[i].parts.len(),
    ensures
        m.segments[i].parts[0].byte_start == 0,
        k + 1 < m.segments[i].parts.len() ==> m.segments[i].parts[k].byte_start
            + m.segments[i].parts[k].byte_length == m.segments[i].parts[k + 1].byte_start,
        k + 1 == m.segments[i].parts.len() ==> m.segments[i].parts[k].byte_start
            + m.segments[i].parts[k].byte_length == m.segments[i].bytes,
{
    assert(segment_tiled(m.segments[i]));
}

/// The media sequence that a playlist of the state `m` shows.
pub open spec fn shown_sequence(m: SegmenterModel) -> u64 {
    media_sequence(
        m.segments,
        match m.current {
            Some(b) => Some(open_segment(b)),
            None => None,
        },
    )
}

/// The number that follows those of the complete segments that are kept.
pub open spec fn after_segments(segments: Seq<SegmentModel>) -> int {
    if segments.len() > 0 {
        segments.last().seq + 1
    } else {
        0
    }
}

/// Whether the segments of `m` are numbered in a row: the complete segments
/// that are kept, then the segment in progress, then the next segment. The
/// window holds at least one segment and no more are kept than it holds.
pub open spec fn sequenced(m: SegmenterModel) -> bool {
    &&& m.window >= 1
    &&& m.segments.len() <= m.window
    &&& forall|i: int|
        0 <= i < m.segments.len() ==> (#[trigger] m.segments[i]).seq == m.segments[0].seq + i
    &&& match m.current {
        Some(b) => b.seq == after_segments(m.segments) && m.sequence == b.seq + 1,
        None => m.sequence == after_segments(m.segments),
    }
}

/// Completing a segment moves the media sequence on by at most one.
#[verifier::rlimit(40)]
pub proof fn lemma_finalize_sequence(m: SegmenterModel, b: BufferModel)
    requires
        sequenced(SegmenterModel { current: Some(b), ..m }),
        m.current.is_none(),
    ensures
        sequenced(finalize_step(m, b).0),
        finalize_step(m, b).0.current.is_none(),
        finalize_step(m, b).0.segments.len() > 0,
        shown_sequence(SegmenterModel { current: Some(b), ..m }) <= shown_sequence(
            finalize_step(m, b).0,
        ) <= shown_sequence(SegmenterModel { current: Some(b), ..m }) + 1,
{
    let (m1, b1, _) = flush_step(m, b);
    assert(m1.segments == m.segments && b1.seq == b.seq && m1.sequence == m.sequence);
    let all = m1.segments.push(completed(b1));
    let gone = overflow(all.len() as int, m1.window);
    let kept = all.skip(gone);
    assert(gone == 0 || gone == 1);
    assert forall|i: int| 0 <= i < all.len() implies (#[trigger] all[i]).seq == all[0].seq + i by {
        if i < m.segments.len() {
            assert(all[i] == m.segments[i]);
            assert(all[0] == m.segments[0]);
        } else if m.segments.len() > 0 {
            assert(all[0] == m.segments[0]);
            assert(m.segments.last() == m.segments[m.segments.len() - 1]);
        }
    }
    assert forall|i: int| 0 <= i < kept.len() implies (#[trigger] kept[i]).seq == kept[0].seq
        + i by {
        assert(kept[i] == all[i + gone]);
        assert(kept[0] == all[gone]);
    }
    assert(kept.last() == all.last());
    assert(kept[0] == all[gone]);
    if m.segments.len() > 0 {
        assert(all[0] == m.segments[0]);
    }
}

/// Making room for an access unit moves the media sequence on by at most
/// one.
#[verifier::rlimit(40)]
pub proof fn lemma_made_room_sequence(m: SegmenterModel, is_idr: bool, pts: u64)
    requires
        sequenced(m),
        m.sequence < 0xFFFF_FFFF_FFFF_FFFF,
    ensures
        sequenced(made_room(m, is_idr, pts).0),
        made_room(m, is_idr, pts).0.current.is_some(),
        shown_sequence(m) <= shown_sequence(made_room(m, is_idr, pts).0) <= shown_sequence(m) + 1,
{
    match m.current {
        None => {},
        Some(b) => {
            if elapsed(pts, b.start_pts) >= m.target_duration && is_idr {
                let m0 = SegmenterModel { current: None, ..m };
                let (m1, b1, _) = flush_step(m0, b);
                assert(m1.segments == m.segments && b1.seq == b.seq && m1.sequence == m.sequence
                    && m1.window == m.window && m1.current.is_none());
                assert(SegmenterModel { current: Some(b1), ..m1 }.segments == m.segments);
                lemma_finalize_sequence(m1, b1);
                let (m2, _) = finalize_step(m1, b1);
                assert(m2.sequence == m.sequence);
                assert(shown_sequence(SegmenterModel { current: Some(b1), ..m1 }) == shown_sequence(
                    m,
                ));
            }
        },
    }
}

/// The media sequence moves on by at most one.
///
/// The media sequence that the playlist shows after an access unit has been
/// taken in is the one it showed before, or one more. This holds while the
/// window keeps at least one segment and segment numbers have not run out.
pub proof fn lemma_media_sequence_on_push(
    m: SegmenterModel,
    nals: Seq<Seq<u8>>,
    is_idr: bool,
    pts: u64,
)
    requires
        sequenced(m),
        m.sequence < 0xFFFF_FFFF_FFFF_FFFF,
    ensures
        sequenced(push_step(m, nals, is_idr, pts).0),
        shown_sequence(m) <= shown_sequence(push_step(m, nals, is_idr, pts).0) <= shown_sequence(m)
            + 1,
{
    let (m1, _) = init_step(m);
    assert(sequenced(m1) && shown_sequence(m1) == shown_sequence(m));
    if m1.current.is_none() && !is_idr {
    } else {
        lemma_made_room_sequence(m1, is_idr, pts);
        let (m2, _) = made_room(m1, is_idr, pts);
        let b = m2.current.unwrap();
        let m3 = SegmenterModel { current: None, ..m2 };
        let (m4, b4, _) = prepared(m3, b, is_idr, pts);
        assert(m4.segments == m2.segments && b4.seq == b.seq && m4.sequence == m2.sequence
            && m4.window == m2.window);
    }
}

/// The media sequence that the playlist shows after the segment in progress
/// has been completed is the one it showed before, or one more.
pub proof fn lemma_media_sequence_on_finalize(m: SegmenterModel)
    requires
        sequenced(m),
    ensures
        sequenced(finalize_all(m).0),
        shown_sequence(m) <= shown_sequence(finalize_all(m).0) <= shown_sequence(m) + 1,
{
    match m.current {
        Some(b) => {
            let m0 = SegmenterModel { current: None, ..m };
            assert(SegmenterModel { current: Some(b), ..m0 } == m);
            lemma_finalize_sequence(m0, b);
        },
        None => {},
    }
}

/// A segmenter that has seen nothing has its segments numbered in a row,
/// from zero, where its window holds at least one segment.
pub proof fn lemma_initial_sequenced(target_duration: u64, window: int, part_duration: u64)
    requires
        window >= 1,
    ensures
        sequenced(initial(target_duration, window, part_duration)),
        shown_sequence(initial(target_duration, window, part_duration)) == 0,
{
}

/// The segment in progress of `m` as the playlist shows it.
pub open spec fn open_current(m: SegmenterModel) -> Option<OpenSegment> {
    match m.current {
        Some(b) => Some(open_segment(b)),
        None => None,
    }
}

/// Whether an action, if it replaces the playlist, writes a playlist of the
/// state `m`: one that lists the complete segments of `m` and either its
/// segment in progress or, where a complete segment comes first, none.
/// Either playlist shows the media sequence of `m`.
pub open spec fn writes_playlist_of(action: ActionModel, m: SegmenterModel) -> bool {
    action matches ActionModel::WritePlaylist { text } ==> {
        ||| text == playlist_text(m.target_duration, m.part_duration, m.segments, open_current(m))
        ||| m.segments.len() > 0 && text == playlist_text(
            m.target_duration,
            m.part_duration,
            m.segments,
            None,
        )
    }
}

/// Removals replace no playlist.
proof fn lemma_removals_write_nothing(segments: Seq<SegmentModel>, n: int, i: int)
    requires
        0 <= i < removals(segments, n).len(),
    ensures
        removals(segments, n)[i] is RemoveSegment,
    decreases n,
{
    if n > 0 {
        if i < removals(segments, n - 1).len() {
            lemma_removals_write_nothing(segments, n - 1, i);
        }
    }
}

/// The only playlist that completing a segment writes lists the complete
/// segments that are kept and no segment in progress.
proof fn lemma_finalize_writes(m: SegmenterModel, b: BufferModel, i: int)
    requires
        0 <= i < finalize_step(m, b).1.len(),
        m.window >= 0,
    ensures
        finalize_step(m, b).1[i] matches ActionModel::WritePlaylist { text } ==> text
            == playlist_text(
            m.target_duration,
            m.part_duration,
            finalize_step(m, b).0.segments,
            None,
        ),
        finalize_step(m, b).0.target_duration == m.target_duration,
        finalize_step(m, b).0.part_duration == m.part_duration,
{
    let (m1, b1, flushed) = flush_step(m, b);
    let all = m1.segments.push(completed(b1));
    let gone = overflow(all.len() as int, m1.window);
    let gone_actions = removals(all, gone);
    if i < flushed.len() {
    } else if i < flushed.len() + gone_actions.len() {
        lemma_removals_write_nothing(all, gone, i - flushed.len());
        assert(finalize_step(m, b).1[i] == gone_actions[i - flushed.len()]);
    }
}

/// Every playlist written shows the media sequence of the state it leads to.
///
/// Each playlist that is written while an access unit is taken in is a
/// playlist of the state after that access unit: it lists the complete
/// segments of that state, and so shows its media sequence. With
/// [`lemma_media_sequence_on_push`], the media sequences of two playlists
/// written one after the other are equal or one apart.
#[verifier::rlimit(40)]
pub proof fn lemma_playlists_written_on_push(
    m: SegmenterModel,
    nals: Seq<Seq<u8>>,
    is_idr: bool,
    pts: u64,
    i: int,
)
    requires
        sequenced(m),
        m.sequence < 0xFFFF_FFFF_FFFF_FFFF,
        0 <= i < push_step(m, nals, is_idr, pts).1.len(),
    ensures
        writes_playlist_of(
            push_step(m, nals, is_idr, pts).1[i],
            push_step(m, nals, is_idr, pts).0,
        ),
{
    let (m1, a1) = init_step(m);
    let after = push_step(m, nals, is_idr, pts).0;
    if m1.current.is_none() && !is_idr {
    } else {
        let (m2, a2) = made_room(m1, is_idr, pts);
        let b = m2.current.unwrap();
        let m3 = SegmenterModel { current: None, ..m2 };
        let (m4, b4, a3) = prepared(m3, b, is_idr, pts);
        lemma_made_room_sequence(m1, is_idr, pts);
        assert(after.segments == m2.segments);
        assert(after.target_duration == m.target_duration);
        assert(after.part_duration == m.part_duration);
        assert(open_current(after) == Some(open_segment(b4)));
        if i < a1.len() {
        } else if i < a1.len() + a2.len() {
            let k = i - a1.len();
            assert(push_step(m, nals, is_idr, pts).1[i] == a2[k]);
            match m1.current {
                None => {},
                Some(old) => {
                    if elapsed(pts, old.start_pts) >= m1.target_duration && is_idr {
                        let r0 = SegmenterModel { current: None, ..m1 };
                        let (r1, rb, f1) = flush_step(r0, old);
                        let (r2, f2) = finalize_step(r1, rb);
                        let (r3, f3) = start_step(r2, pts);
                        assert(SegmenterModel { current: Some(rb), ..r1 }.segments == m1.segments);
                        lemma_finalize_sequence(r1, rb);
                        if k < f1.len() {
                        } else if k < f1.len() + f2.len() {
                            lemma_finalize_writes(r1, rb, k - f1.len());
                            assert(a2[k] == f2[k - f1.len()]);
                            assert(r2.segments == after.segments);
                        } else {
                        }
                    }
                },
            }
        } else {
            let k = i - a1.len() - a2.len();
            assert(push_step(m, nals, is_idr, pts).1[i] == a3[k]);
            if b.part_samples.len() > 0 && elapsed(pts, b.part_start_pts) >= m3.part_duration {
                let (f0, fb, f1) = flush_step(m3, b);
                if k < f1.len() {
                    assert(a3[k] == f1[k]);
                }
            }
        }
    }
}

/// The playlist that is written when the segment in progress is completed
/// is a playlist of the state after it.
pub proof fn lemma_playlists_written_on_finalize(m: SegmenterModel, i: int)
    requires
        sequenced(m),
        0 <= i < finalize_all(m).1.len(),
    ensures
        writes_playlist_of(finalize_all(m).1[i], finalize_all(m).0),
{
    match m.current {
        Some(b) => {
            let m0 = SegmenterModel { current: None, ..m };
            lemma_finalize_writes(m0, b, i);
        },
        None => {},
    }
}

/// Whether a segment in progress holds something and begins with an IDR
/// picture: its first part is independent, or while it has no part yet the
/// part in progress is.
pub open spec fn buffer_headed(b: BufferModel) -> bool {
    &&& b.parts.len() > 0 || b.part_samples.len() > 0
    &&& b.parts.len() > 0 ==> b.parts[0].independent
    &&& b.parts.len() == 0 ==> b.part_independent
}

/// Whether every segment of `m` has a part and begins with an IDR picture.
pub open spec fn headed(m: SegmenterModel) -> bool {
    &&& m.window >= 0
    &&& forall|i: int|
        0 <= i < m.segments.len() ==> (#[trigger] m.segments[i]).parts.len() > 0
            && m.segments[i].parts[0].independent
    &&& m.current matches Some(b) ==> buffer_headed(b)
}

/// Handing out a part keeps the head of the segment in progress, and leaves
/// a segment that holds something with a part.
proof fn lemma_flush_heads(m: SegmenterModel, b: BufferModel)
    requires
        buffer_headed(b),
    ensures
        flush_step(m, b).1.parts.len() > 0,
        flush_step(m, b).1.parts[0].independent,
        flush_step(m, b).0.segments == m.segments,
        flush_step(m, b).0.current == m.current,
        flush_step(m, b).0.window == m.window,
{
    if b.part_samples.len() > 0 {
        let b1 = flush_step(m, b).1;
        if b.parts.len() > 0 {
            assert(b1.parts[0] == b.parts[0]);
        }
    }
}

/// Completing a segment keeps every segment beginning with an IDR picture.
proof fn lemma_finalize_heads(m: SegmenterModel, b: BufferModel)
    requires
        headed(m),
        m.current.is_none(),
        buffer_headed(b),
    ensures
        headed(finalize_step(m, b).0),
        finalize_step(m, b).0.current.is_none(),
{
    lemma_flush_heads(m, b);
    let (m1, b1, _) = flush_step(m, b);
    let all = m1.segments.push(completed(b1));
    let gone = overflow(all.len() as int, m1.window);
    let kept = all.skip(gone);
    assert forall|i: int| 0 <= i < kept.len() implies (#[trigger] kept[i]).parts.len() > 0
        && kept[i].parts[0].independent by {
        assert(kept[i] == all[i + gone]);
        if i + gone < m1.segments.len() {
            assert(all[i + gone] == m.segments[i + gone]);
        }
    }
}

/// Every segment begins with an IDR picture.
///
/// Taking in an access unit keeps every complete segment, and the segment
/// in progress, beginning with a part that is independent. A segmenter
/// that has seen nothing has no segment that could fail to.
pub proof fn lemma_segments_begin_independent(
    m: SegmenterModel,
    nals: Seq<Seq<u8>>,
    is_idr: bool,
    pts: u64,
)
    requires
        headed(m),
    ensures
        headed(push_step(m, nals, is_idr, pts).0),
        headed(finalize_all(m).0),
        headed(initial(m.target_duration, m.window, m.part_duration)),
{
    match m.current {
        Some(b) => {
            lemma_finalize_heads(SegmenterModel { current: None, ..m }, b);
        },
        None => {},
    }
    let (m1, _) = init_step(m);
    assert(headed(m1));
    if m1.current.is_none() && !is_idr {
    } else {
        match m1.current {
            None => {},
            Some(old) => {
                if elapsed(pts, old.start_pts) >= m1.target_duration && is_idr {
                    let r0 = SegmenterModel { current: None, ..m1 };
                    lemma_flush_heads(r0, old);
                    let (r1, rb, _) = flush_step(r0, old);
                    assert(headed(r1));
                    assert(buffer_headed(rb));
                    lemma_finalize_heads(r1, rb);
                }
            },
        }
        let (m2, _) = made_room(m1, is_idr, pts);
        let b = m2.current.unwrap();
        let m3 = SegmenterModel { current: None, ..m2 };
        assert(b.parts.len() == 0 && b.part_samples.len() == 0 ==> is_idr);
        if b.part_samples.len() == 0 {
        } else if elapsed(pts, b.part_start_pts) >= m3.part_duration {
            lemma_flush_heads(m3, b);
        }
    }
}

/// What handing out a part does to the byte ranges.
///
/// Where samples are waiting, one part joins the parts of the segment in
/// progress. It begins where the file ended and is as long as the bytes
/// handed out for it, and the file ends where it ends. So parts that tiled
/// the file before tile it after: part 0 begins at zero, and every part
/// ends where the next begins. This holds of every file that stays shorter
/// than the largest 64-bit number.
pub proof fn lemma_flush_appends_one_part(m: SegmenterModel, b: BufferModel)
    requires
        buffer_tiled(b),
        b.part_samples.len() > 0,
        flush_step(m, b).1.bytes_written < 0xFFFF_FFFF_FFFF_FFFF,
    ensures
        ({
            let after = flush_step(m, b).1;
            let bytes = next_part(m, b).1;
            &&& flush_step(m, b).2 == seq![
                ActionModel::AppendPart { filename: b.filename, bytes },
            ]
            &&& after.parts == b.parts.push(after.parts.last())
            &&& after.parts.last().byte_start == b.bytes_written
            &&& after.parts.last().byte_length == bytes.len()
            &&& after.bytes_written == b.bytes_written + bytes.len()
            &&& tiles(after.parts, after.bytes_written as int)
            &&& after.parts[0].byte_start == 0
            &&& forall|k: int|
                0 <= k < after.parts.len() - 1 ==> (#[trigger] after.parts[k]).byte_start
                    + after.parts[k].byte_length == after.parts[k + 1].byte_start
        }),
{
    lemma_flush_tiles(m, b);
    let after = flush_step(m, b).1;
    assert(after.parts.last() == next_part(m, b).0);
    assert(after.parts =~= b.parts.push(after.parts.last()));
}

/// What completing a segment writes and shows.
///
/// The last action of completing a segment replaces the playlist, and no
/// other does. That playlist lists the complete segments that are kept and
/// no segment in progress, so the media sequence it shows is the number of
/// the oldest segment kept. It is the media sequence shown before, with the
/// segment still in progress, or one more.
pub proof fn lemma_finalize_shows_oldest_kept(m: SegmenterModel, b: BufferModel)
    requires
        sequenced(SegmenterModel { current: Some(b), ..m }),
        m.current.is_none(),
    ensures
        ({
            let before = media_sequence(m.segments, Some(open_segment(b)));
            let (after, actions) = finalize_step(m, b);
            &&& actions.len() > 0
            &&& actions.last() == (ActionModel::WritePlaylist {
                text: playlist_text(m.target_duration, m.part_duration, after.segments, None),
            })
            &&& forall|i: int| 0 <= i < actions.len() - 1 ==> !(#[trigger] actions[i] is WritePlaylist)
            &&& after.segments.len() > 0
            &&& media_sequence(after.segments, None) == after.segments[0].seq
            &&& before <= after.segments[0].seq <= before + 1
        }),
{
    lemma_finalize_sequence(m, b);
    let (m1, b1, flushed) = flush_step(m, b);
    let all = m1.segments.push(completed(b1));
    let gone = overflow(all.len() as int, m1.window);
    let gone_actions = removals(all, gone);
    let actions = finalize_step(m, b).1;
    assert forall|i: int| 0 <= i < actions.len() - 1 implies !(#[trigger] actions[i] is WritePlaylist) by {
        if i < flushed.len() {
        } else {
            lemma_removals_write_nothing(all, gone, i - flushed.len());
            assert(actions[i] == gone_actions[i - flushed.len()]);
        }
    }
}

/// The initialization segment where the picture size cannot be read.
///
/// Where an initialization segment is due and the sequence parameter set
/// declares no picture size, the segment is built for 1280 by 720, and the
/// parameter sets are remembered as handed out.
pub proof fn lemma_init_falls_back(m: SegmenterModel)
    requires
        init_due(m),
        sps_dimensions(m.sps.unwrap()).is_none(),
    ensures
        init_step(m).1 == seq![
            ActionModel::WriteInit {
                bytes: init_mp4(m.sps.unwrap(), m.pps.unwrap(), 1280, 720),
                codec: codec_string(m.sps.unwrap()),
            },
        ],
        init_step(m).0 == (SegmenterModel { last_init_sps: m.sps, last_init_pps: m.pps, ..m }),
        !init_due(init_step(m).0),
{
}

/// When a segment is completed.
///
/// An access unit completes the segment in progress exactly when it is an
/// IDR picture and the segment target has passed since the segment began.
/// The segment then lasts from its first to its last access unit, the next
/// segment begins at this access unit, and this access unit is its first
/// sample. Any other access unit joins the segment in progress.
pub proof fn lemma_segment_rolls_at_idr(
    m: SegmenterModel,
    nals: Seq<Seq<u8>>,
    is_idr: bool,
    pts: u64,
)
    requires
        m.current.is_some(),
        m.window >= 0,
        !init_due(m),
    ensures
        ({
            let b = m.current.unwrap();
            let after = push_step(m, nals, is_idr, pts).0;
            let rolls = is_idr && elapsed(pts, b.start_pts) >= m.target_duration;
            &&& after.current.is_some()
            &&& after.current.unwrap().part_samples.len() > 0
            &&& after.current.unwrap().part_samples.last() == sample_of(nals, is_idr, pts)
            &&& rolls ==> {
                &&& after.sequence == wrapped_next(m.sequence)
                &&& after.current.unwrap().seq == m.sequence
                &&& after.current.unwrap().start_pts == pts
                &&& after.current.unwrap().part_samples.len() == 1
                &&& after.current.unwrap().parts.len() == 0
                &&& m.window > 0 ==> after.segments.len() > 0 && after.segments.last().seq
                    == b.seq && after.segments.last().filename == b.filename
                    && after.segments.last().duration == (if b.last_pts > b.start_pts {
                    (b.last_pts - b.start_pts) as u64
                } else {
                    MIN_SEGMENT_TICKS
                })
            }
            &&& !rolls ==> {
                &&& after.segments == m.segments
                &&& after.sequence == m.sequence
                &&& after.current.unwrap().seq == b.seq
                &&& after.current.unwrap().start_pts == b.start_pts
            }
        }),
{
    let b = m.current.unwrap();
    let rolls = is_idr && elapsed(pts, b.start_pts) >= m.target_duration;
    if rolls {
        let r0 = SegmenterModel { current: None, ..m };
        let (r1, rb, _) = flush_step(r0, b);
        let all = r1.segments.push(completed(rb));
        let gone = overflow(all.len() as int, r1.window);
        let kept = all.skip(gone);
        if m.window > 0 {
            assert(kept.last() == all.last());
        }
    }
}

} // verus!

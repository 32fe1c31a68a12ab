//! What the HTTP boundary decides without touching a file or a socket:
//! byte ranges, whether a blocking playlist reload can be answered, content
//! types, and the status of a failed registry operation.

use std::collections::HashMap;
use vstd::prelude::*;
use vstd::slice::slice_to_vec;
use crate::numeral::{decimal, parse_bounded, parse_uint, push_decimal};
use crate::octets::append;
use crate::text::{
    ends_with, find, has_prefix, has_suffix, lit, search_from, split, split_first, split_on,
    split_once, starts_with, strip_prefix, trim, trimmed, views, without_prefix,
};

verus! {

broadcast use vstd::std_specs::hash::group_hash_axioms;

/// The two sides of the dash in `bytes=a-b`; none where the unit or the
/// dash is missing.
pub open spec fn range_sides(range: Seq<u8>) -> Option<(Seq<u8>, Seq<u8>)> {
    match without_prefix(range, lit("bytes=")) {
        Some(spec) => match split_first(spec, seq![45u8]).1 {
            Some(end) => Some((split_first(spec, seq![45u8]).0, end)),
            None => None,
        },
        None => None,
    }
}

/// The first and the last byte that a `Range` header asks for of a file of
/// `len` bytes.
///
/// `bytes=-n` asks for the last `n` bytes, `bytes=a-` for all from `a`,
/// `bytes=a-b` for `a` up to `b` or the end of the file. None where the
/// header cannot be read, where the file is empty, where `n` is zero, where
/// `a` lies past the end, or where `b` lies before `a`.
pub open spec fn range_of(range: Seq<u8>, len: int) -> Option<(int, int)> {
    match range_sides(range) {
        None => None,
        Some((first, last)) => if first.len() == 0 {
            match parse_uint(last, usize::MAX as nat) {
                Some(n) => if n == 0 || len == 0 {
                    None
                } else {
                    Some(
                        (
                            if n > len {
                                0
                            } else {
                                len - n
                            },
                            len - 1,
                        ),
                    )
                },
                None => None,
            }
        } else {
            match parse_uint(first, usize::MAX as nat) {
                None => None,
                Some(a) => if a >= len {
                    None
                } else if last.len() == 0 {
                    Some((a as int, len - 1))
                } else {
                    match parse_uint(last, usize::MAX as nat) {
                        None => None,
                        Some(b) => if b < a {
                            None
                        } else {
                            Some(
                                (
                                    a as int,
                                    if b > len - 1 {
                                        len - 1
                                    } else {
                                        b as int
                                    },
                                ),
                            )
                        },
                    }
                },
            }
        },
    }
}

/// Splits `bytes=a-b` at the dash.
fn split_range(range: &[u8]) -> (r: Option<(Vec<u8>, Vec<u8>)>)
    ensures
        match r {
            Some((a, b)) => range_sides(range@) == Some((a@, b@)),
            None => range_sides(range@).is_none(),
        },
{
    let spec = match strip_prefix(range, "bytes=".as_bytes()) {
        Some(s) => s,
        None => {
            return None;
        },
    };
    let dash: [u8; 1] = [45u8];
    assert(dash@ =~= seq![45u8]);
    let (first, last) = split_once(spec.as_slice(), dash.as_slice());
    match last {
        Some(l) => Some((first, l)),
        None => None,
    }
}

/// Reads a number that fits the machine word.
fn parse_usize(text: &[u8]) -> (r: Option<usize>)
    ensures
        match r {
            Some(n) => parse_uint(text@, usize::MAX as nat) == Some(n as nat),
            None => parse_uint(text@, usize::MAX as nat).is_none(),
        },
{
    match parse_bounded(text, usize::MAX as u64) {
        Some(n) => Some(n as usize),
        None => None,
    }
}

/// Reads a `Range` header against a file of `len` bytes: the first and the
/// last byte to send.
pub fn parse_range(range: &[u8], len: usize) -> (r: Option<(usize, usize)>)
    ensures
        match r {
            Some((a, b)) => range_of(range@, len as int) == Some((a as int, b as int)) && a <= b
                < len,
            None => range_of(range@, len as int).is_none(),
        },
{
    let (first, last) = match split_range(range) {
        Some(p) => p,
        None => {
            return None;
        },
    };
    if first.len() == 0 {
        let suffix = match parse_usize(last.as_slice()) {
            Some(n) => n,
            None => {
                return None;
            },
        };
        if suffix == 0 || len == 0 {
            return None;
        }
        let start: usize = if suffix > len { 0 } else { len - suffix };
        return Some((start, len - 1));
    }
    let start = match parse_usize(first.as_slice()) {
        Some(n) => n,
        None => {
            return None;
        },
    };
    if start >= len {
        return None;
    }
    if last.len() == 0 {
        return Some((start, len - 1));
    }
    let end = match parse_usize(last.as_slice()) {
        Some(n) => n,
        None => {
            return None;
        },
    };
    if end < start {
        return None;
    }
    Some((start, if end > len - 1 { len - 1 } else { end }))
}

/// The first byte that a `Range` header asks for, where it names one.
pub open spec fn range_start_of(range: Seq<u8>) -> Option<nat> {
    match without_prefix(range, lit("bytes=")) {
        Some(spec) => {
            let first = split_first(spec, seq![45u8]).0;
            if first.len() == 0 {
                None
            } else {
                parse_uint(first, usize::MAX as nat)
            }
        },
        None => None,
    }
}

/// Reads the first byte that a `Range` header asks for, whatever the length
/// of the file.
pub fn parse_range_start(range: &[u8]) -> (r: Option<usize>)
    ensures
        match r {
            Some(a) => range_start_of(range@) == Some(a as nat),
            None => range_start_of(range@).is_none(),
        },
{
    let spec = match strip_prefix(range, "bytes=".as_bytes()) {
        Some(s) => s,
        None => {
            return None;
        },
    };
    let dash: [u8; 1] = [45u8];
    assert(dash@ =~= seq![45u8]);
    let (first, _last) = split_once(spec.as_slice(), dash.as_slice());
    if first.len() == 0 {
        return None;
    }
    parse_usize(first.as_slice())
}

/// How to answer a request for a file of `len` bytes.
#[derive(Debug, Clone, Copy, PartialEq, Eq)]
pub enum RangeDecision {
    /// Send the whole file with status 200.
    Full,
    /// Send the bytes from the first to the second with status 206.
    Partial(usize, usize),
    /// The range begins past the end of a segment that may still grow:
    /// look again until the file reaches this byte or time runs out.
    Wait(usize),
    /// Answer 416.
    NotSatisfiable,
}

/// The answer to a request for the file `name` of `len` bytes.
///
/// Without a `Range` header the whole file is sent. A range that can be
/// read is sent. A range that begins at or past the end of a media segment
/// is waited for while the caller still has time; any other range is not
/// satisfiable.
pub open spec fn range_decision(
    name: Seq<u8>,
    range: Option<Seq<u8>>,
    len: int,
    may_wait: bool,
) -> RangeDecision {
    match range {
        None => RangeDecision::Full,
        Some(h) => match range_of(h, len) {
            Some((a, b)) => RangeDecision::Partial(a as usize, b as usize),
            None => if may_wait && has_suffix(name, lit(".m4s")) && range_start_of(h).is_some()
                && range_start_of(h).unwrap() >= len {
                RangeDecision::Wait(range_start_of(h).unwrap() as usize)
            } else {
                RangeDecision::NotSatisfiable
            },
        },
    }
}

/// Decides how to answer a request for the file `name` of `len` bytes.
/// `may_wait` says whether the caller still has time to wait for a segment
/// to grow.
pub fn decide_range(name: &[u8], range: Option<&[u8]>, len: usize, may_wait: bool) -> (r:
    RangeDecision)
    ensures
        r == range_decision(
            name@,
            match range {
                Some(h) => Some(h@),
                None => None,
            },
            len as int,
            may_wait,
        ),
{
    let header = match range {
        Some(h) => h,
        None => {
            return RangeDecision::Full;
        },
    };
    match parse_range(header, len) {
        Some((a, b)) => RangeDecision::Partial(a, b),
        None => {
            if may_wait && ends_with(name, ".m4s".as_bytes()) {
                match parse_range_start(header) {
                    Some(start) => {
                        if start >= len {
                            return RangeDecision::Wait(start);
                        }
                    },
                    None => {},
                }
            }
            RangeDecision::NotSatisfiable
        },
    }
}

/// The content type of a file by its name: `video/mp4` for `.m4s` and
/// `.mp4`.
pub open spec fn content_type_of(name: Seq<u8>) -> Seq<u8> {
    if has_suffix(name, lit(".m4s")) || has_suffix(name, lit(".mp4")) {
        lit("video/mp4")
    } else {
        lit("application/octet-stream")
    }
}

/// The content type of a file by its name.
pub fn content_type(name: &[u8]) -> (r: Vec<u8>)
    ensures
        r@ == content_type_of(name@),
{
    if ends_with(name, ".m4s".as_bytes()) || ends_with(name, ".mp4".as_bytes()) {
        slice_to_vec("video/mp4".as_bytes())
    } else {
        slice_to_vec("application/octet-stream".as_bytes())
    }
}

/// The `Content-Range` of a partial answer: `bytes a-b/len`.
pub open spec fn content_range_text(first: nat, last: nat, len: nat) -> Seq<u8> {
    lit("bytes ") + decimal(first) + lit("-") + decimal(last) + lit("/") + decimal(len)
}

/// Writes the `Content-Range` of a partial answer.
pub fn content_range(first: usize, last: usize, len: usize) -> (r: Vec<u8>)
    ensures
        r@ == content_range_text(first as nat, last as nat, len as nat),
{
    let mut out: Vec<u8> = Vec::new();
    append(&mut out, "bytes ".as_bytes());
    push_decimal(&mut out, first as u64);
    append(&mut out, "-".as_bytes());
    push_decimal(&mut out, last as u64);
    append(&mut out, "/".as_bytes());
    push_decimal(&mut out, len as u64);
    assert(out@ =~= content_range_text(first as nat, last as nat, len as nat));
    out
}

/// The `Content-Range` of an answer to a range that cannot be satisfied:
/// `bytes */len`.
pub open spec fn unsatisfied_range_text(len: nat) -> Seq<u8> {
    lit("bytes */") + decimal(len)
}

/// Writes the `Content-Range` of an answer to a range that cannot be
/// satisfied.
pub fn unsatisfied_range(len: usize) -> (r: Vec<u8>)
    ensures
        r@ == unsatisfied_range_text(len as nat),
{
    let mut out: Vec<u8> = Vec::new();
    append(&mut out, "bytes */".as_bytes());
    push_decimal(&mut out, len as u64);
    assert(out@ =~= unsatisfied_range_text(len as nat));
    out
}

/// Whether a file name stays inside its directory: it holds no slash and no
/// two dots in a row.
pub open spec fn is_plain_name(name: Seq<u8>) -> bool {
    find(name, seq![47u8]).is_none() && find(name, seq![46u8, 46u8]).is_none()
}

/// Tests whether a file name stays inside its directory.
pub fn is_safe_segment_name(name: &[u8]) -> (r: bool)
    ensures
        r == is_plain_name(name@),
{
    let slash: [u8; 1] = [47u8];
    let dots: [u8; 2] = [46u8, 46u8];
    assert(slash@ =~= seq![47u8]);
    assert(dots@ =~= seq![46u8, 46u8]);
    search_from(name, slash.as_slice(), 0).is_none() && search_from(name, dots.as_slice(), 0).is_none()
}

/// What a playlist says about the segments and parts that it lists.
pub struct LlPlaylistIndex {
    /// The number of the first segment listed.
    pub media_sequence: u64,
    /// The number of parts of each complete segment.
    pub parts_by_seq: HashMap<u64, u32>,
    /// The number of the segment in progress.
    pub in_progress_seq: u64,
    /// The number of parts of the segment in progress.
    pub in_progress_parts: u32,
    /// The number of the last complete segment.
    pub last_complete_seq: Option<u64>,
}

/// The reading of a playlist, line by line.
pub struct IndexScan {
    pub media_sequence: Option<u64>,
    pub current_seq: u64,
    pub part_count: u32,
    pub parts_by_seq: Map<u64, u32>,
    pub last_complete_seq: Option<u64>,
}

/// The number after `n`; it stops at the largest.
pub open spec fn capped_next(n: u64) -> u64 {
    if n == 0xFFFF_FFFF_FFFF_FFFF {
        n
    } else {
        (n + 1) as u64
    }
}

/// The reading after one line, trimmed.
///
/// `#EXT-X-MEDIA-SEQUENCE:n` sets the number of the segment that the lines
/// after it belong to. `#EXT-X-PART:` counts a part. Any other line that
/// begins with `#` says nothing. Any other line names a segment file: the
/// segment is complete with the parts counted, and the next segment begins.
pub open spec fn index_line(s: IndexScan, line: Seq<u8>) -> IndexScan {
    if line.len() == 0 {
        s
    } else if has_prefix(line, lit("#EXT-X-MEDIA-SEQUENCE:")) {
        match parse_uint(
            trimmed(line.skip(lit("#EXT-X-MEDIA-SEQUENCE:").len() as int)),
            0xFFFF_FFFF_FFFF_FFFF,
        ) {
            Some(n) => IndexScan {
                media_sequence: Some(n as u64),
                current_seq: n as u64,
                part_count: 0,
                ..s
            },
            None => s,
        }
    } else if has_prefix(line, lit("#EXT-X-PART:")) {
        IndexScan {
            part_count: if s.part_count == 0xFFFF_FFFF {
                s.part_count
            } else {
                (s.part_count + 1) as u32
            },
            ..s
        }
    } else if line[0] == 35 {
        s
    } else if s.media_sequence.is_some() {
        IndexScan {
            parts_by_seq: s.parts_by_seq.insert(s.current_seq, s.part_count),
            last_complete_seq: Some(s.current_seq),
            current_seq: capped_next(s.current_seq),
            part_count: 0,
            ..s
        }
    } else {
        s
    }
}

/// The reading after the first `n` lines.
pub open spec fn index_scan(lines: Seq<Seq<u8>>, n: int) -> IndexScan
    decreases n,
{
    if n <= 0 {
        IndexScan {
            media_sequence: None,
            current_seq: 0,
            part_count: 0,
            parts_by_seq: Map::empty(),
            last_complete_seq: None,
        }
    } else {
        index_line(index_scan(lines, n - 1), trimmed(lines[n - 1]))
    }
}

/// The reading of a whole playlist.
pub open spec fn index_of(playlist: Seq<u8>) -> IndexScan {
    let lines = split_on(playlist, seq![10u8]);
    index_scan(lines, lines.len() as int)
}

/// Reads what a playlist says about its segments and parts. None where the
/// playlist names no media sequence.
pub fn parse_ll_playlist(playlist: &[u8]) -> (r: Option<LlPlaylistIndex>)
    ensures
        match r {
            Some(index) => {
                let s = index_of(playlist@);
                &&& s.media_sequence == Some(index.media_sequence)
                &&& index.parts_by_seq@ == s.parts_by_seq
                &&& index.in_progress_seq == s.current_seq
                &&& index.in_progress_parts == s.part_count
                &&& index.last_complete_seq == s.last_complete_seq
            },
            None => index_of(playlist@).media_sequence.is_none(),
        },
{
    let feed: [u8; 1] = [10u8];
    assert(feed@ =~= seq![10u8]);
    let lines = split(playlist, feed.as_slice());
    let ghost all = views(lines@);
    let mut media_sequence: Option<u64> = None;
    let mut current_seq: u64 = 0;
    let mut part_count: u32 = 0;
    let mut parts_by_seq: HashMap<u64, u32> = HashMap::new();
    let mut last_complete_seq: Option<u64> = None;
    let mut i: usize = 0;
    while i < lines.len()
        invariant
            i <= lines@.len(),
            all == views(lines@),
            index_scan(all, i as int) == (IndexScan {
                media_sequence,
                current_seq,
                part_count,
                parts_by_seq: parts_by_seq@,
                last_complete_seq,
            }),
        decreases lines@.len() - i,
    {
        assert(all[i as int] == lines@[i as int]@);
        let line = trim(lines[i].as_slice());
        i += 1;
        if line.len() == 0 {
            continue ;
        }
        let tag = "#EXT-X-MEDIA-SEQUENCE:".as_bytes();
        if starts_with(line.as_slice(), tag) {
            let rest = vstd::slice::slice_subrange(line.as_slice(), tag.len(), line.len());
            assert(rest@ =~= line@.skip(lit("#EXT-X-MEDIA-SEQUENCE:").len() as int));
            let value = trim(rest);
            match parse_bounded(value.as_slice(), 0xFFFF_FFFF_FFFF_FFFF) {
                Some(n) => {
                    media_sequence = Some(n);
                    current_seq = n;
                    part_count = 0;
                },
                None => {},
            }
            continue ;
        }
        if starts_with(line.as_slice(), "#EXT-X-PART:".as_bytes()) {
            if part_count < 0xFFFF_FFFF {
                part_count = part_count + 1;
            }
            continue ;
        }
        if line[0] == 35 {
            continue ;
        }
        if media_sequence.is_some() {
            parts_by_seq.insert(current_seq, part_count);
            last_complete_seq = Some(current_seq);
            if current_seq < 0xFFFF_FFFF_FFFF_FFFF {
                current_seq = current_seq + 1;
            }
            part_count = 0;
        }
    }
    match media_sequence {
        Some(m) => Some(
            LlPlaylistIndex {
                media_sequence: m,
                parts_by_seq,
                in_progress_seq: current_seq,
                in_progress_parts: part_count,
                last_complete_seq,
            },
        ),
        None => None,
    }
}

/// Whether a playlist answers a blocking reload for segment `msn` and,
/// where one is named, part `part` of it.
///
/// A playlist that names no media sequence answers every request, as does a
/// request for a segment before the first one listed. A request for a whole
/// segment is answered once that segment is complete. A request for a part
/// is answered once the segment lists more parts than the number of that
/// part.
pub open spec fn reload_ready(playlist: Seq<u8>, msn: u64, part: Option<u32>) -> bool {
    let s = index_of(playlist);
    match s.media_sequence {
        None => true,
        Some(first) => if msn < first {
            true
        } else {
            match part {
                None => match s.last_complete_seq {
                    Some(last) => msn <= last,
                    None => false,
                },
                Some(p) => if msn == s.current_seq {
                    p < s.part_count
                } else if s.parts_by_seq.contains_key(msn) {
                    p < s.parts_by_seq[msn]
                } else {
                    false
                },
            }
        },
    }
}

/// Tests whether a playlist answers a blocking reload.
pub fn ll_request_ready(playlist: &[u8], msn: u64, part: Option<u32>) -> (r: bool)
    ensures
        r == reload_ready(playlist@, msn, part),
{
    let index = match parse_ll_playlist(playlist) {
        Some(index) => index,
        None => {
            return true;
        },
    };
    if msn < index.media_sequence {
        return true;
    }
    match part {
        None => match index.last_complete_seq {
            Some(last) => msn <= last,
            None => false,
        },
        Some(p) => {
            if msn == index.in_progress_seq {
                return p < index.in_progress_parts;
            }
            match index.parts_by_seq.get(&msn) {
                Some(count) => p < *count,
                None => false,
            }
        },
    }
}

/// How to answer a request for the playlist.
#[derive(Debug, Clone, Copy, PartialEq, Eq)]
pub enum ReloadDecision {
    /// Send the playlist as it stands.
    Answer,
    /// The playlist does not hold what is asked for yet: look again in a
    /// while.
    Wait,
}

/// The answer to a request for the playlist.
///
/// A request that names no segment is answered at once. A request that
/// names a segment, and perhaps a part of it, waits until the playlist
/// holds what it names or the caller has no more time.
pub open spec fn reload_decision(
    playlist: Seq<u8>,
    msn: Option<u64>,
    part: Option<u32>,
    may_wait: bool,
) -> ReloadDecision {
    match msn {
        Some(m) => if !reload_ready(playlist, m, part) && may_wait {
            ReloadDecision::Wait
        } else {
            ReloadDecision::Answer
        },
        None => ReloadDecision::Answer,
    }
}

/// Decides how to answer a request for the playlist. `may_wait` says
/// whether the caller still has time to wait for the playlist to grow.
pub fn decide_reload(playlist: &[u8], msn: Option<u64>, part: Option<u32>, may_wait: bool) -> (r:
    ReloadDecision)
    ensures
        r == reload_decision(playlist@, msn, part, may_wait),
{
    match msn {
        Some(m) => {
            if !may_wait {
                return ReloadDecision::Answer;
            }
            if ll_request_ready(playlist, m, part) {
                ReloadDecision::Answer
            } else {
                ReloadDecision::Wait
            }
        },
        None => ReloadDecision::Answer,
    }
}

/// The status of a registry operation that failed with `message`: 409 for
/// a broken uniqueness constraint, 400 for a missing field, else 500.
pub open spec fn error_status(message: Seq<u8>) -> u16 {
    if find(message, lit("UNIQUE constraint failed")).is_some() {
        409
    } else if find(message, lit("required")).is_some() {
        400
    } else {
        500
    }
}

/// The status of a registry operation that failed with `message`.
pub fn db_error_status(message: &[u8]) -> (r: u16)
    ensures
        r == error_status(message@),
{
    if search_from(message, "UNIQUE constraint failed".as_bytes(), 0).is_some() {
        409
    } else if search_from(message, "required".as_bytes(), 0).is_some() {
        400
    } else {
        500
    }
}

/// Why a command is refused.
#[derive(Debug, Clone, Copy, PartialEq, Eq)]
pub enum CommandRefusal {
    /// The printer is not connected.
    NotConnected,
    /// The command queue is closed or full.
    QueueUnavailable,
}

/// The answer to a posted command: accepted, or refused with status 503.
pub open spec fn command_outcome(connected: bool, queued: bool) -> Option<CommandRefusal> {
    if !connected {
        Some(CommandRefusal::NotConnected)
    } else if !queued {
        Some(CommandRefusal::QueueUnavailable)
    } else {
        None
    }
}

/// Decides the answer to a posted command from whether the printer is
/// connected and whether the queue took the command.
pub fn command_refusal(connected: bool, queued: bool) -> (r: Option<CommandRefusal>)
    ensures
        r == command_outcome(connected, queued),
{
    if !connected {
        Some(CommandRefusal::NotConnected)
    } else if !queued {
        Some(CommandRefusal::QueueUnavailable)
    } else {
        None
    }
}

/// The body of an error answer.
#[derive(Debug, Clone)]
pub struct ErrorResponse {
    pub error: Vec<u8>,
}

impl ErrorResponse {
    /// An error answer with the given message.
    pub fn new(message: &[u8]) -> (r: Self)
        ensures
            r.error@ == message@,
    {
        ErrorResponse { error: slice_to_vec(message) }
    }
}

} // verus!

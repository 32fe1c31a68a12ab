//! The RTSP wire format as it arrives over one TCP connection: text
//! responses, interleaved with binary frames that carry RTP.
//!
//! A binary frame begins with `$`, a channel byte and a 16-bit big-endian
//! length. Anything else is a response: a status line and header lines that
//! end at an empty line, followed by as many body bytes as `Content-Length`
//! says.

use vstd::prelude::*;
use crate::numeral::{parse_bounded, parse_uint};
use crate::octets::{be16, copy_range, read_be16};
use crate::text::{
    bytes_eq, find, lemma_find_from, lit, lowercase, search_from, split, split_first, split_on,
    split_once, to_lowercase, trim, trimmed, views,
};

verus! {

/// One header line: the name in lower case, and the value.
#[derive(Debug, Clone)]
pub struct Header {
    pub name: Vec<u8>,
    pub value: Vec<u8>,
}

/// A response of the server.
#[derive(Debug, Clone)]
pub struct RtspResponse {
    pub status_code: u16,
    pub reason_phrase: Vec<u8>,
    /// The header lines in the order of arrival, names in lower case.
    pub headers: Vec<Header>,
    pub body: Vec<u8>,
}

/// What the parser hands out.
#[derive(Debug)]
pub enum RtspEvent {
    Response(RtspResponse),
    Interleaved { channel: u8, payload: Vec<u8> },
}

/// What a response holds.
pub struct ResponseModel {
    pub status_code: u16,
    pub reason_phrase: Seq<u8>,
    pub headers: Seq<(Seq<u8>, Seq<u8>)>,
    pub body: Seq<u8>,
}

/// What an event holds.
pub enum EventModel {
    Response(ResponseModel),
    Interleaved { channel: u8, payload: Seq<u8> },
}

/// The name and value of each header.
pub open spec fn header_views(headers: Seq<Header>) -> Seq<(Seq<u8>, Seq<u8>)> {
    Seq::new(headers.len(), |i: int| (headers[i].name@, headers[i].value@))
}

impl View for RtspResponse {
    type V = ResponseModel;

    open spec fn view(&self) -> ResponseModel {
        ResponseModel {
            status_code: self.status_code,
            reason_phrase: self.reason_phrase@,
            headers: header_views(self.headers@),
            body: self.body@,
        }
    }
}

impl View for RtspEvent {
    type V = EventModel;

    open spec fn view(&self) -> EventModel {
        match self {
            RtspEvent::Response(r) => EventModel::Response(r@),
            RtspEvent::Interleaved { channel, payload } => EventModel::Interleaved {
                channel: *channel,
                payload: payload@,
            },
        }
    }
}

/// The models of a list of events.
pub open spec fn event_views(events: Seq<RtspEvent>) -> Seq<EventModel> {
    Seq::new(events.len(), |i: int| events[i]@)
}

/// The value of the last of the first `n` headers that is named `name`.
pub open spec fn header_value(headers: Seq<(Seq<u8>, Seq<u8>)>, name: Seq<u8>, n: int) -> Option<
    Seq<u8>,
>
    decreases n,
{
    if n <= 0 {
        None
    } else if headers[n - 1].0 == name {
        Some(headers[n - 1].1)
    } else {
        header_value(headers, name, n - 1)
    }
}

impl ResponseModel {
    /// The value of the header `name`, whatever its case. Where a header
    /// occurs more than once, the last occurrence counts.
    pub open spec fn header(self, name: Seq<u8>) -> Option<Seq<u8>> {
        header_value(self.headers, lowercase(name), self.headers.len() as int)
    }

    /// The sequence number that the response answers.
    pub open spec fn cseq(self) -> Option<u32> {
        match self.header(lit("cseq")) {
            Some(v) => match parse_uint(v, 0xFFFF_FFFF) {
                Some(n) => Some(n as u32),
                None => None,
            },
            None => None,
        }
    }
}

/// Carriage return, line feed.
pub open spec fn crlf() -> Seq<u8> {
    seq![13u8, 10u8]
}

/// The empty line that ends a header block.
pub open spec fn blank_line() -> Seq<u8> {
    seq![13u8, 10u8, 13u8, 10u8]
}

/// A single space.
pub open spec fn space() -> Seq<u8> {
    seq![32u8]
}

/// A single colon.
pub open spec fn colon() -> Seq<u8> {
    seq![58u8]
}

/// The status code and the reason phrase of a status line
/// `protocol code reason`. The reason may be missing; the code must be a
/// decimal below 65536.
pub open spec fn status_of(line: Seq<u8>) -> Option<(u16, Seq<u8>)> {
    match split_first(line, space()).1 {
        None => None,
        Some(rest) => {
            let (code, reason) = split_first(rest, space());
            match parse_uint(code, 0xFFFF) {
                None => None,
                Some(n) => Some(
                    (
                        n as u16,
                        match reason {
                            Some(r) => r,
                            None => Seq::empty(),
                        },
                    ),
                ),
            }
        },
    }
}

/// The name and value of a header line `name: value`: the name trimmed and
/// in lower case, the value trimmed. A line without a colon is a name
/// without a value.
pub open spec fn header_of(line: Seq<u8>) -> (Seq<u8>, Seq<u8>) {
    let (name, value) = split_first(line, colon());
    (
        lowercase(trimmed(name)),
        match value {
            Some(v) => trimmed(v),
            None => Seq::empty(),
        },
    )
}

/// Those of the first `n` lines that are not empty.
pub open spec fn filled_lines(lines: Seq<Seq<u8>>, n: int) -> Seq<Seq<u8>>
    decreases n,
{
    if n <= 0 {
        Seq::empty()
    } else if lines[n - 1].len() > 0 {
        filled_lines(lines, n - 1).push(lines[n - 1])
    } else {
        filled_lines(lines, n - 1)
    }
}

/// The lines of a header block, empty lines left out.
pub open spec fn head_lines(head: Seq<u8>) -> Seq<Seq<u8>> {
    let lines = split_on(head, crlf());
    filled_lines(lines, lines.len() as int)
}

/// The headers that the lines after the first spell.
pub open spec fn headers_of(lines: Seq<Seq<u8>>) -> Seq<(Seq<u8>, Seq<u8>)> {
    Seq::new((lines.len() - 1) as nat, |i: int| header_of(lines[i + 1]))
}

/// The body length that the headers announce, when it is at most `max`;
/// zero otherwise.
pub open spec fn content_length(headers: Seq<(Seq<u8>, Seq<u8>)>, max: int) -> int {
    match header_value(headers, lit("content-length"), headers.len() as int) {
        Some(v) => if max >= 0 {
            match parse_uint(v, max as nat) {
                Some(n) => n as int,
                None => 0,
            }
        } else {
            0
        },
        None => 0,
    }
}

/// What stands at the front of a buffer.
pub enum Frame {
    /// The frame is not complete yet.
    Incomplete,
    /// A frame of this many bytes that is dropped: a response with a
    /// malformed status line or without a sequence number.
    Dropped(int),
    /// A frame of this many bytes.
    Event(EventModel, int),
}

/// The response frame at the front of `buf`.
pub open spec fn response_frame(buf: Seq<u8>) -> Frame {
    match find(buf, blank_line()) {
        None => Frame::Incomplete,
        Some(end) => {
            let lines = head_lines(buf.take(end));
            if lines.len() == 0 || status_of(lines[0]).is_none() {
                Frame::Dropped(end + 4)
            } else {
                let headers = headers_of(lines);
                let total = end + 4 + content_length(headers, usize::MAX - end - 4);
                let response = ResponseModel {
                    status_code: status_of(lines[0]).unwrap().0,
                    reason_phrase: status_of(lines[0]).unwrap().1,
                    headers,
                    body: buf.subrange(end + 4, total),
                };
                if buf.len() < total {
                    Frame::Incomplete
                } else if response.cseq().is_none() {
                    Frame::Dropped(total)
                } else {
                    Frame::Event(EventModel::Response(response), total)
                }
            }
        },
    }
}

/// The frame at the front of `buf`.
pub open spec fn next_frame(buf: Seq<u8>) -> Frame {
    if buf.len() == 0 {
        Frame::Incomplete
    } else if buf[0] == 0x24 {
        if buf.len() < 4 || buf.len() < 4 + be16(buf[2], buf[3]) {
            Frame::Incomplete
        } else {
            Frame::Event(
                EventModel::Interleaved {
                    channel: buf[1],
                    payload: buf.subrange(4, 4 + be16(buf[2], buf[3])),
                },
                4 + be16(buf[2], buf[3]),
            )
        }
    } else {
        response_frame(buf)
    }
}

/// The events at the front of `buf`, in order, and the bytes that are left:
/// the beginning of a frame that is not complete yet.
pub open spec fn drained(buf: Seq<u8>) -> (Seq<EventModel>, Seq<u8>)
    decreases buf.len(),
{
    match next_frame(buf) {
        Frame::Incomplete => (Seq::empty(), buf),
        Frame::Dropped(n) => if 0 < n <= buf.len() {
            drained(buf.skip(n))
        } else {
            (Seq::empty(), buf)
        },
        Frame::Event(e, n) => if 0 < n <= buf.len() {
            (seq![e] + drained(buf.skip(n)).0, drained(buf.skip(n)).1)
        } else {
            (Seq::empty(), buf)
        },
    }
}

impl RtspResponse {
    /// The value of the header `name`, whatever its case.
    pub fn header(&self, name: &[u8]) -> (r: Option<&Vec<u8>>)
        ensures
            match r {
                Some(v) => self@.header(name@) == Some(v@),
                None => self@.header(name@).is_none(),
            },
    {
        let wanted = to_lowercase(name);
        let mut n: usize = self.headers.len();
        while n > 0
            invariant
                n <= self.headers@.len(),
                wanted@ == lowercase(name@),
                self@.header(name@) == header_value(self@.headers, wanted@, n as int),
            decreases n,
        {
            if bytes_eq(self.headers[n - 1].name.as_slice(), wanted.as_slice()) {
                return Some(&self.headers[n - 1].value);
            }
            n -= 1;
        }
        None
    }

    /// The sequence number that the response answers: the value of its
    /// `CSeq` header, when that is a decimal below 2^32.
    pub fn cseq(&self) -> (r: Option<u32>)
        ensures
            r == self@.cseq(),
    {
        match self.header("cseq".as_bytes()) {
            Some(v) => match parse_bounded(v.as_slice(), 0xFFFF_FFFF) {
                Some(n) => Some(n as u32),
                None => None,
            },
            None => None,
        }
    }
}

/// Reads a status line.
fn parse_status(line: &[u8]) -> (r: Option<(u16, Vec<u8>)>)
    ensures
        match r {
            Some((code, reason)) => status_of(line@) == Some((code, reason@)),
            None => status_of(line@).is_none(),
        },
{
    let sp: [u8; 1] = [32u8];
    assert(sp@ =~= space());
    let (_proto, rest) = split_once(line, sp.as_slice());
    match rest {
        None => None,
        Some(rest) => {
            let (code, reason) = split_once(rest.as_slice(), sp.as_slice());
            match parse_bounded(code.as_slice(), 0xFFFF) {
                None => None,
                Some(n) => {
                    let reason: Vec<u8> = match reason {
                        Some(r) => r,
                        None => Vec::new(),
                    };
                    Some((n as u16, reason))
                },
            }
        },
    }
}

/// Reads a header line.
fn parse_header(line: &[u8]) -> (r: Header)
    ensures
        (r.name@, r.value@) == header_of(line@),
{
    let sep: [u8; 1] = [58u8];
    assert(sep@ =~= colon());
    let (name, value) = split_once(line, sep.as_slice());
    let trimmed_name = trim(name.as_slice());
    let name = to_lowercase(trimmed_name.as_slice());
    let value: Vec<u8> = match value {
        Some(v) => trim(v.as_slice()),
        None => Vec::new(),
    };
    Header { name, value }
}

/// The status line and the headers of a header block.
#[verifier::rlimit(40)]
fn parse_head(head: &[u8]) -> (r: Option<(u16, Vec<u8>, Vec<Header>)>)
    ensures
        match r {
            Some((code, reason, headers)) => {
                let lines = head_lines(head@);
                lines.len() > 0 && status_of(lines[0]) == Some((code, reason@)) && header_views(
                    headers@,
                ) == headers_of(lines)
            },
            None => head_lines(head@).len() == 0 || status_of(head_lines(head@)[0]).is_none(),
        },
{
    let sep: [u8; 2] = [13u8, 10u8];
    assert(sep@ =~= crlf());
    let lines = split(head, sep.as_slice());
    let ghost all = views(lines@);
    let mut status: Option<(u16, Vec<u8>)> = None;
    let mut headers: Vec<Header> = Vec::new();
    let mut i: usize = 0;
    while i < lines.len()
        invariant
            i <= lines@.len(),
            all == views(lines@),
            all == split_on(head@, crlf()),
            match status {
                None => filled_lines(all, i as int).len() == 0 && headers@.len() == 0,
                Some((code, reason)) => {
                    let seen = filled_lines(all, i as int);
                    seen.len() > 0 && status_of(seen[0]) == Some((code, reason@)) && header_views(
                        headers@,
                    ) == headers_of(seen)
                },
            },
        decreases lines@.len() - i,
    {
        let ghost seen = filled_lines(all, i as int);
        let ghost line = all[i as int];
        assert(line == lines@[i as int]@);
        if lines[i].len() > 0 {
            match status {
                None => {
                    match parse_status(lines[i].as_slice()) {
                        Some(s) => {
                            status = Some(s);
                            assert(seen.push(line)[0] == line);
                            assert(header_views(headers@) =~= headers_of(seen.push(line)));
                        },
                        None => {
                            proof {
                                lemma_filled_prefix(all, i as int + 1, all.len() as int);
                                assert(seen.push(line)[0] == line);
                            }
                            return None;
                        },
                    }
                },
                Some(_) => {
                    let h = parse_header(lines[i].as_slice());
                    let ghost before = headers@;
                    headers.push(h);
                    assert(header_views(headers@) =~= headers_of(seen.push(line))) by {
                        assert(header_views(before) == headers_of(seen));
                        assert forall|k: int| 0 <= k < headers@.len() implies header_views(
                            headers@,
                        )[k] == headers_of(seen.push(line))[k] by {
                            if k < before.len() {
                                assert(header_views(before)[k] == headers_of(seen)[k]);
                            }
                        }
                    }
                    assert(seen.push(line)[0] == seen[0]);
                },
            }
        }
        i += 1;
    }
    match status {
        Some((code, reason)) => Some((code, reason, headers)),
        None => None,
    }
}

/// The filled lines among the first `n` begin with those among the first `k`.
proof fn lemma_filled_prefix(lines: Seq<Seq<u8>>, k: int, n: int)
    requires
        0 <= k <= n,
    ensures
        filled_lines(lines, k).len() <= filled_lines(lines, n).len(),
        forall|j: int|
            0 <= j < filled_lines(lines, k).len() ==> filled_lines(lines, n)[j] == filled_lines(
                lines,
                k,
            )[j],
    decreases n - k,
{
    if k < n {
        lemma_filled_prefix(lines, k, n - 1);
    }
}

/// What stands at the front of a buffer, as the parser finds it.
enum Parsed {
    Incomplete,
    Dropped(usize),
    Event(RtspEvent, usize),
}

/// Whether `p` is the frame `f`, and within `len` bytes.
spec fn parsed_is(p: Parsed, f: Frame, len: int) -> bool {
    match p {
        Parsed::Incomplete => f is Incomplete,
        Parsed::Dropped(n) => f == Frame::Dropped(n as int) && 0 < n <= len,
        Parsed::Event(e, n) => f == Frame::Event(e@, n as int) && 0 < n <= len,
    }
}

/// Offset of the empty line that ends the header block.
fn find_double_crlf(buffer: &[u8]) -> (r: Option<usize>)
    ensures
        match r {
            Some(i) => find(buffer@, blank_line()) == Some(i as int) && i + 4 <= buffer@.len(),
            None => find(buffer@, blank_line()).is_none(),
        },
{
    let pat: [u8; 4] = [13u8, 10u8, 13u8, 10u8];
    assert(pat@ =~= blank_line());
    proof {
        lemma_find_from(buffer@, blank_line(), 0);
    }
    search_from(buffer, pat.as_slice(), 0)
}

/// The body length that the headers announce, when it is at most `max`.
fn body_length(headers: &Vec<Header>, max: usize) -> (r: usize)
    ensures
        r == content_length(header_views(headers@), max as int),
        r <= max,
{
    let mut n: usize = headers.len();
    let ghost hv = header_views(headers@);
    while n > 0
        invariant
            n <= headers@.len(),
            hv == header_views(headers@),
            header_value(hv, lit("content-length"), hv.len() as int) == header_value(
                hv,
                lit("content-length"),
                n as int,
            ),
        decreases n,
    {
        if bytes_eq(headers[n - 1].name.as_slice(), "content-length".as_bytes()) {
            return match parse_bounded(headers[n - 1].value.as_slice(), max as u64) {
                Some(v) => v as usize,
                None => 0,
            };
        }
        n -= 1;
    }
    0
}

/// The interleaved frame at the front of `rest`, which begins with `$`.
fn extract_interleaved(rest: &[u8]) -> (r: Parsed)
    requires
        rest@.len() > 0,
        rest@[0] == 0x24,
    ensures
        parsed_is(r, next_frame(rest@), rest@.len() as int),
{
    if rest.len() < 4 {
        return Parsed::Incomplete;
    }
    let channel: u8 = rest[1];
    let length: usize = read_be16(rest[2], rest[3]) as usize;
    if rest.len() - 4 < length {
        return Parsed::Incomplete;
    }
    let total: usize = 4 + length;
    let payload = copy_range(rest, 4, total);
    Parsed::Event(RtspEvent::Interleaved { channel, payload }, total)
}

/// The response frame at the front of `rest`.
fn extract_response(rest: &[u8]) -> (r: Parsed)
    ensures
        parsed_is(r, response_frame(rest@), rest@.len() as int),
{
    let available: usize = rest.len();
    let end: usize = match find_double_crlf(rest) {
        Some(i) => i,
        None => {
            return Parsed::Incomplete;
        },
    };
    let head = vstd::slice::slice_subrange(rest, 0, end);
    assert(head@ =~= rest@.take(end as int));
    match parse_head(head) {
        None => Parsed::Dropped(end + 4),
        Some((status_code, reason_phrase, headers)) => {
            let length: usize = body_length(&headers, usize::MAX - end - 4);
            let total: usize = end + 4 + length;
            if rest.len() < total {
                return Parsed::Incomplete;
            }
            let body = copy_range(rest, end + 4, total);
            let response = RtspResponse { status_code, reason_phrase, headers, body };
            if response.cseq().is_none() {
                return Parsed::Dropped(total);
            }
            Parsed::Event(RtspEvent::Response(response), total)
        },
    }
}

/// The frame at the front of `rest`.
fn frame_at(rest: &[u8]) -> (r: Parsed)
    ensures
        parsed_is(r, next_frame(rest@), rest@.len() as int),
{
    if rest.len() == 0 {
        Parsed::Incomplete
    } else if rest[0] == 0x24 {
        extract_interleaved(rest)
    } else {
        extract_response(rest)
    }
}

/// Splits the bytes of a connection into events, keeping what is left of an
/// incomplete frame until more bytes arrive.
pub struct RtspStreamParser {
    buffer: Vec<u8>,
}

/// The models of a list with one more event are the models of the list with
/// the model of that event.
pub proof fn lemma_event_views_push(events: Seq<RtspEvent>, e: RtspEvent)
    ensures
        event_views(events.push(e)) == event_views(events).push(e@),
{
    assert(event_views(events.push(e)) =~= event_views(events).push(e@));
}

impl RtspStreamParser {
    /// The bytes that have arrived and belong to no complete frame yet.
    pub closed spec fn pending(&self) -> Seq<u8> {
        self.buffer@
    }

    /// A parser that holds no bytes.
    pub fn new() -> (r: Self)
        ensures
            r.pending() == Seq::<u8>::empty(),
    {
        RtspStreamParser { buffer: Vec::new() }
    }

    /// Takes in the next bytes of the connection and hands out the events
    /// that are now complete, in order of arrival. What is left is the
    /// beginning of a frame that is not complete yet.
    #[verifier::rlimit(40)]
    pub fn append(&mut self, data: &[u8]) -> (events: Vec<RtspEvent>)
        ensures
            (event_views(events@), final(self).pending()) == drained(old(self).pending() + data@),
    {
        self.buffer.extend_from_slice(data);
        let ghost buf = self.buffer@;
        assert(buf =~= old(self).pending() + data@);
        let mut events: Vec<RtspEvent> = Vec::new();
        let mut pos: usize = 0;
        assert(buf.skip(0) =~= buf);
        assert(event_views(events@) =~= Seq::<EventModel>::empty());
        assert(event_views(events@) + drained(buf).0 =~= drained(buf).0);
        let mut done: bool = false;
        while !done
            invariant
                pos <= buf.len(),
                buf == self.buffer@,
                drained(buf) == (
                    event_views(events@) + drained(buf.skip(pos as int)).0,
                    drained(buf.skip(pos as int)).1,
                ),
                done ==> next_frame(buf.skip(pos as int)) is Incomplete,
            decreases buf.len() - pos + (if done { 0int } else { 1int }),
        {
            let rest = vstd::slice::slice_subrange(self.buffer.as_slice(), pos, self.buffer.len());
            assert(rest@ =~= buf.skip(pos as int));
            match frame_at(rest) {
                Parsed::Incomplete => {
                    done = true;
                },
                Parsed::Dropped(n) => {
                    assert(buf.skip(pos as int).skip(n as int) =~= buf.skip(pos + n));
                    pos = pos + n;
                },
                Parsed::Event(e, n) => {
                    proof {
                        assert(buf.skip(pos as int).skip(n as int) =~= buf.skip(pos + n));
                        lemma_event_views_push(events@, e);
                        assert(event_views(events@) + (seq![e@] + drained(buf.skip(pos + n)).0)
                            =~= event_views(events@).push(e@) + drained(buf.skip(pos + n)).0);
                    }
                    events.push(e);
                    pos = pos + n;
                },
            }
        }
        let left = copy_range(self.buffer.as_slice(), pos, self.buffer.len());
        assert(left@ =~= buf.skip(pos as int));
        assert(event_views(events@) + Seq::<EventModel>::empty() =~= event_views(events@));
        self.buffer = left;
        events
    }
}

} // verus!

//! The session description that answers DESCRIBE: control URLs, the RTP
//! payload type of the video stream, and its H.264 parameter sets.

use vstd::prelude::*;
use vstd::slice::slice_to_vec;
use crate::numeral::{parse_bounded, parse_uint};
use crate::octets::copy_range;
use crate::text::{
    bytes_eq, has_prefix, lit, lowercase, split, split_first, split_on, split_once, split_words,
    starts_with, to_lowercase, to_uppercase, trim, trimmed, uppercase, views, words,
    lemma_split_on_nonempty,
};

verus! {

/// The bytes that a Base64 text in the standard alphabet stands for; none
/// where the text is not valid.
pub uninterp spec fn base64_decoded(text: Seq<u8>) -> Option<Seq<u8>>;

/// The URL that the reference `reference` names relative to the URL `base`;
/// none where either cannot be read as a URL.
pub uninterp spec fn url_joined(base: Seq<u8>, reference: Seq<u8>) -> Option<Seq<u8>>;

/// The contents of an optional byte string.
pub open spec fn opt_view(o: Option<Vec<u8>>) -> Option<Seq<u8>> {
    match o {
        Some(v) => Some(v@),
        None => None,
    }
}

/// Calls `Engine::decode` of `base64::engine::general_purpose::STANDARD`.
/// Claimed: the result is a function of `text` alone; an error of the
/// decoder comes back as `None`.
#[verifier::external_body]
fn base64_decode(text: &[u8]) -> (r: Option<Vec<u8>>)
    ensures
        opt_view(r) == base64_decoded(text@),
{
    base64::Engine::decode(&base64::engine::general_purpose::STANDARD, text).ok()
}

/// Calls `Url::join` of the `url` crate on `base` read by `Url::parse`.
/// Claimed: the result is a function of the two texts alone; text that is
/// not UTF-8 and an error of the parser come back as `None`.
#[verifier::external_body]
fn url_join(base: &[u8], reference: &[u8]) -> (r: Option<Vec<u8>>)
    ensures
        opt_view(r) == url_joined(base@, reference@),
{
    let base = url::Url::parse(std::str::from_utf8(base).ok()?).ok()?;
    let joined = base.join(std::str::from_utf8(reference).ok()?).ok()?;
    Some(String::from(joined).into_bytes())
}

/// What a session description says of the video stream.
#[derive(Debug, Clone)]
pub struct SdpInfo {
    pub video_control: Option<Vec<u8>>,
    pub session_control: Option<Vec<u8>>,
    pub payload_type: Option<u8>,
    pub sps: Option<Vec<u8>>,
    pub pps: Option<Vec<u8>>,
}

/// What an `SdpInfo` holds.
pub struct SdpModel {
    pub video_control: Option<Seq<u8>>,
    pub session_control: Option<Seq<u8>>,
    pub payload_type: Option<u8>,
    pub sps: Option<Seq<u8>>,
    pub pps: Option<Seq<u8>>,
}

impl View for SdpInfo {
    type V = SdpModel;

    open spec fn view(&self) -> SdpModel {
        SdpModel {
            video_control: opt_view(self.video_control),
            session_control: opt_view(self.session_control),
            payload_type: self.payload_type,
            sps: opt_view(self.sps),
            pps: opt_view(self.pps),
        }
    }
}

/// `s` without every leading repetition of `pat`.
pub open spec fn without_leading(s: Seq<u8>, pat: Seq<u8>) -> Seq<u8>
    decreases s.len(),
{
    if pat.len() > 0 && has_prefix(s, pat) {
        without_leading(s.skip(pat.len() as int), pat)
    } else {
        s
    }
}

/// A number below 256 that `text` spells.
pub open spec fn byte_of(text: Seq<u8>) -> Option<u8> {
    match parse_uint(text, 255) {
        Some(n) => Some(n as u8),
        None => None,
    }
}

/// The parameter sets after the first `n` parameters of an `a=fmtp:` line:
/// `sprop-parameter-sets` carries the sequence parameter set and, after a
/// comma, the picture parameter set, each in Base64.
pub open spec fn sprop_scan(
    params: Seq<Seq<u8>>,
    n: int,
    start: (Option<Seq<u8>>, Option<Seq<u8>>),
) -> (Option<Seq<u8>>, Option<Seq<u8>>)
    decreases n,
{
    if n <= 0 {
        start
    } else {
        let before = sprop_scan(params, n - 1, start);
        let (k, v) = split_first(params[n - 1], seq![61u8]);
        let value = trimmed(
            match v {
                Some(v) => v,
                None => Seq::empty(),
            },
        );
        if trimmed(k) == lit("sprop-parameter-sets") {
            let sets = split_on(value, seq![44u8]);
            (
                base64_decoded(sets[0]),
                if sets.len() > 1 {
                    base64_decoded(sets[1])
                } else {
                    before.1
                },
            )
        } else {
            before
        }
    }
}

/// The description read so far, and whether the lines that follow belong to
/// a video section.
pub struct SdpScan {
    pub info: SdpModel,
    pub in_video: bool,
}

/// The scan after an `m=` line.
pub open spec fn after_media(s: SdpScan, line: Seq<u8>) -> SdpScan {
    let video = has_prefix(lowercase(line), lit("m=video"));
    let parts = words(line);
    SdpScan {
        in_video: video,
        info: if video && parts.len() >= 4 {
            SdpModel { payload_type: byte_of(parts[3]), ..s.info }
        } else {
            s.info
        },
    }
}

/// The scan after an `a=control:` line.
pub open spec fn after_control(s: SdpScan, line: Seq<u8>) -> SdpScan {
    let value = trimmed(without_leading(line, lit("a=control:")));
    SdpScan {
        info: if s.in_video {
            SdpModel { video_control: Some(value), ..s.info }
        } else {
            SdpModel { session_control: Some(value), ..s.info }
        },
        ..s
    }
}

/// The scan after an `a=rtpmap:` line of a video section.
pub open spec fn after_rtpmap(s: SdpScan, line: Seq<u8>) -> SdpScan {
    let parts = words(without_leading(line, lit("a=rtpmap:")));
    if parts.len() >= 2 && has_prefix(uppercase(parts[1]), lit("H264")) {
        SdpScan { info: SdpModel { payload_type: byte_of(parts[0]), ..s.info }, ..s }
    } else {
        s
    }
}

/// The scan after an `a=fmtp:` line of a video section.
pub open spec fn after_fmtp(s: SdpScan, line: Seq<u8>) -> SdpScan {
    match split_first(without_leading(line, lit("a=fmtp:")), seq![32u8]).1 {
        None => s,
        Some(rest) => {
            let params = split_on(rest, seq![59u8]);
            let sets = sprop_scan(params, params.len() as int, (s.info.sps, s.info.pps));
            SdpScan { info: SdpModel { sps: sets.0, pps: sets.1, ..s.info }, ..s }
        },
    }
}

/// The scan after one line, trimmed.
pub open spec fn after_line(s: SdpScan, line: Seq<u8>) -> SdpScan {
    if line.len() == 0 {
        s
    } else if has_prefix(line, lit("m=")) {
        after_media(s, line)
    } else if has_prefix(line, lit("a=control:")) {
        after_control(s, line)
    } else if s.in_video && has_prefix(line, lit("a=rtpmap:")) {
        after_rtpmap(s, line)
    } else if s.in_video && has_prefix(line, lit("a=fmtp:")) {
        after_fmtp(s, line)
    } else {
        s
    }
}

/// The scan after the first `n` lines.
pub open spec fn scanned_lines(lines: Seq<Seq<u8>>, n: int) -> SdpScan
    decreases n,
{
    if n <= 0 {
        SdpScan {
            info: SdpModel {
                video_control: None,
                session_control: None,
                payload_type: None,
                sps: None,
                pps: None,
            },
            in_video: false,
        }
    } else {
        after_line(scanned_lines(lines, n - 1), trimmed(lines[n - 1]))
    }
}

/// What the session description `body` says. Lines end with a line feed;
/// whitespace around a line does not count.
pub open spec fn sdp_of(body: Seq<u8>) -> SdpModel {
    let lines = split_on(body, seq![10u8]);
    scanned_lines(lines, lines.len() as int).info
}

/// The URL that a control attribute names: itself where it is an absolute
/// RTSP URL, the base for `*`, else the attribute joined to the base; the
/// base where joining fails.
pub open spec fn resolved(control: Seq<u8>, base_url: Seq<u8>) -> Seq<u8> {
    if has_prefix(lowercase(control), lit("rtsp://")) || has_prefix(
        lowercase(control),
        lit("rtsps://"),
    ) {
        control
    } else if control == lit("*") {
        base_url
    } else {
        match url_joined(base_url, control) {
            Some(u) => u,
            None => base_url,
        }
    }
}

/// Strips every leading repetition of `pat` from `s`.
fn strip_leading(s: &[u8], pat: &[u8]) -> (r: Vec<u8>)
    ensures
        r@ == without_leading(s@, pat@),
{
    let mut from: usize = 0;
    let total: usize = s.len();
    assert(s@.skip(0) =~= s@);
    while pat.len() > 0 && crate::text::matches_at(s, pat, from)
        invariant
            from <= s@.len() <= usize::MAX,
            without_leading(s@, pat@) == without_leading(s@.skip(from as int), pat@),
        decreases s@.len() - from,
    {
        proof {
            let t = s@.skip(from as int);
            assert(t.subrange(0, pat@.len() as int) =~= s@.subrange(
                from as int,
                from + pat@.len(),
            ));
            assert(t.skip(pat@.len() as int) =~= s@.skip(from + pat@.len()));
        }
        from = from + pat.len();
    }
    proof {
        let t = s@.skip(from as int);
        if pat@.len() > 0 && from + pat@.len() <= s@.len() {
            assert(t.subrange(0, pat@.len() as int) =~= s@.subrange(
                from as int,
                from + pat@.len(),
            ));
        }
    }
    let r = copy_range(s, from, s.len());
    assert(r@ =~= s@.skip(from as int));
    r
}

/// Reads a number below 256.
fn parse_byte(text: &[u8]) -> (r: Option<u8>)
    ensures
        r == byte_of(text@),
{
    match parse_bounded(text, 255) {
        Some(n) => Some(n as u8),
        None => None,
    }
}

/// Reads the parameter sets out of the parameters of an `a=fmtp:` line.
fn scan_sprop(params: &Vec<Vec<u8>>, sps: Option<Vec<u8>>, pps: Option<Vec<u8>>) -> (r: (
    Option<Vec<u8>>,
    Option<Vec<u8>>,
))
    ensures
        (opt_view(r.0), opt_view(r.1)) == sprop_scan(
            views(params@),
            params@.len() as int,
            (opt_view(sps), opt_view(pps)),
        ),
{
    let mut sps = sps;
    let mut pps = pps;
    let ghost start = (opt_view(sps), opt_view(pps));
    let ghost all = views(params@);
    let mut i: usize = 0;
    while i < params.len()
        invariant
            i <= params@.len(),
            all == views(params@),
            (opt_view(sps), opt_view(pps)) == sprop_scan(all, i as int, start),
        decreases params@.len() - i,
    {
        let eq: [u8; 1] = [61u8];
        assert(eq@ =~= seq![61u8]);
        assert(all[i as int] == params@[i as int]@);
        let (k, v) = split_once(params[i].as_slice(), eq.as_slice());
        let key = trim(k.as_slice());
        let value: Vec<u8> = match v {
            Some(v) => trim(v.as_slice()),
            None => {
                let e: Vec<u8> = Vec::new();
                assert(e@ =~= trimmed(Seq::<u8>::empty()));
                e
            },
        };
        if bytes_eq(key.as_slice(), "sprop-parameter-sets".as_bytes()) {
            let comma: [u8; 1] = [44u8];
            assert(comma@ =~= seq![44u8]);
            let sets = split(value.as_slice(), comma.as_slice());
            proof {
                lemma_split_on_nonempty(value@, seq![44u8]);
                assert(views(sets@)[0] == sets@[0]@);
            }
            sps = base64_decode(sets[0].as_slice());
            if sets.len() > 1 {
                assert(views(sets@)[1] == sets@[1]@);
                pps = base64_decode(sets[1].as_slice());
            }
        }
        i += 1;
    }
    (sps, pps)
}

/// Takes in an `m=` line; returns whether a video section begins.
fn read_media(info: &mut SdpInfo, line: &[u8]) -> (video: bool)
    ensures
        forall|before: bool|
            after_media(SdpScan { info: old(info)@, in_video: before }, line@) == (SdpScan {
                info: final(info)@,
                in_video: video,
            }),
{
    let lower = to_lowercase(line);
    let video = starts_with(lower.as_slice(), "m=video".as_bytes());
    if video {
        let parts = split_words(line);
        if parts.len() >= 4 {
            assert(views(parts@)[3] == parts@[3]@);
            info.payload_type = parse_byte(parts[3].as_slice());
        }
    }
    video
}

/// Takes in an `a=control:` line.
fn read_control(info: &mut SdpInfo, in_video: bool, line: &[u8])
    ensures
        after_control(SdpScan { info: old(info)@, in_video }, line@) == (SdpScan {
            info: final(info)@,
            in_video,
        }),
{
    let rest = strip_leading(line, "a=control:".as_bytes());
    let value = trim(rest.as_slice());
    if in_video {
        info.video_control = Some(value);
    } else {
        info.session_control = Some(value);
    }
}

/// Takes in an `a=rtpmap:` line of a video section.
fn read_rtpmap(info: &mut SdpInfo, in_video: bool, line: &[u8])
    ensures
        after_rtpmap(SdpScan { info: old(info)@, in_video }, line@) == (SdpScan {
            info: final(info)@,
            in_video,
        }),
{
    let rest = strip_leading(line, "a=rtpmap:".as_bytes());
    let parts = split_words(rest.as_slice());
    if parts.len() >= 2 {
        assert(views(parts@)[0] == parts@[0]@);
        assert(views(parts@)[1] == parts@[1]@);
        let codec = to_uppercase(parts[1].as_slice());
        if starts_with(codec.as_slice(), "H264".as_bytes()) {
            info.payload_type = parse_byte(parts[0].as_slice());
        }
    }
}

/// Takes in an `a=fmtp:` line of a video section.
fn read_fmtp(info: &mut SdpInfo, in_video: bool, line: &[u8])
    ensures
        after_fmtp(SdpScan { info: old(info)@, in_video }, line@) == (SdpScan {
            info: final(info)@,
            in_video,
        }),
{
    let rest = strip_leading(line, "a=fmtp:".as_bytes());
    let sp: [u8; 1] = [32u8];
    assert(sp@ =~= seq![32u8]);
    let (_pt, params) = split_once(rest.as_slice(), sp.as_slice());
    match params {
        None => {},
        Some(params) => {
            let semi: [u8; 1] = [59u8];
            assert(semi@ =~= seq![59u8]);
            let list = split(params.as_slice(), semi.as_slice());
            let mut sps: Option<Vec<u8>> = None;
            let mut pps: Option<Vec<u8>> = None;
            core::mem::swap(&mut sps, &mut info.sps);
            core::mem::swap(&mut pps, &mut info.pps);
            let sets = scan_sprop(&list, sps, pps);
            info.sps = sets.0;
            info.pps = sets.1;
        },
    }
}

/// Takes in one line, trimmed.
fn read_line(info: &mut SdpInfo, in_video: &mut bool, line: &[u8])
    ensures
        after_line(SdpScan { info: old(info)@, in_video: *old(in_video) }, line@) == (SdpScan {
            info: final(info)@,
            in_video: *final(in_video),
        }),
{
    if line.len() == 0 {
    } else if starts_with(line, "m=".as_bytes()) {
        *in_video = read_media(info, line);
    } else if starts_with(line, "a=control:".as_bytes()) {
        read_control(info, *in_video, line);
    } else if *in_video && starts_with(line, "a=rtpmap:".as_bytes()) {
        read_rtpmap(info, *in_video, line);
    } else if *in_video && starts_with(line, "a=fmtp:".as_bytes()) {
        read_fmtp(info, *in_video, line);
    }
}

/// Reads a session description. Every body gives a description; what the
/// body does not say stays `None`.
pub fn parse_sdp(body: &[u8]) -> (r: Option<SdpInfo>)
    ensures
        r matches Some(info) && info@ == sdp_of(body@),
{
    let feed: [u8; 1] = [10u8];
    assert(feed@ =~= seq![10u8]);
    let lines = split(body, feed.as_slice());
    let ghost all = views(lines@);
    let mut info = SdpInfo {
        video_control: None,
        session_control: None,
        payload_type: None,
        sps: None,
        pps: None,
    };
    let mut in_video: bool = false;
    let mut i: usize = 0;
    while i < lines.len()
        invariant
            i <= lines@.len(),
            all == views(lines@),
            scanned_lines(all, i as int) == (SdpScan { info: info@, in_video }),
        decreases lines@.len() - i,
    {
        assert(all[i as int] == lines@[i as int]@);
        let line = trim(lines[i].as_slice());
        read_line(&mut info, &mut in_video, line.as_slice());
        i += 1;
    }
    Some(info)
}

/// The base URL, unless joining gave a URL.
pub fn joined_or_base(joined: Option<Vec<u8>>, base_url: &[u8]) -> (r: Vec<u8>)
    ensures
        r@ == match joined {
            Some(u) => u@,
            None => base_url@,
        },
{
    match joined {
        Some(u) => u,
        None => slice_to_vec(base_url),
    }
}

/// The URL that a control attribute names relative to the base URL.
pub fn resolve_control(control: &[u8], base_url: &[u8]) -> (r: Vec<u8>)
    ensures
        r@ == resolved(control@, base_url@),
{
    let lower = to_lowercase(control);
    if starts_with(lower.as_slice(), "rtsp://".as_bytes()) || starts_with(
        lower.as_slice(),
        "rtsps://".as_bytes(),
    ) {
        return slice_to_vec(control);
    }
    if bytes_eq(control, "*".as_bytes()) {
        return slice_to_vec(base_url);
    }
    joined_or_base(url_join(base_url, control), base_url)
}

impl SdpInfo {
    /// The URL to send SETUP to: the control attribute of the video section
    /// relative to the base URL, or the base URL where there is none.
    pub fn resolved_video_control_url(&self, base_url: &[u8]) -> (r: Vec<u8>)
        ensures
            r@ == match self@.video_control {
                Some(c) => resolved(c, base_url@),
                None => base_url@,
            },
    {
        match &self.video_control {
            Some(c) => resolve_control(c.as_slice(), base_url),
            None => slice_to_vec(base_url),
        }
    }

    /// The URL to send PLAY to: the control attribute of the session
    /// relative to the base URL, or the base URL where there is none or
    /// where it is `*`.
    pub fn resolved_play_url(&self, base_url: &[u8]) -> (r: Vec<u8>)
        ensures
            r@ == match self@.session_control {
                Some(c) => resolved(c, base_url@),
                None => base_url@,
            },
    {
        match &self.session_control {
            Some(c) => {
                if !bytes_eq(c.as_slice(), "*".as_bytes()) {
                    resolve_control(c.as_slice(), base_url)
                } else {
                    proof {
                        lemma_star_is_no_url(c@);
                    }
                    slice_to_vec(base_url)
                }
            },
            None => slice_to_vec(base_url),
        }
    }
}

/// The text `*` begins with no URL scheme.
proof fn lemma_star_is_no_url(c: Seq<u8>)
    requires
        c == lit("*"),
    ensures
        !has_prefix(lowercase(c), lit("rtsp://")),
        !has_prefix(lowercase(c), lit("rtsps://")),
{
    reveal_strlit("*");
    reveal_strlit("rtsp://");
    reveal_strlit("rtsps://");
    vstd::string::is_ascii_spec_bytes("*");
    vstd::string::is_ascii_spec_bytes("rtsp://");
    vstd::string::is_ascii_spec_bytes("rtsps://");
    assert(lit("*").len() == 1);
    assert(lit("rtsp://").len() == 7);
    assert(lit("rtsps://").len() == 8);
}

} // verus!

//! The client side of an RTSP session over interleaved TCP: building
//! requests, reading what responses say about the session, and the order of
//! DESCRIBE, SETUP and PLAY.
//!
//! Nothing here touches a socket. The caller sends the requests that these
//! functions build and hands back the responses that arrive.

use vstd::prelude::*;
use vstd::slice::slice_to_vec;
use crate::auth::{authorized, challenge_of, challenged, AuthModel, RtspAuthenticator};
use crate::numeral::{decimal, parse_bounded, parse_uint, push_decimal};
use crate::octets::append;
use crate::parser::{Header, ResponseModel, RtspResponse};
use crate::sdp::{parse_sdp, resolved, sdp_of, SdpInfo, SdpModel};
use crate::text::{
    bytes_eq, lemma_split_on_nonempty, lit, split, split_on, strip_prefix, trim, trimmed, views,
    without_prefix,
};

verus! {

/// One binary frame of the connection: the channel and what it carries.
#[derive(Debug)]
pub struct InterleavedPacket {
    pub channel: u8,
    pub payload: Vec<u8>,
}

/// The name and value of each header of a request.
pub open spec fn request_headers(headers: Seq<Header>) -> Seq<(Seq<u8>, Seq<u8>)> {
    Seq::new(headers.len(), |i: int| (headers[i].name@, headers[i].value@))
}

/// The header lines `name: value`, each ended by CR LF, of the first `n` headers.
pub open spec fn header_lines(headers: Seq<(Seq<u8>, Seq<u8>)>, n: int) -> Seq<u8>
    decreases n,
{
    if n <= 0 {
        Seq::empty()
    } else {
        header_lines(headers, n - 1) + headers[n - 1].0 + lit(": ") + headers[n - 1].1 + lit(
            "\r\n",
        )
    }
}

/// The text of a request: the request line, the sequence number, the user
/// agent, the headers in order, the authorization line if there is one, and
/// an empty line.
pub open spec fn request_text(
    method: Seq<u8>,
    uri: Seq<u8>,
    cseq: u32,
    headers: Seq<(Seq<u8>, Seq<u8>)>,
    auth: Option<Seq<u8>>,
) -> Seq<u8> {
    method + lit(" ") + uri + lit(" RTSP/1.0\r\n") + lit("CSeq: ") + decimal(cseq as nat) + lit(
        "\r\n",
    ) + lit("User-Agent: BambuLANViewer/1.0\r\n") + header_lines(headers, headers.len() as int)
        + (match auth {
        Some(a) => a + lit("\r\n"),
        None => Seq::empty(),
    }) + lit("\r\n")
}

/// Writes a request.
#[verifier::rlimit(40)]
pub fn build_request(
    method: &[u8],
    uri: &[u8],
    cseq: u32,
    headers: &Vec<Header>,
    auth_header: Option<&Vec<u8>>,
) -> (r: Vec<u8>)
    ensures
        r@ == request_text(
            method@,
            uri@,
            cseq,
            request_headers(headers@),
            match auth_header {
                Some(a) => Some(a@),
                None => None,
            },
        ),
{
    let mut out: Vec<u8> = Vec::new();
    append(&mut out, method);
    append(&mut out, " ".as_bytes());
    append(&mut out, uri);
    append(&mut out, " RTSP/1.0\r\n".as_bytes());
    append(&mut out, "CSeq: ".as_bytes());
    push_decimal(&mut out, cseq as u64);
    append(&mut out, "\r\n".as_bytes());
    append(&mut out, "User-Agent: BambuLANViewer/1.0\r\n".as_bytes());
    let ghost head = out@;
    let ghost hv = request_headers(headers@);
    let mut i: usize = 0;
    assert(out@ =~= head + header_lines(hv, 0));
    while i < headers.len()
        invariant
            i <= headers@.len(),
            hv == request_headers(headers@),
            out@ == head + header_lines(hv, i as int),
        decreases headers@.len() - i,
    {
        append(&mut out, headers[i].name.as_slice());
        append(&mut out, ": ".as_bytes());
        append(&mut out, headers[i].value.as_slice());
        append(&mut out, "\r\n".as_bytes());
        i += 1;
        assert(out@ =~= head + header_lines(hv, i as int));
    }
    let ghost lines = out@;
    match auth_header {
        Some(a) => {
            append(&mut out, a.as_slice());
            append(&mut out, "\r\n".as_bytes());
            assert(out@ =~= lines + (a@ + lit("\r\n")));
        },
        None => {
            assert(out@ =~= lines + Seq::<u8>::empty());
        },
    }
    append(&mut out, "\r\n".as_bytes());
    assert(head =~= method@ + lit(" ") + uri@ + lit(" RTSP/1.0\r\n") + lit("CSeq: ") + decimal(
        cseq as nat,
    ) + lit("\r\n") + lit("User-Agent: BambuLANViewer/1.0\r\n"));
    out
}

/// The two channel numbers that a piece `interleaved=a-b` of a `Transport`
/// header names.
pub open spec fn channels_of(value: Seq<u8>) -> Option<(u8, u8)> {
    let parts = split_on(value, seq![45u8]);
    if parts.len() >= 2 && parse_uint(parts[0], 255).is_some() && parse_uint(parts[1], 255).is_some() {
        Some((parse_uint(parts[0], 255).unwrap() as u8, parse_uint(parts[1], 255).unwrap() as u8))
    } else {
        None
    }
}

/// The channels named by the first piece from index `from` on that begins,
/// once trimmed, with `interleaved=`.
pub open spec fn interleaved_in(parts: Seq<Seq<u8>>, from: int) -> Option<(u8, u8)>
    decreases parts.len() - from,
{
    if from < 0 || from >= parts.len() {
        None
    } else {
        match without_prefix(trimmed(parts[from]), lit("interleaved=")) {
            Some(v) => channels_of(v),
            None => interleaved_in(parts, from + 1),
        }
    }
}

/// The RTP and RTCP channels that the `Transport` header of a response names.
pub open spec fn interleaved_channels(response: ResponseModel) -> Option<(u8, u8)> {
    match response.header(lit("transport")) {
        Some(t) => interleaved_in(split_on(t, seq![59u8]), 0),
        None => None,
    }
}

/// Reads the channels out of `a-b`.
fn parse_channels(value: &[u8]) -> (r: Option<(u8, u8)>)
    ensures
        r == channels_of(value@),
{
    let dash: [u8; 1] = [45u8];
    assert(dash@ =~= seq![45u8]);
    let parts = split(value, dash.as_slice());
    if parts.len() < 2 {
        return None;
    }
    assert(views(parts@)[0] == parts@[0]@);
    assert(views(parts@)[1] == parts@[1]@);
    let rtp = match parse_bounded(parts[0].as_slice(), 255) {
        Some(n) => n as u8,
        None => {
            return None;
        },
    };
    let rtcp = match parse_bounded(parts[1].as_slice(), 255) {
        Some(n) => n as u8,
        None => {
            return None;
        },
    };
    Some((rtp, rtcp))
}

/// Reads the RTP and RTCP channels that the server chose from the
/// `Transport` header of the response to SETUP.
pub fn parse_interleaved_channels(response: &RtspResponse) -> (r: Option<(u8, u8)>)
    ensures
        r == interleaved_channels(response@),
{
    let transport = match response.header("transport".as_bytes()) {
        Some(t) => t,
        None => {
            return None;
        },
    };
    let semi: [u8; 1] = [59u8];
    assert(semi@ =~= seq![59u8]);
    let parts = split(transport.as_slice(), semi.as_slice());
    let ghost all = views(parts@);
    let mut i: usize = 0;
    while i < parts.len()
        invariant
            i <= parts@.len(),
            all == views(parts@),
            interleaved_channels(response@) == interleaved_in(all, i as int),
        decreases parts@.len() - i,
    {
        assert(all[i as int] == parts@[i as int]@);
        let t = trim(parts[i].as_slice());
        match strip_prefix(t.as_slice(), "interleaved=".as_bytes()) {
            Some(v) => {
                return parse_channels(v.as_slice());
            },
            None => {},
        }
        i += 1;
    }
    None
}

/// The timeout after the first `n` pieces of a `Session` header: the number
/// of the last piece `timeout=N` among those after the first.
pub open spec fn timeout_in(parts: Seq<Seq<u8>>, n: int) -> Option<u64>
    decreases n,
{
    if n <= 1 {
        None
    } else {
        match without_prefix(trimmed(parts[n - 1]), lit("timeout=")) {
            Some(v) => match parse_uint(v, 0xFFFF_FFFF_FFFF_FFFF) {
                Some(t) => Some(t as u64),
                None => timeout_in(parts, n - 1),
            },
            None => timeout_in(parts, n - 1),
        }
    }
}

/// The session identifier and the timeout in seconds that the `Session`
/// header of a response carries: `id[;timeout=N]`. None where the header is
/// missing or the identifier is blank.
pub open spec fn session_info(response: ResponseModel) -> Option<(Seq<u8>, Option<u64>)> {
    match response.header(lit("session")) {
        Some(s) => {
            let parts = split_on(s, seq![59u8]);
            if trimmed(parts[0]).len() == 0 {
                None
            } else {
                Some((trimmed(parts[0]), timeout_in(parts, parts.len() as int)))
            }
        },
        None => None,
    }
}

/// Reads the session identifier and the timeout from the `Session` header.
pub fn parse_session_info(response: &RtspResponse) -> (r: Option<(Vec<u8>, Option<u64>)>)
    ensures
        match r {
            Some((id, timeout)) => session_info(response@) == Some((id@, timeout)),
            None => session_info(response@).is_none(),
        },
{
    let session = match response.header("session".as_bytes()) {
        Some(s) => s,
        None => {
            return None;
        },
    };
    let semi: [u8; 1] = [59u8];
    assert(semi@ =~= seq![59u8]);
    let parts = split(session.as_slice(), semi.as_slice());
    proof {
        lemma_split_on_nonempty(session@, seq![59u8]);
    }
    let ghost all = views(parts@);
    assert(all[0] == parts@[0]@);
    let id = trim(parts[0].as_slice());
    if id.len() == 0 {
        return None;
    }
    let mut timeout: Option<u64> = None;
    let mut i: usize = 1;
    while i < parts.len()
        invariant
            1 <= i <= parts@.len(),
            all == views(parts@),
            timeout == timeout_in(all, i as int),
        decreases parts@.len() - i,
    {
        assert(all[i as int] == parts@[i as int]@);
        let t = trim(parts[i].as_slice());
        match strip_prefix(t.as_slice(), "timeout=".as_bytes()) {
            Some(v) => {
                match parse_bounded(v.as_slice(), 0xFFFF_FFFF_FFFF_FFFF) {
                    Some(seconds) => {
                        timeout = Some(seconds);
                    },
                    None => {},
                }
            },
            None => {},
        }
        i += 1;
    }
    Some((id, timeout))
}

/// The pause between keep-alive requests in milliseconds: half the session
/// timeout, or five seconds where the server named none.
pub open spec fn keepalive_ms(timeout: Option<u64>) -> int {
    match timeout {
        Some(t) => if t * 500 > 0xFFFF_FFFF_FFFF_FFFF {
            0xFFFF_FFFF_FFFF_FFFF
        } else {
            t * 500
        },
        None => 5000,
    }
}

/// The pause between keep-alive requests in milliseconds.
///
/// Half the timeout lies between one second and a second less than the
/// timeout only for a timeout of two seconds or more.
pub fn keepalive_interval_ms(timeout: Option<u64>) -> (r: u64)
    requires
        timeout matches Some(t) ==> t >= 2,
    ensures
        r == keepalive_ms(timeout),
        timeout matches Some(t) ==> 1000 <= r && r <= (t - 1) * 1000,
{
    match timeout {
        Some(t) => if t > 0xFFFF_FFFF_FFFF_FFFF / 500 {
            0xFFFF_FFFF_FFFF_FFFF
        } else {
            t * 500
        },
        None => 5000,
    }
}

/// What the connection remembers between requests.
pub struct RtspConnectionState {
    cseq: u32,
    session_id: Option<Vec<u8>>,
    session_timeout: Option<u64>,
    authenticator: Option<RtspAuthenticator>,
}

/// What a connection state holds.
pub struct ConnectionModel {
    /// The sequence number of the next request.
    pub cseq: u32,
    /// The session identifier, once the server has named one.
    pub session_id: Option<Seq<u8>>,
    /// The session timeout in seconds, if the server named one.
    pub session_timeout: Option<u64>,
    pub authenticator: Option<AuthModel>,
}

impl View for RtspConnectionState {
    type V = ConnectionModel;

    closed spec fn view(&self) -> ConnectionModel {
        ConnectionModel {
            cseq: self.cseq,
            session_id: match self.session_id {
                Some(id) => Some(id@),
                None => None,
            },
            session_timeout: self.session_timeout,
            authenticator: match self.authenticator {
                Some(a) => Some(a@),
                None => None,
            },
        }
    }
}

/// Whether one of the first `n` headers is named exactly `name`.
pub open spec fn names_header(headers: Seq<(Seq<u8>, Seq<u8>)>, name: Seq<u8>, n: int) -> bool
    decreases n,
{
    if n <= 0 {
        false
    } else {
        headers[n - 1].0 == name || names_header(headers, name, n - 1)
    }
}

/// The headers that a request goes out with: those given, and the session
/// identifier where it is known, the request is no DESCRIBE and the headers
/// given name no `Session`.
pub open spec fn outgoing_headers(
    m: ConnectionModel,
    method: Seq<u8>,
    headers: Seq<(Seq<u8>, Seq<u8>)>,
) -> Seq<(Seq<u8>, Seq<u8>)> {
    if !names_header(headers, lit("Session"), headers.len() as int) && method != lit("DESCRIBE")
        && m.session_id.is_some() {
        headers.push((lit("Session"), m.session_id.unwrap()))
    } else {
        headers
    }
}

/// The sequence number after `cseq`; it stops at its largest value.
pub open spec fn next_cseq(cseq: u32) -> u32 {
    if cseq == 0xFFFF_FFFF {
        cseq
    } else {
        (cseq + 1) as u32
    }
}

/// The text of the next request and the connection state after it.
pub open spec fn requested(
    m: ConnectionModel,
    method: Seq<u8>,
    uri: Seq<u8>,
    headers: Seq<(Seq<u8>, Seq<u8>)>,
) -> (Seq<u8>, ConnectionModel) {
    let auth = match m.authenticator {
        Some(a) => Some(authorized(a, method, uri)),
        None => None,
    };
    (
        request_text(
            method,
            uri,
            m.cseq,
            outgoing_headers(m, method, headers),
            match auth {
                Some(a) => Some(a.0),
                None => None,
            },
        ),
        ConnectionModel {
            cseq: next_cseq(m.cseq),
            authenticator: match auth {
                Some(a) => Some(a.1),
                None => None,
            },
            ..m
        },
    )
}

/// The connection state after a response: the session identifier and the
/// timeout of its `Session` header replace what was known.
pub open spec fn noted(m: ConnectionModel, response: ResponseModel) -> ConnectionModel {
    match session_info(response) {
        Some((id, timeout)) => ConnectionModel {
            session_id: Some(id),
            session_timeout: timeout,
            ..m
        },
        None => m,
    }
}

/// Whether a response is a refusal that carries a Digest challenge.
pub open spec fn is_challenge(response: ResponseModel) -> bool {
    response.status_code == 401 && response.header(lit("www-authenticate")).is_some()
        && challenge_of(response.header(lit("www-authenticate")).unwrap()).is_some()
}

/// The authenticator after a response: where the response is a refusal with
/// a `WWW-Authenticate` header, that header has been put to it together with
/// the fresh client nonce.
pub open spec fn challenged_by(
    authenticator: Option<AuthModel>,
    response: ResponseModel,
    cnonce: Seq<u8>,
) -> Option<AuthModel> {
    match authenticator {
        Some(a) => Some(
            if response.status_code == 401 && response.header(lit("www-authenticate")).is_some() {
                challenged(a, response.header(lit("www-authenticate")).unwrap(), cnonce)
            } else {
                a
            },
        ),
        None => None,
    }
}

impl RtspConnectionState {
    /// The authenticator, if there is one, can encode its credentials.
    pub closed spec fn wf(&self) -> bool {
        self.authenticator matches Some(a) ==> a.wf()
    }

    /// The state of a new connection: the first request has sequence
    /// number 1 and no session is known.
    pub fn new(authenticator: Option<RtspAuthenticator>) -> (r: Self)
        requires
            authenticator matches Some(a) ==> a.wf(),
        ensures
            r.wf(),
            r@ == (ConnectionModel {
                cseq: 1,
                session_id: None,
                session_timeout: None,
                authenticator: match authenticator {
                    Some(a) => Some(a@),
                    None => None,
                },
            }),
    {
        RtspConnectionState { cseq: 1, session_id: None, session_timeout: None, authenticator }
    }

    /// The session timeout in seconds, if the server named one.
    pub fn session_timeout(&self) -> (r: Option<u64>)
        ensures
            r == self@.session_timeout,
    {
        self.session_timeout
    }

    /// Builds the next request and returns its sequence number with its text.
    pub fn next_request(&mut self, method: &[u8], uri: &[u8], headers: Vec<Header>) -> (r: (
        u32,
        Vec<u8>,
    ))
        requires
            old(self).wf(),
        ensures
            final(self).wf(),
            r.0 == old(self)@.cseq,
            (r.1@, final(self)@) == requested(
                old(self)@,
                method@,
                uri@,
                request_headers(headers@),
            ),
    {
        let cseq: u32 = self.cseq;
        if self.cseq < 0xFFFF_FFFF {
            self.cseq = self.cseq + 1;
        }
        let mut headers = headers;
        let ghost given = request_headers(headers@);
        let mut named: bool = false;
        let mut n: usize = headers.len();
        while n > 0
            invariant
                n <= headers@.len(),
                given == request_headers(headers@),
                names_header(given, lit("Session"), given.len() as int) == (named || names_header(
                    given,
                    lit("Session"),
                    n as int,
                )),
            decreases n,
        {
            if bytes_eq(headers[n - 1].name.as_slice(), "Session".as_bytes()) {
                named = true;
            }
            n -= 1;
        }
        if !named && !bytes_eq(method, "DESCRIBE".as_bytes()) {
            match &self.session_id {
                Some(id) => {
                    let h = Header {
                        name: slice_to_vec("Session".as_bytes()),
                        value: slice_to_vec(id.as_slice()),
                    };
                    headers.push(h);
                    assert(request_headers(headers@) =~= given.push((lit("Session"), id@)));
                },
                None => {},
            }
        }
        let mut taken: Option<RtspAuthenticator> = None;
        core::mem::swap(&mut taken, &mut self.authenticator);
        let auth_header: Option<Vec<u8>> = match taken {
            Some(mut a) => {
                let line = a.authorization_header(method, uri);
                self.authenticator = Some(a);
                Some(line)
            },
            None => None,
        };
        let text = build_request(method, uri, cseq, &headers, auth_header.as_ref());
        (cseq, text)
    }

    /// Takes note of what a response says about the session.
    pub fn note_response(&mut self, response: &RtspResponse)
        requires
            old(self).wf(),
        ensures
            final(self).wf(),
            final(self)@ == noted(old(self)@, response@),
    {
        match parse_session_info(response) {
            Some((id, timeout)) => {
                self.session_id = Some(id);
                self.session_timeout = timeout;
            },
            None => {},
        }
    }

    /// Decides whether a request that has been sent `sends` times is sent
    /// again: after a refusal that carries a Digest challenge, once. The
    /// challenge takes force in the authenticator either way.
    pub fn retry_after(&mut self, response: &RtspResponse, sends: u32) -> (again: bool)
        requires
            old(self).wf(),
        ensures
            final(self).wf(),
            again == (is_challenge(response@) && old(self)@.authenticator.is_some() && sends < 2),
            final(self)@.cseq == old(self)@.cseq,
            final(self)@.session_id == old(self)@.session_id,
            final(self)@.session_timeout == old(self)@.session_timeout,
            final(self)@.authenticator == challenged_by(
                old(self)@.authenticator,
                response@,
                match final(self)@.authenticator {
                    Some(a) => a.cnonce,
                    None => Seq::empty(),
                },
            ),
    {
        if response.status_code != 401 {
            return false;
        }
        let header = match response.header("www-authenticate".as_bytes()) {
            Some(h) => h,
            None => {
                return false;
            },
        };
        let mut taken: Option<RtspAuthenticator> = None;
        core::mem::swap(&mut taken, &mut self.authenticator);
        match taken {
            Some(mut a) => {
                let accepted = a.update_challenge(header.as_slice());
                self.authenticator = Some(a);
                accepted && sends < 2
            },
            None => false,
        }
    }
}

/// Where the opening of a session stands.
#[derive(Clone, Copy, Debug, PartialEq, Eq)]
pub enum HandshakePhase {
    /// DESCRIBE has been sent.
    Describing,
    /// SETUP has been sent.
    SettingUp,
    /// PLAY has been sent.
    Starting,
    /// The stream is playing.
    Playing,
    /// The server refused a request.
    Failed,
}

/// A request for the caller to send.
#[derive(Debug)]
pub struct OutgoingRequest {
    pub method: Vec<u8>,
    pub uri: Vec<u8>,
    pub headers: Vec<Header>,
}

/// What to do after a response.
#[derive(Debug)]
pub enum HandshakeStep {
    /// Send this request and hand back its response.
    Send(OutgoingRequest),
    /// The session is established; RTP arrives on the channel learned.
    Established,
    /// The server refused the request of the phase named.
    Refused { phase: HandshakePhase, status_code: u16 },
    /// The response belongs to no request of the handshake.
    Ignored,
}

/// What a request holds.
pub struct RequestModel {
    pub method: Seq<u8>,
    pub uri: Seq<u8>,
    pub headers: Seq<(Seq<u8>, Seq<u8>)>,
}

/// What a step holds.
pub enum StepModel {
    Send(RequestModel),
    Established,
    Refused { phase: HandshakePhase, status_code: u16 },
    Ignored,
}

impl View for OutgoingRequest {
    type V = RequestModel;

    open spec fn view(&self) -> RequestModel {
        RequestModel {
            method: self.method@,
            uri: self.uri@,
            headers: request_headers(self.headers@),
        }
    }
}

impl View for HandshakeStep {
    type V = StepModel;

    open spec fn view(&self) -> StepModel {
        match self {
            HandshakeStep::Send(r) => StepModel::Send(r@),
            HandshakeStep::Established => StepModel::Established,
            HandshakeStep::Refused { phase, status_code } => StepModel::Refused {
                phase: *phase,
                status_code: *status_code,
            },
            HandshakeStep::Ignored => StepModel::Ignored,
        }
    }
}

/// The opening of one session: DESCRIBE, SETUP, PLAY.
pub struct RtspHandshake {
    phase: HandshakePhase,
    url: Vec<u8>,
    sdp: Option<SdpInfo>,
    play_uri: Vec<u8>,
    rtp_channel: u8,
}

/// What a handshake holds.
pub struct HandshakeModel {
    pub phase: HandshakePhase,
    /// The URL of the stream.
    pub url: Seq<u8>,
    /// The session description, once DESCRIBE has been answered.
    pub sdp: Option<SdpModel>,
    /// The URL that PLAY and the keep-alive requests go to.
    pub play_uri: Seq<u8>,
    /// The channel that carries RTP.
    pub rtp_channel: u8,
}

impl View for RtspHandshake {
    type V = HandshakeModel;

    closed spec fn view(&self) -> HandshakeModel {
        HandshakeModel {
            phase: self.phase,
            url: self.url@,
            sdp: match self.sdp {
                Some(s) => Some(s@),
                None => None,
            },
            play_uri: self.play_uri@,
            rtp_channel: self.rtp_channel,
        }
    }
}

/// Whether a status code is in the range of success, 200 to 299.
pub open spec fn is_success(status_code: u16) -> bool {
    200 <= status_code <= 299
}

/// The DESCRIBE request for `url`.
pub open spec fn describe_request(url: Seq<u8>) -> RequestModel {
    RequestModel {
        method: lit("DESCRIBE"),
        uri: url,
        headers: seq![(lit("Accept"), lit("application/sdp"))],
    }
}

/// The SETUP request for the video stream that `sdp` describes.
pub open spec fn setup_request(sdp: SdpModel, base_url: Seq<u8>) -> RequestModel {
    RequestModel {
        method: lit("SETUP"),
        uri: match sdp.video_control {
            Some(c) => resolved(c, base_url),
            None => base_url,
        },
        headers: seq![(lit("Transport"), lit("RTP/AVP/TCP;unicast;interleaved=0-1"))],
    }
}

/// The URL that PLAY goes to for the session that `sdp` describes.
pub open spec fn play_url(sdp: SdpModel, base_url: Seq<u8>) -> Seq<u8> {
    match sdp.session_control {
        Some(c) => resolved(c, base_url),
        None => base_url,
    }
}

/// The PLAY request.
pub open spec fn play_request(uri: Seq<u8>) -> RequestModel {
    RequestModel { method: lit("PLAY"), uri, headers: seq![(lit("Range"), lit("npt=0-"))] }
}

/// The handshake after a response, and what to do next.
///
/// A response outside the range of success ends the handshake. The answer
/// to DESCRIBE carries the session description and leads to SETUP; the
/// answer to SETUP names the RTP channel, 0 where it names none, and leads
/// to PLAY; the answer to PLAY establishes the session.
pub open spec fn stepped(m: HandshakeModel, response: ResponseModel, base_url: Seq<u8>) -> (
    HandshakeModel,
    StepModel,
) {
    match m.phase {
        HandshakePhase::Playing | HandshakePhase::Failed => (m, StepModel::Ignored),
        _ => if !is_success(response.status_code) {
            (
                HandshakeModel { phase: HandshakePhase::Failed, ..m },
                StepModel::Refused { phase: m.phase, status_code: response.status_code },
            )
        } else {
            match m.phase {
                HandshakePhase::Describing => {
                    let sdp = sdp_of(response.body);
                    (
                        HandshakeModel {
                            phase: HandshakePhase::SettingUp,
                            sdp: Some(sdp),
                            play_uri: play_url(sdp, base_url),
                            ..m
                        },
                        StepModel::Send(setup_request(sdp, base_url)),
                    )
                },
                HandshakePhase::SettingUp => (
                    HandshakeModel {
                        phase: HandshakePhase::Starting,
                        rtp_channel: match interleaved_channels(response) {
                            Some(c) => c.0,
                            None => 0,
                        },
                        ..m
                    },
                    StepModel::Send(play_request(m.play_uri)),
                ),
                _ => (HandshakeModel { phase: HandshakePhase::Playing, ..m }, StepModel::Established),
            }
        },
    }
}

/// The base URL that a response to DESCRIBE proposes: its `Content-Base`,
/// else its `Content-Location`.
pub open spec fn proposed_base(response: ResponseModel) -> Option<Seq<u8>> {
    match response.header(lit("content-base")) {
        Some(b) => Some(b),
        None => response.header(lit("content-location")),
    }
}

/// The base URL that a response to DESCRIBE proposes.
pub fn base_candidate(response: &RtspResponse) -> (r: Option<&Vec<u8>>)
    ensures
        match r {
            Some(b) => proposed_base(response@) == Some(b@),
            None => proposed_base(response@).is_none(),
        },
{
    match response.header("content-base".as_bytes()) {
        Some(b) => Some(b),
        None => response.header("content-location".as_bytes()),
    }
}

/// A request with one header.
fn request_with(method: &str, uri: Vec<u8>, name: &str, value: &str) -> (r: OutgoingRequest)
    ensures
        r@ == (RequestModel {
            method: lit(method),
            uri: uri@,
            headers: seq![(lit(name), lit(value))],
        }),
{
    let mut headers: Vec<Header> = Vec::new();
    headers.push(
        Header { name: slice_to_vec(name.as_bytes()), value: slice_to_vec(value.as_bytes()) },
    );
    let r = OutgoingRequest { method: slice_to_vec(method.as_bytes()), uri, headers };
    assert(r@.headers =~= seq![(lit(name), lit(value))]);
    r
}

impl RtspHandshake {
    /// Begins the handshake for the stream at `url`: returns the handshake
    /// and the DESCRIBE request to send first.
    pub fn start(url: &[u8]) -> (r: (RtspHandshake, OutgoingRequest))
        ensures
            r.0@ == (HandshakeModel {
                phase: HandshakePhase::Describing,
                url: url@,
                sdp: None,
                play_uri: url@,
                rtp_channel: 0,
            }),
            r.1@ == describe_request(url@),
    {
        let handshake = RtspHandshake {
            phase: HandshakePhase::Describing,
            url: slice_to_vec(url),
            sdp: None,
            play_uri: slice_to_vec(url),
            rtp_channel: 0,
        };
        (handshake, request_with("DESCRIBE", slice_to_vec(url), "Accept", "application/sdp"))
    }

    /// Where the handshake stands.
    pub fn phase(&self) -> (r: HandshakePhase)
        ensures
            r == self@.phase,
    {
        self.phase
    }

    /// The channel that carries RTP.
    pub fn rtp_channel(&self) -> (r: u8)
        ensures
            r == self@.rtp_channel,
    {
        self.rtp_channel
    }

    /// The URL that PLAY and the keep-alive requests go to.
    pub fn play_uri(&self) -> (r: &Vec<u8>)
        ensures
            r@ == self@.play_uri,
    {
        &self.play_uri
    }

    /// The session description, once DESCRIBE has been answered.
    pub fn sdp(&self) -> (r: Option<&SdpInfo>)
        ensures
            match r {
                Some(s) => self@.sdp == Some(s@),
                None => self@.sdp.is_none(),
            },
    {
        self.sdp.as_ref()
    }

    /// Takes in the response to the request sent last. `base_url` is the
    /// URL that control attributes are relative to; it is read only when
    /// the response answers DESCRIBE.
    pub fn on_response(&mut self, response: &RtspResponse, base_url: &[u8]) -> (r: HandshakeStep)
        ensures
            (final(self)@, r@) == stepped(old(self)@, response@, base_url@),
    {
        match self.phase {
            HandshakePhase::Playing => {
                return HandshakeStep::Ignored;
            },
            HandshakePhase::Failed => {
                return HandshakeStep::Ignored;
            },
            _ => {},
        }
        if response.status_code < 200 || response.status_code > 299 {
            let phase = self.phase;
            self.phase = HandshakePhase::Failed;
            return HandshakeStep::Refused { phase, status_code: response.status_code };
        }
        match self.phase {
            HandshakePhase::Describing => {
                let sdp = match parse_sdp(response.body.as_slice()) {
                    Some(s) => s,
                    None => SdpInfo {
                        video_control: None,
                        session_control: None,
                        payload_type: None,
                        sps: None,
                        pps: None,
                    },
                };
                let setup_uri = sdp.resolved_video_control_url(base_url);
                self.play_uri = sdp.resolved_play_url(base_url);
                self.sdp = Some(sdp);
                self.phase = HandshakePhase::SettingUp;
                HandshakeStep::Send(
                    request_with(
                        "SETUP",
                        setup_uri,
                        "Transport",
                        "RTP/AVP/TCP;unicast;interleaved=0-1",
                    ),
                )
            },
            HandshakePhase::SettingUp => {
                self.rtp_channel = match parse_interleaved_channels(response) {
                    Some(c) => c.0,
                    None => 0,
                };
                self.phase = HandshakePhase::Starting;
                HandshakeStep::Send(
                    request_with("PLAY", slice_to_vec(self.play_uri.as_slice()), "Range", "npt=0-"),
                )
            },
            _ => {
                self.phase = HandshakePhase::Playing;
                HandshakeStep::Established
            },
        }
    }
}

} // verus!

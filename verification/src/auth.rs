//! RTSP authentication: the `Authorization` header for Basic and Digest
//! access authentication.

use vstd::prelude::*;
use vstd::slice::slice_to_vec;
use crate::numeral::{hex, push_hex};
use crate::octets::{append, copy_range, u32_be, write_u32};
use crate::text::{
    bytes_eq, has_prefix, lit, lowercase, split, split_first, split_on, split_once,
    starts_with, to_lowercase, trim, trimmed, views,
};

verus! {

/// The MD5 digest of `data`: 16 bytes.
pub uninterp spec fn md5_digest(data: Seq<u8>) -> Seq<u8>;

/// The Base64 text of `data` in the standard alphabet, with padding.
pub uninterp spec fn base64_text(data: Seq<u8>) -> Seq<u8>;

/// Whether the Base64 text of `n` bytes can be addressed on this machine.
pub open spec fn encodable(n: int) -> bool {
    n / 3 * 4 + 4 <= usize::MAX
}

/// Calls `md5::compute` and hands out the bytes of its digest. Claimed: the
/// result is the MD5 digest of `data`, a function of `data` alone, and it
/// is 16 bytes long.
#[verifier::external_body]
fn md5_compute(data: &[u8]) -> (r: Vec<u8>)
    ensures
        r@ == md5_digest(data@),
        r@.len() == 16,
{
    md5::compute(data).0.to_vec()
}

/// Calls `Engine::encode` of `base64::engine::general_purpose::STANDARD`.
/// Claimed: the result is the Base64 text of `data`, a function of `data`
/// alone. The call panics where the length of the text overflows, which the
/// precondition rules out.
#[verifier::external_body]
fn base64_encode(data: &[u8]) -> (r: Vec<u8>)
    requires
        encodable(data@.len() as int),
    ensures
        r@ == base64_text(data@),
{
    base64::Engine::encode(&base64::engine::general_purpose::STANDARD, data).into_bytes()
}

/// Calls `RngCore::fill_bytes` on `rand::thread_rng()` for `count` bytes.
/// Claimed: as many bytes come back as were asked for; nothing is said of
/// their values.
#[verifier::external_body]
fn random_bytes(count: usize) -> (r: Vec<u8>)
    ensures
        r@.len() == count,
{
    let mut bytes = vec![0u8; count];
    rand::RngCore::fill_bytes(&mut rand::thread_rng(), &mut bytes);
    bytes
}

/// How many random bytes a client nonce is made of.
pub const CNONCE_BYTES: usize = 16;

/// Whether `cnonce` is the lower-case hexadecimal spelling of 16 bytes.
pub open spec fn is_cnonce(cnonce: Seq<u8>) -> bool {
    exists|seed: Seq<u8>| seed.len() == CNONCE_BYTES && cnonce == #[trigger] hex(seed, false)
}

/// The MD5 digest of `input` as 32 lower-case hexadecimal digits.
pub open spec fn md5_hex_text(input: Seq<u8>) -> Seq<u8> {
    hex(md5_digest(input), false)
}

/// The MD5 digest of `input` as lower-case hexadecimal digits.
pub fn md5_hex(input: &[u8]) -> (r: Vec<u8>)
    ensures
        r@ == md5_hex_text(input@),
        r@.len() == 32,
{
    let digest = md5_compute(input);
    proof {
        crate::numeral::lemma_hex_len(digest@, false);
    }
    let mut out: Vec<u8> = Vec::new();
    push_hex(&mut out, digest.as_slice(), false);
    assert(out@ =~= md5_hex_text(input@));
    out
}

/// A user name and a password.
#[derive(Debug, Clone)]
pub struct RtspCredentials {
    pub username: Vec<u8>,
    pub password: Vec<u8>,
}

/// One `key=value` parameter of a challenge: the key in lower case, the
/// value without its quotes.
#[derive(Debug, Clone)]
pub struct Parameter {
    pub key: Vec<u8>,
    pub value: Vec<u8>,
}

/// A Digest challenge of the server.
#[derive(Debug, Clone)]
pub struct DigestChallenge {
    pub realm: Vec<u8>,
    pub nonce: Vec<u8>,
    pub qop: Option<Vec<u8>>,
    pub algorithm: Option<Vec<u8>>,
    pub opaque: Option<Vec<u8>>,
}

/// What a challenge holds.
pub struct ChallengeModel {
    pub realm: Seq<u8>,
    pub nonce: Seq<u8>,
    pub qop: Option<Seq<u8>>,
    pub algorithm: Option<Seq<u8>>,
    pub opaque: Option<Seq<u8>>,
}

/// The contents of an optional byte string.
pub open spec fn opt_view(o: Option<Vec<u8>>) -> Option<Seq<u8>> {
    match o {
        Some(v) => Some(v@),
        None => None,
    }
}

impl View for DigestChallenge {
    type V = ChallengeModel;

    open spec fn view(&self) -> ChallengeModel {
        ChallengeModel {
            realm: self.realm@,
            nonce: self.nonce@,
            qop: opt_view(self.qop),
            algorithm: opt_view(self.algorithm),
            opaque: opt_view(self.opaque),
        }
    }
}

/// The state of the comma splitter after the first `n` bytes of `s`: the
/// pieces that are complete, the piece in progress, and whether a quotation
/// is open. A comma inside a quotation does not split.
pub open spec fn scanned(s: Seq<u8>, n: int) -> (Seq<Seq<u8>>, Seq<u8>, bool)
    decreases n,
{
    if n <= 0 {
        (Seq::empty(), Seq::empty(), false)
    } else {
        let (done, current, quoted) = scanned(s, n - 1);
        let b = s[n - 1];
        if b == 34 {
            (done, current.push(b), !quoted)
        } else if b == 44 && !quoted {
            (done.push(current), Seq::empty(), quoted)
        } else {
            (done, current.push(b), quoted)
        }
    }
}

/// The pieces of `s` between commas that stand outside quotations.
pub open spec fn quoted_pieces(s: Seq<u8>) -> Seq<Seq<u8>> {
    let (done, current, _) = scanned(s, s.len() as int);
    done.push(current)
}

/// `v` without the double quotes that enclose it, if a pair does.
pub open spec fn unquoted(v: Seq<u8>) -> Seq<u8> {
    if v.len() >= 2 && v[0] == 34 && v.last() == 34 {
        v.subrange(1, v.len() - 1)
    } else {
        v
    }
}

/// The parameter that one piece spells: `key=value`, the key trimmed and in
/// lower case, the value trimmed and unquoted. A blank piece, or one with an
/// empty key, spells none.
pub open spec fn parameter_of(piece: Seq<u8>) -> Option<(Seq<u8>, Seq<u8>)> {
    let t = trimmed(piece);
    let (k, v) = split_first(t, seq![61u8]);
    let key = lowercase(trimmed(k));
    let value = unquoted(
        trimmed(
            match v {
                Some(v) => v,
                None => Seq::empty(),
            },
        ),
    );
    if t.len() == 0 || key.len() == 0 {
        None
    } else {
        Some((key, value))
    }
}

/// The parameters that the first `n` pieces spell.
pub open spec fn parameters_upto(pieces: Seq<Seq<u8>>, n: int) -> Seq<(Seq<u8>, Seq<u8>)>
    decreases n,
{
    if n <= 0 {
        Seq::empty()
    } else {
        match parameter_of(pieces[n - 1]) {
            Some(p) => parameters_upto(pieces, n - 1).push(p),
            None => parameters_upto(pieces, n - 1),
        }
    }
}

/// The parameters of a challenge, in order.
pub open spec fn parameters_of(params: Seq<u8>) -> Seq<(Seq<u8>, Seq<u8>)> {
    let pieces = quoted_pieces(params);
    parameters_upto(pieces, pieces.len() as int)
}

/// The value of the last of the first `n` parameters whose key is `key`.
pub open spec fn parameter_value(params: Seq<(Seq<u8>, Seq<u8>)>, key: Seq<u8>, n: int) -> Option<
    Seq<u8>,
>
    decreases n,
{
    if n <= 0 {
        None
    } else if params[n - 1].0 == key {
        Some(params[n - 1].1)
    } else {
        parameter_value(params, key, n - 1)
    }
}

/// The value of the parameter `key`.
pub open spec fn parameter(params: Seq<(Seq<u8>, Seq<u8>)>, key: Seq<u8>) -> Option<Seq<u8>> {
    parameter_value(params, key, params.len() as int)
}

/// Whether one of the first `n` items is `auth` once trimmed.
pub open spec fn offers_auth(items: Seq<Seq<u8>>, n: int) -> bool
    decreases n,
{
    if n <= 0 {
        false
    } else {
        trimmed(items[n - 1]) == lit("auth") || offers_auth(items, n - 1)
    }
}

/// The quality of protection to use: `auth` where the server's
/// comma-separated list offers it, else the list as it stands.
pub open spec fn chosen_qop(value: Option<Seq<u8>>) -> Option<Seq<u8>> {
    match value {
        Some(v) => {
            let items = split_on(v, seq![44u8]);
            if offers_auth(items, items.len() as int) {
                Some(lit("auth"))
            } else {
                Some(v)
            }
        },
        None => None,
    }
}

/// The challenge that a `WWW-Authenticate` value spells: the word `Digest`
/// in any case, then parameters of which `realm` and `nonce` must be there.
pub open spec fn challenge_of(header: Seq<u8>) -> Option<ChallengeModel> {
    if !has_prefix(lowercase(header), lit("digest")) {
        None
    } else {
        let params = parameters_of(trimmed(header.skip(lit("digest").len() as int)));
        if parameter(params, lit("realm")).is_none() || parameter(params, lit("nonce")).is_none() {
            None
        } else {
            Some(
                ChallengeModel {
                    realm: parameter(params, lit("realm")).unwrap(),
                    nonce: parameter(params, lit("nonce")).unwrap(),
                    qop: chosen_qop(parameter(params, lit("qop"))),
                    algorithm: parameter(params, lit("algorithm")),
                    opaque: parameter(params, lit("opaque")),
                },
            )
        }
    }
}

/// The key and value of each parameter.
pub open spec fn parameter_views(params: Seq<Parameter>) -> Seq<(Seq<u8>, Seq<u8>)> {
    Seq::new(params.len(), |i: int| (params[i].key@, params[i].value@))
}

/// Reads the parameter that one piece spells into `list`, and empties the
/// piece.
#[verifier::rlimit(40)]
pub fn consume_param(list: &mut Vec<Parameter>, buffer: &mut Vec<u8>)
    ensures
        final(buffer)@ == Seq::<u8>::empty(),
        parameter_views(final(list)@) == match parameter_of(old(buffer)@) {
            Some(p) => parameter_views(old(list)@).push(p),
            None => parameter_views(old(list)@),
        },
{
    let t = trim(buffer.as_slice());
    buffer.clear();
    if t.len() == 0 {
        return ;
    }
    let eq: [u8; 1] = [61u8];
    assert(eq@ =~= seq![61u8]);
    let (k, v) = split_once(t.as_slice(), eq.as_slice());
    let kt = trim(k.as_slice());
    let key = to_lowercase(kt.as_slice());
    let raw: Vec<u8> = match v {
        Some(v) => trim(v.as_slice()),
        None => Vec::new(),
    };
    let n: usize = raw.len();
    let ghost raw_view = raw@;
    let value: Vec<u8> = if n >= 2 && raw[0] == 34 && raw[n - 1] == 34 {
        copy_range(raw.as_slice(), 1, n - 1)
    } else {
        raw
    };
    assert(value@ == unquoted(raw_view));
    assert(t@ == trimmed(old(buffer)@));
    assert(key@ == lowercase(trimmed(split_first(t@, seq![61u8]).0)));
    assert(raw_view == trimmed(
        match split_first(t@, seq![61u8]).1 {
            Some(v) => v,
            None => Seq::empty(),
        },
    ));
    assert(parameter_of(old(buffer)@) == if key@.len() == 0 {
        None
    } else {
        Some((key@, value@))
    });
    if key.len() > 0 {
        let ghost before = list@;
        let p = Parameter { key, value };
        list.push(p);
        assert(parameter_views(list@) =~= parameter_views(before).push((p.key@, p.value@)));
    }
}

/// Splits the parameters of a challenge at the commas that stand outside
/// quotations and reads each.
pub fn parse_parameters(params: &[u8]) -> (r: Vec<Parameter>)
    ensures
        parameter_views(r@) == parameters_of(params@),
{
    let mut list: Vec<Parameter> = Vec::new();
    let mut current: Vec<u8> = Vec::new();
    let mut quoted: bool = false;
    let mut i: usize = 0;
    assert(parameter_views(list@) =~= Seq::<(Seq<u8>, Seq<u8>)>::empty());
    while i < params.len()
        invariant
            i <= params@.len(),
            current@ == scanned(params@, i as int).1,
            quoted == scanned(params@, i as int).2,
            parameter_views(list@) == parameters_upto(
                scanned(params@, i as int).0,
                scanned(params@, i as int).0.len() as int,
            ),
        decreases params@.len() - i,
    {
        let b: u8 = params[i];
        let ghost done = scanned(params@, i as int).0;
        if b == 34 {
            quoted = !quoted;
            current.push(b);
        } else if b == 44 && !quoted {
            proof {
                let grown = done.push(current@);
                assert(grown.len() == done.len() + 1);
                assert(grown[grown.len() - 1] == current@);
                lemma_parameters_prefix(grown, done, done.len() as int);
            }
            consume_param(&mut list, &mut current);
        } else {
            current.push(b);
        }
        i += 1;
    }
    proof {
        let done = scanned(params@, i as int).0;
        let grown = done.push(current@);
        assert(grown[grown.len() - 1] == current@);
        lemma_parameters_prefix(grown, done, done.len() as int);
    }
    consume_param(&mut list, &mut current);
    list
}

/// The parameters of the first `n` pieces depend on those pieces only.
proof fn lemma_parameters_prefix(a: Seq<Seq<u8>>, b: Seq<Seq<u8>>, n: int)
    requires
        0 <= n <= a.len(),
        n <= b.len(),
        forall|i: int| 0 <= i < n ==> a[i] == b[i],
    ensures
        parameters_upto(a, n) == parameters_upto(b, n),
    decreases n,
{
    if n > 0 {
        lemma_parameters_prefix(a, b, n - 1);
    }
}

/// Finds the value of the parameter `key`.
fn find_parameter<'a>(list: &'a Vec<Parameter>, key: &str) -> (r: Option<&'a Vec<u8>>)
    ensures
        match r {
            Some(v) => parameter(parameter_views(list@), lit(key)) == Some(v@),
            None => parameter(parameter_views(list@), lit(key)).is_none(),
        },
{
    let mut n: usize = list.len();
    let ghost pv = parameter_views(list@);
    while n > 0
        invariant
            n <= list@.len(),
            pv == parameter_views(list@),
            parameter(pv, lit(key)) == parameter_value(pv, lit(key), n as int),
        decreases n,
    {
        if bytes_eq(list[n - 1].key.as_slice(), key.as_bytes()) {
            return Some(&list[n - 1].value);
        }
        n -= 1;
    }
    None
}

/// A copy of an optional byte string.
fn copied(v: Option<&Vec<u8>>) -> (r: Option<Vec<u8>>)
    ensures
        match v {
            Some(x) => opt_view(r) == Some(x@),
            None => r.is_none(),
        },
{
    match v {
        Some(x) => Some(slice_to_vec(x.as_slice())),
        None => None,
    }
}

/// Chooses the quality of protection from what the server offers.
fn choose_qop(value: Option<&Vec<u8>>) -> (r: Option<Vec<u8>>)
    ensures
        opt_view(r) == chosen_qop(
            match value {
                Some(v) => Some(v@),
                None => None,
            },
        ),
{
    match value {
        None => None,
        Some(v) => {
            let comma: [u8; 1] = [44u8];
            assert(comma@ =~= seq![44u8]);
            let items = split(v.as_slice(), comma.as_slice());
            let mut n: usize = items.len();
            let ghost all = views(items@);
            while n > 0
                invariant
                    n <= items@.len(),
                    all == views(items@),
                    all == split_on(v@, seq![44u8]),
                    value == Some(v),
                    offers_auth(all, all.len() as int) == offers_auth(all, n as int),
                decreases n,
            {
                let t = trim(items[n - 1].as_slice());
                assert(all[n - 1] == items@[n - 1]@);
                if bytes_eq(t.as_slice(), "auth".as_bytes()) {
                    return Some(slice_to_vec("auth".as_bytes()));
                }
                n -= 1;
            }
            Some(slice_to_vec(v.as_slice()))
        },
    }
}

impl DigestChallenge {
    /// Reads a challenge from the value of a `WWW-Authenticate` header.
    pub fn from_header(header_value: &[u8]) -> (r: Option<DigestChallenge>)
        ensures
            match r {
                Some(c) => challenge_of(header_value@) == Some(c@),
                None => challenge_of(header_value@).is_none(),
            },
    {
        let lower = to_lowercase(header_value);
        let word = "digest".as_bytes();
        if !starts_with(lower.as_slice(), word) {
            return None;
        }
        let rest = copy_range(header_value, word.len(), header_value.len());
        assert(rest@ =~= header_value@.skip(lit("digest").len() as int));
        let params = trim(rest.as_slice());
        let list = parse_parameters(params.as_slice());
        let realm = match find_parameter(&list, "realm") {
            Some(v) => slice_to_vec(v.as_slice()),
            None => {
                return None;
            },
        };
        let nonce = match find_parameter(&list, "nonce") {
            Some(v) => slice_to_vec(v.as_slice()),
            None => {
                return None;
            },
        };
        let qop = choose_qop(find_parameter(&list, "qop"));
        let algorithm = copied(find_parameter(&list, "algorithm"));
        let opaque = copied(find_parameter(&list, "opaque"));
        Some(DigestChallenge { realm, nonce, qop, algorithm, opaque })
    }
}

/// What an authenticator holds.
pub struct AuthModel {
    pub username: Seq<u8>,
    pub password: Seq<u8>,
    /// The challenge in force; none before the first challenge.
    pub digest: Option<ChallengeModel>,
    /// How many requests have been authorized with a quality of protection
    /// under the challenge in force.
    pub nonce_count: u32,
    /// The client nonce: hexadecimal digits.
    pub cnonce: Seq<u8>,
}

/// Produces the `Authorization` header for each request of a session.
pub struct RtspAuthenticator {
    credentials: RtspCredentials,
    digest: Option<DigestChallenge>,
    nonce_count: u32,
    cnonce: Vec<u8>,
}

impl View for RtspAuthenticator {
    type V = AuthModel;

    closed spec fn view(&self) -> AuthModel {
        AuthModel {
            username: self.credentials.username@,
            password: self.credentials.password@,
            digest: match self.digest {
                Some(c) => Some(c@),
                None => None,
            },
            nonce_count: self.nonce_count,
            cnonce: self.cnonce@,
        }
    }
}

/// Two texts with a colon between them.
pub open spec fn colon_joined(a: Seq<u8>, b: Seq<u8>) -> Seq<u8> {
    a + seq![58u8] + b
}

/// The Basic header for `m`: the Base64 text of `username:password`.
pub open spec fn basic_header(m: AuthModel) -> Seq<u8> {
    lit("Authorization: Basic ") + base64_text(colon_joined(m.username, m.password))
}

/// The nonce count as it is sent: eight lower-case hexadecimal digits.
pub open spec fn nonce_count_text(count: u32) -> Seq<u8> {
    hex(u32_be(count), false)
}

/// The count after one more request; it stops at its largest value.
pub open spec fn next_count(count: u32) -> u32 {
    if count == 0xFFFF_FFFF {
        count
    } else {
        (count + 1) as u32
    }
}

/// The quality of protection of a request: the chosen quality, the nonce
/// count as text, and the client nonce.
pub struct Protection {
    pub qop: Seq<u8>,
    pub count: Seq<u8>,
    pub cnonce: Seq<u8>,
}

/// The text whose digest is the response: `HA1:nonce:HA2`, or with a quality
/// of protection `HA1:nonce:nc:cnonce:qop:HA2`.
pub open spec fn response_input_text(
    ha1: Seq<u8>,
    nonce: Seq<u8>,
    protection: Option<Protection>,
    ha2: Seq<u8>,
) -> Seq<u8> {
    match protection {
        Some(p) => colon_joined(
            colon_joined(colon_joined(colon_joined(colon_joined(ha1, nonce), p.count), p.cnonce), p.qop),
            ha2,
        ),
        None => colon_joined(colon_joined(ha1, nonce), ha2),
    }
}

/// The Digest header line with the given response.
pub open spec fn digest_line(
    username: Seq<u8>,
    challenge: ChallengeModel,
    uri: Seq<u8>,
    response: Seq<u8>,
    protection: Option<Protection>,
) -> Seq<u8> {
    lit("Authorization: Digest username=\"") + username + lit("\", realm=\"") + challenge.realm
        + lit("\", nonce=\"") + challenge.nonce + lit("\", uri=\"") + uri + lit(
        "\", response=\"",
    ) + response + lit("\"") + (match protection {
        Some(p) => lit(", qop=") + p.qop + lit(", nc=") + p.count + lit(", cnonce=\"") + p.cnonce
            + lit("\""),
        None => Seq::empty(),
    }) + (match challenge.opaque {
        Some(o) => lit(", opaque=\"") + o + lit("\""),
        None => Seq::empty(),
    }) + (match challenge.algorithm {
        Some(a) => lit(", algorithm=") + a,
        None => Seq::empty(),
    })
}

/// The protection of the next request under `challenge`, if it asks for one.
pub open spec fn protection_of(m: AuthModel, challenge: ChallengeModel) -> Option<Protection> {
    match challenge.qop {
        Some(q) => Some(
            Protection {
                qop: q,
                count: nonce_count_text(next_count(m.nonce_count)),
                cnonce: m.cnonce,
            },
        ),
        None => None,
    }
}

/// The Digest header for a request under `challenge`.
pub open spec fn digest_header(
    m: AuthModel,
    challenge: ChallengeModel,
    method: Seq<u8>,
    uri: Seq<u8>,
) -> Seq<u8> {
    let ha1 = md5_hex_text(
        colon_joined(colon_joined(m.username, challenge.realm), m.password),
    );
    let ha2 = md5_hex_text(colon_joined(method, uri));
    let protection = protection_of(m, challenge);
    let response = md5_hex_text(response_input_text(ha1, challenge.nonce, protection, ha2));
    digest_line(m.username, challenge, uri, response, protection)
}

/// The header for the next request, and the authenticator after it: a
/// Digest header under the challenge in force, else a Basic header. A
/// request under a challenge with a quality of protection counts.
pub open spec fn authorized(m: AuthModel, method: Seq<u8>, uri: Seq<u8>) -> (Seq<u8>, AuthModel) {
    match m.digest {
        Some(c) => (
            digest_header(m, c, method, uri),
            if c.qop.is_some() {
                AuthModel { nonce_count: next_count(m.nonce_count), ..m }
            } else {
                m
            },
        ),
        None => (basic_header(m), m),
    }
}

/// The authenticator after a `WWW-Authenticate` value has arrived: a Digest
/// challenge takes force with a count of zero and the fresh client nonce;
/// anything else changes nothing.
pub open spec fn challenged(m: AuthModel, header: Seq<u8>, cnonce: Seq<u8>) -> AuthModel {
    match challenge_of(header) {
        Some(c) => AuthModel { digest: Some(c), nonce_count: 0, cnonce, ..m },
        None => m,
    }
}

/// Joins two texts with a colon.
pub fn join_colon(a: &[u8], b: &[u8]) -> (r: Vec<u8>)
    ensures
        r@ == colon_joined(a@, b@),
{
    let mut out: Vec<u8> = Vec::new();
    append(&mut out, a);
    out.push(58);
    append(&mut out, b);
    assert(out@ =~= colon_joined(a@, b@));
    out
}

/// The nonce count as eight lower-case hexadecimal digits.
pub fn format_nonce_count(count: u32) -> (r: Vec<u8>)
    ensures
        r@ == nonce_count_text(count),
{
    let mut bytes: Vec<u8> = Vec::new();
    write_u32(&mut bytes, count);
    assert(bytes@ =~= u32_be(count));
    let mut out: Vec<u8> = Vec::new();
    push_hex(&mut out, bytes.as_slice(), false);
    assert(out@ =~= nonce_count_text(count));
    out
}

/// The quality of protection of a request, as the header builder takes it.
pub struct RequestProtection {
    pub qop: Vec<u8>,
    pub count: Vec<u8>,
    pub cnonce: Vec<u8>,
}

impl View for RequestProtection {
    type V = Protection;

    open spec fn view(&self) -> Protection {
        Protection { qop: self.qop@, count: self.count@, cnonce: self.cnonce@ }
    }
}

/// The contents of an optional protection.
pub open spec fn protection_view(p: Option<RequestProtection>) -> Option<Protection> {
    match p {
        Some(p) => Some(p@),
        None => None,
    }
}

/// Builds the text whose digest is the response.
pub fn response_input(
    ha1: &[u8],
    nonce: &[u8],
    protection: &Option<RequestProtection>,
    ha2: &[u8],
) -> (r: Vec<u8>)
    ensures
        r@ == response_input_text(ha1@, nonce@, protection_view(*protection), ha2@),
{
    let start = join_colon(ha1, nonce);
    match protection {
        Some(p) => {
            let a = join_colon(start.as_slice(), p.count.as_slice());
            let b = join_colon(a.as_slice(), p.cnonce.as_slice());
            let c = join_colon(b.as_slice(), p.qop.as_slice());
            join_colon(c.as_slice(), ha2)
        },
        None => join_colon(start.as_slice(), ha2),
    }
}

/// Builds the Digest header line around a response that has been computed.
#[verifier::rlimit(40)]
pub fn digest_authorization_line(
    username: &[u8],
    challenge: &DigestChallenge,
    uri: &[u8],
    response: &[u8],
    protection: &Option<RequestProtection>,
) -> (r: Vec<u8>)
    ensures
        r@ == digest_line(username@, challenge@, uri@, response@, protection_view(*protection)),
{
    let mut out: Vec<u8> = Vec::new();
    append(&mut out, "Authorization: Digest username=\"".as_bytes());
    append(&mut out, username);
    append(&mut out, "\", realm=\"".as_bytes());
    append(&mut out, challenge.realm.as_slice());
    append(&mut out, "\", nonce=\"".as_bytes());
    append(&mut out, challenge.nonce.as_slice());
    append(&mut out, "\", uri=\"".as_bytes());
    append(&mut out, uri);
    append(&mut out, "\", response=\"".as_bytes());
    append(&mut out, response);
    append(&mut out, "\"".as_bytes());
    let ghost head = out@;
    let ghost mut part1: Seq<u8> = Seq::empty();
    match protection {
        Some(p) => {
            append(&mut out, ", qop=".as_bytes());
            append(&mut out, p.qop.as_slice());
            append(&mut out, ", nc=".as_bytes());
            append(&mut out, p.count.as_slice());
            append(&mut out, ", cnonce=\"".as_bytes());
            append(&mut out, p.cnonce.as_slice());
            append(&mut out, "\"".as_bytes());
            proof {
                part1 = lit(", qop=") + p.qop@ + lit(", nc=") + p.count@ + lit(", cnonce=\"")
                    + p.cnonce@ + lit("\"");
            }
        },
        None => {},
    }
    assert(out@ =~= head + part1);
    let ghost mut part2: Seq<u8> = Seq::empty();
    match &challenge.opaque {
        Some(o) => {
            append(&mut out, ", opaque=\"".as_bytes());
            append(&mut out, o.as_slice());
            append(&mut out, "\"".as_bytes());
            proof {
                part2 = lit(", opaque=\"") + o@ + lit("\"");
            }
        },
        None => {},
    }
    assert(out@ =~= head + part1 + part2);
    let ghost mut part3: Seq<u8> = Seq::empty();
    match &challenge.algorithm {
        Some(a) => {
            append(&mut out, ", algorithm=".as_bytes());
            append(&mut out, a.as_slice());
            proof {
                part3 = lit(", algorithm=") + a@;
            }
        },
        None => {},
    }
    assert(out@ =~= head + part1 + part2 + part3);
    assert(head =~= lit("Authorization: Digest username=\"") + username@ + lit("\", realm=\"")
        + challenge.realm@ + lit("\", nonce=\"") + challenge.nonce@ + lit("\", uri=\"") + uri@
        + lit("\", response=\"") + response@ + lit("\""));
    out
}

impl RtspAuthenticator {
    /// The credentials are short enough for their Base64 text to be
    /// addressable.
    pub open spec fn wf(&self) -> bool {
        encodable((self@.username.len() + 1 + self@.password.len()) as int)
    }

    /// An authenticator without a challenge whose client nonce spells the
    /// bytes of `seed` in hexadecimal digits.
    pub fn with_cnonce(credentials: RtspCredentials, seed: &[u8]) -> (r: Self)
        requires
            encodable((credentials.username@.len() + 1 + credentials.password@.len()) as int),
        ensures
            r.wf(),
            r@ == (AuthModel {
                username: credentials.username@,
                password: credentials.password@,
                digest: None,
                nonce_count: 0,
                cnonce: hex(seed@, false),
            }),
    {
        let mut cnonce: Vec<u8> = Vec::new();
        push_hex(&mut cnonce, seed, false);
        assert(cnonce@ =~= hex(seed@, false));
        RtspAuthenticator { credentials, digest: None, nonce_count: 0, cnonce }
    }

    /// An authenticator without a challenge, with a client nonce of 32
    /// hexadecimal digits drawn at random.
    pub fn new(credentials: RtspCredentials) -> (r: Self)
        requires
            encodable((credentials.username@.len() + 1 + credentials.password@.len()) as int),
        ensures
            r.wf(),
            r@.username == credentials.username@,
            r@.password == credentials.password@,
            r@.digest.is_none(),
            r@.nonce_count == 0,
            is_cnonce(r@.cnonce),
            r@.cnonce.len() == 32,
    {
        let seed = random_bytes(CNONCE_BYTES);
        proof {
            crate::numeral::lemma_hex_len(seed@, false);
        }
        Self::with_cnonce(credentials, seed.as_slice())
    }

    /// Takes in the value of a `WWW-Authenticate` header. A Digest challenge
    /// takes force: the nonce count starts again at zero and the client
    /// nonce becomes the hexadecimal digits of `seed`. Returns whether the
    /// value was a Digest challenge.
    pub fn update_challenge_with(&mut self, header_value: &[u8], seed: &[u8]) -> (r: bool)
        requires
            old(self).wf(),
        ensures
            final(self).wf(),
            r == challenge_of(header_value@).is_some(),
            final(self)@ == challenged(old(self)@, header_value@, hex(seed@, false)),
    {
        match DigestChallenge::from_header(header_value) {
            None => false,
            Some(challenge) => {
                self.digest = Some(challenge);
                self.nonce_count = 0;
                let mut cnonce: Vec<u8> = Vec::new();
                push_hex(&mut cnonce, seed, false);
                assert(cnonce@ =~= hex(seed@, false));
                self.cnonce = cnonce;
                true
            },
        }
    }

    /// Takes in the value of a `WWW-Authenticate` header. A Digest challenge
    /// takes force: the nonce count starts again at zero and a new client
    /// nonce of 32 hexadecimal digits is drawn at random. Returns whether
    /// the value was a Digest challenge.
    pub fn update_challenge(&mut self, header_value: &[u8]) -> (r: bool)
        requires
            old(self).wf(),
        ensures
            final(self).wf(),
            r == challenge_of(header_value@).is_some(),
            final(self)@ == challenged(old(self)@, header_value@, final(self)@.cnonce),
            r ==> is_cnonce(final(self)@.cnonce) && final(self)@.cnonce.len() == 32,
    {
        let seed = random_bytes(CNONCE_BYTES);
        proof {
            crate::numeral::lemma_hex_len(seed@, false);
        }
        self.update_challenge_with(header_value, seed.as_slice())
    }

    /// The Basic header.
    fn basic_authorization(&self) -> (r: Vec<u8>)
        requires
            self.wf(),
        ensures
            r@ == basic_header(self@),
    {
        let raw = join_colon(
            self.credentials.username.as_slice(),
            self.credentials.password.as_slice(),
        );
        let encoded = base64_encode(raw.as_slice());
        let mut out: Vec<u8> = Vec::new();
        append(&mut out, "Authorization: Basic ".as_bytes());
        append(&mut out, encoded.as_slice());
        assert(out@ =~= basic_header(self@));
        out
    }

    /// The Digest header under `challenge`; counts the request when the
    /// challenge asks for a quality of protection.
    fn digest_authorization(&mut self, method: &[u8], uri: &[u8], challenge: &DigestChallenge) -> (r:
        Vec<u8>)
        ensures
            r@ == digest_header(old(self)@, challenge@, method@, uri@),
            final(self)@ == if challenge@.qop.is_some() {
                AuthModel { nonce_count: next_count(old(self)@.nonce_count), ..old(self)@ }
            } else {
                old(self)@
            },
    {
        let user_realm = join_colon(
            self.credentials.username.as_slice(),
            challenge.realm.as_slice(),
        );
        let secret = join_colon(user_realm.as_slice(), self.credentials.password.as_slice());
        let ha1 = md5_hex(secret.as_slice());
        let request = join_colon(method, uri);
        let ha2 = md5_hex(request.as_slice());
        let protection: Option<RequestProtection> = match &challenge.qop {
            Some(q) => {
                if self.nonce_count < 0xFFFF_FFFF {
                    self.nonce_count = self.nonce_count + 1;
                }
                Some(
                    RequestProtection {
                        qop: slice_to_vec(q.as_slice()),
                        count: format_nonce_count(self.nonce_count),
                        cnonce: slice_to_vec(self.cnonce.as_slice()),
                    },
                )
            },
            None => None,
        };
        let input = response_input(
            ha1.as_slice(),
            challenge.nonce.as_slice(),
            &protection,
            ha2.as_slice(),
        );
        let response = md5_hex(input.as_slice());
        digest_authorization_line(
            self.credentials.username.as_slice(),
            challenge,
            uri,
            response.as_slice(),
            &protection,
        )
    }

    /// The `Authorization` header line for the next request: Digest under
    /// the challenge in force, else Basic.
    ///
    /// Under a challenge with a quality of protection the nonce count goes
    /// up by one with every call, and stays at its largest value once there.
    pub fn authorization_header(&mut self, method: &[u8], uri: &[u8]) -> (r: Vec<u8>)
        requires
            old(self).wf(),
        ensures
            final(self).wf(),
            (r@, final(self)@) == authorized(old(self)@, method@, uri@),
    {
        let mut challenge: Option<DigestChallenge> = None;
        core::mem::swap(&mut challenge, &mut self.digest);
        match challenge {
            Some(c) => {
                let r = self.digest_authorization(method, uri, &c);
                self.digest = Some(c);
                r
            },
            None => self.basic_authorization(),
        }
    }
}

/// The nonce count goes up by exactly one with every request that is
/// authorized under a challenge with a quality of protection, as long as it
/// is below its largest value; the request changes nothing else, and the
/// count that the request carries is the count after it. A new challenge
/// sets the count back to zero.
pub proof fn lemma_nonce_count(
    m: AuthModel,
    method: Seq<u8>,
    uri: Seq<u8>,
    header: Seq<u8>,
    cnonce: Seq<u8>,
)
    ensures
        m.digest.is_some() && m.digest.unwrap().qop.is_some() && m.nonce_count < 0xFFFF_FFFF
            ==> authorized(m, method, uri).1 == (AuthModel {
            nonce_count: (m.nonce_count + 1) as u32,
            ..m
        }),
        m.digest.is_some() && m.digest.unwrap().qop.is_some() ==> protection_of(
            m,
            m.digest.unwrap(),
        ) == Some(
            Protection {
                qop: m.digest.unwrap().qop.unwrap(),
                count: nonce_count_text(authorized(m, method, uri).1.nonce_count),
                cnonce: m.cnonce,
            },
        ),
        challenge_of(header).is_some() ==> challenged(m, header, cnonce).nonce_count == 0,
{
}

/// The first nonce count is sent as `00000001`.
pub proof fn lemma_first_count_text()
    ensures
        nonce_count_text(1) == lit("00000001"),
{
    reveal_strlit("00000001");
    vstd::string::is_ascii_spec_bytes("00000001");
    reveal_with_fuel(hex, 5);
    let bytes = u32_be(1);
    assert(bytes =~= seq![0u8, 0u8, 0u8, 1u8]);
    assert(bytes.drop_last() =~= seq![0u8, 0u8, 0u8]);
    assert(bytes.drop_last().drop_last() =~= seq![0u8, 0u8]);
    assert(bytes.drop_last().drop_last().drop_last() =~= seq![0u8]);
    assert(bytes.drop_last().drop_last().drop_last().drop_last() =~= Seq::<u8>::empty());
    assert(hex(bytes, false) =~= seq![48u8, 48u8, 48u8, 48u8, 48u8, 48u8, 48u8, 49u8]);
    assert(lit("00000001") =~= seq![48u8, 48u8, 48u8, 48u8, 48u8, 48u8, 48u8, 49u8]);
}

/// The first request under a challenge with a quality of protection.
///
/// Right after a challenge has taken force, the header carries the chosen
/// quality, the count `00000001` and the client nonce, and its response is
/// the digest of `HA1:nonce:00000001:cnonce:qop:HA2`, where `HA1` is the
/// digest of `username:realm:password` and `HA2` that of `method:uri`.
pub proof fn lemma_first_digest_request(m: AuthModel, method: Seq<u8>, uri: Seq<u8>)
    requires
        m.digest.is_some(),
        m.digest.unwrap().qop.is_some(),
        m.nonce_count == 0,
    ensures
        ({
            let c = m.digest.unwrap();
            let ha1 = md5_hex_text(colon_joined(colon_joined(m.username, c.realm), m.password));
            let ha2 = md5_hex_text(colon_joined(method, uri));
            let protection = Protection {
                qop: c.qop.unwrap(),
                count: lit("00000001"),
                cnonce: m.cnonce,
            };
            let response = md5_hex_text(
                colon_joined(
                    colon_joined(
                        colon_joined(
                            colon_joined(colon_joined(ha1, c.nonce), lit("00000001")),
                            m.cnonce,
                        ),
                        c.qop.unwrap(),
                    ),
                    ha2,
                ),
            );
            &&& authorized(m, method, uri).0 == digest_line(
                m.username,
                c,
                uri,
                response,
                Some(protection),
            )
            &&& authorized(m, method, uri).1.nonce_count == 1
        }),
{
    lemma_first_count_text();
}

} // verus!

//! ISO base media file format boxes for fragmented H.264: the
//! initialization segment (`ftyp` and `moov`) and the boxes of one media
//! part (`styp`, `moof`, `mdat`).
//!
//! A box is a 32-bit big-endian size, a four-letter type and a payload. The
//! size counts the eight header bytes. Where a number is wider than its
//! field, the field holds its low bits.

use vstd::prelude::*;
use crate::numeral::{hex_byte, hex_digit, push_hex_byte};
use crate::octets::{append, u16_be, u32_be, u64_be, write_u16, write_u32, write_u64};
use crate::text::{lit, views};

verus! {

/// The timescale of the movie and of its one track: ticks per second.
pub const TIMESCALE: u32 = 90_000;

/// Sample flags of a sample that is a sync sample.
pub const SAMPLE_FLAG_SYNC: u32 = 0x02000000;

/// Sample flags of a sample that depends on others and is no sync sample.
pub const SAMPLE_FLAG_NON_SYNC: u32 = 0x01010000;

/// The low 16 bits of `n`.
pub open spec fn low16(n: int) -> u16 {
    (n % 0x1_0000) as u16
}

/// The low 32 bits of `n`.
pub open spec fn low32(n: int) -> u32 {
    (n % 0x1_0000_0000) as u32
}

/// The low 16 bits of a length.
pub fn len16(n: usize) -> (r: u16)
    ensures
        r == low16(n as int),
{
    (n % 0x1_0000) as u16
}

/// The low 32 bits of a length.
pub fn len32(n: usize) -> (r: u32)
    ensures
        r == low32(n as int),
{
    ((n as u64) % 0x1_0000_0000) as u32
}

/// The box of type `tag` around `payload`.
pub open spec fn boxed(tag: Seq<u8>, payload: Seq<u8>) -> Seq<u8> {
    u32_be(low32((payload.len() + 8) as int)) + tag + payload
}

/// Wraps `payload` in a box of type `tag`.
pub fn make_box(tag: &str, payload: Vec<u8>) -> (r: Vec<u8>)
    ensures
        r@ == boxed(lit(tag), payload@),
{
    let size: u32 = (((payload.len() as u128) + 8) % 0x1_0000_0000) as u32;
    let mut out: Vec<u8> = Vec::new();
    write_u32(&mut out, size);
    append(&mut out, tag.as_bytes());
    append(&mut out, payload.as_slice());
    assert(out@ =~= boxed(lit(tag), payload@));
    out
}

/// The identity matrix of a movie or track header: nine 32-bit fixed-point
/// numbers.
pub open spec fn matrix() -> Seq<u8> {
    u32_be(0x00010000) + u32_be(0) + u32_be(0) + u32_be(0) + u32_be(0x00010000) + u32_be(0)
        + u32_be(0) + u32_be(0) + u32_be(0x40000000)
}

/// Appends the identity matrix.
pub fn write_matrix(out: &mut Vec<u8>)
    ensures
        final(out)@ == old(out)@ + matrix(),
{
    write_u32(out, 0x00010000);
    write_u32(out, 0);
    write_u32(out, 0);
    write_u32(out, 0);
    write_u32(out, 0x00010000);
    write_u32(out, 0);
    write_u32(out, 0);
    write_u32(out, 0);
    write_u32(out, 0x40000000);
    assert(out@ =~= old(out)@ + matrix());
}

/// `n` zero bytes.
pub open spec fn zero_bytes(n: nat) -> Seq<u8> {
    Seq::new(n, |i: int| 0u8)
}

/// Appends `n` zero bytes.
pub fn write_zeros(out: &mut Vec<u8>, n: usize)
    ensures
        final(out)@ == old(out)@ + zero_bytes(n as nat),
{
    let mut i: usize = 0;
    assert(out@ =~= old(out)@ + zero_bytes(0));
    while i < n
        invariant
            i <= n,
            out@ == old(out)@ + zero_bytes(i as nat),
        decreases n - i,
    {
        out.push(0);
        i += 1;
        assert(out@ =~= old(out)@ + zero_bytes(i as nat));
    }
}

/// The file type box of an initialization segment: major brand `isom`,
/// minor version 0x200, compatible brands `isom`, `iso6`, `avc1`, `cmfc`.
pub open spec fn ftyp() -> Seq<u8> {
    boxed(
        lit("ftyp"),
        lit("isom") + u32_be(0x200) + lit("isom") + lit("iso6") + lit("avc1") + lit("cmfc"),
    )
}

/// Builds the file type box.
pub fn build_ftyp() -> (r: Vec<u8>)
    ensures
        r@ == ftyp(),
{
    let mut payload: Vec<u8> = Vec::new();
    append(&mut payload, "isom".as_bytes());
    write_u32(&mut payload, 0x200);
    append(&mut payload, "isom".as_bytes());
    append(&mut payload, "iso6".as_bytes());
    append(&mut payload, "avc1".as_bytes());
    append(&mut payload, "cmfc".as_bytes());
    assert(payload@ =~= lit("isom") + u32_be(0x200) + lit("isom") + lit("iso6") + lit("avc1") + lit(
        "cmfc",
    ));
    make_box("ftyp", payload)
}

/// The segment type box of a media part: major brand `msdh`, minor version
/// 0, compatible brands `msdh`, `msix`, `iso6`, `avc1`, `cmfc`.
pub open spec fn styp() -> Seq<u8> {
    boxed(
        lit("styp"),
        lit("msdh") + u32_be(0) + lit("msdh") + lit("msix") + lit("iso6") + lit("avc1") + lit(
            "cmfc",
        ),
    )
}

/// Builds the segment type box.
pub fn build_styp() -> (r: Vec<u8>)
    ensures
        r@ == styp(),
{
    let mut payload: Vec<u8> = Vec::new();
    append(&mut payload, "msdh".as_bytes());
    write_u32(&mut payload, 0);
    append(&mut payload, "msdh".as_bytes());
    append(&mut payload, "msix".as_bytes());
    append(&mut payload, "iso6".as_bytes());
    append(&mut payload, "avc1".as_bytes());
    append(&mut payload, "cmfc".as_bytes());
    assert(payload@ =~= lit("msdh") + u32_be(0) + lit("msdh") + lit("msix") + lit("iso6") + lit(
        "avc1",
    ) + lit("cmfc"));
    make_box("styp", payload)
}

/// The movie header: version 0, no times, timescale 90000, duration 0,
/// rate 1.0, volume 1.0, identity matrix, next track 2.
pub open spec fn mvhd() -> Seq<u8> {
    boxed(
        lit("mvhd"),
        u32_be(0) + u32_be(0) + u32_be(0) + u32_be(TIMESCALE) + u32_be(0) + u32_be(0x00010000)
            + u16_be(0x0100) + u16_be(0) + u32_be(0) + u32_be(0) + matrix() + zero_bytes(24)
            + u32_be(2),
    )
}

/// Builds the movie header.
pub fn build_mvhd() -> (r: Vec<u8>)
    ensures
        r@ == mvhd(),
{
    let mut payload: Vec<u8> = Vec::new();
    write_u32(&mut payload, 0);
    write_u32(&mut payload, 0);
    write_u32(&mut payload, 0);
    write_u32(&mut payload, TIMESCALE);
    write_u32(&mut payload, 0);
    write_u32(&mut payload, 0x00010000);
    write_u16(&mut payload, 0x0100);
    write_u16(&mut payload, 0);
    write_u32(&mut payload, 0);
    write_u32(&mut payload, 0);
    write_matrix(&mut payload);
    write_zeros(&mut payload, 24);
    write_u32(&mut payload, 2);
    assert(payload@ =~= u32_be(0) + u32_be(0) + u32_be(0) + u32_be(TIMESCALE) + u32_be(0) + u32_be(
        0x00010000,
    ) + u16_be(0x0100) + u16_be(0) + u32_be(0) + u32_be(0) + matrix() + zero_bytes(24) + u32_be(
        2,
    ));
    make_box("mvhd", payload)
}

/// The low 32 bits of `v` shifted left by 16: a whole number as 16.16
/// fixed point.
pub open spec fn fixed16(v: u32) -> u32 {
    low32(v * 0x1_0000)
}

/// The track header of track 1: enabled, in movie and in preview; the
/// picture size as 16.16 fixed point.
pub open spec fn tkhd(width: u32, height: u32) -> Seq<u8> {
    boxed(
        lit("tkhd"),
        u32_be(0x00000007) + u32_be(0) + u32_be(0) + u32_be(1) + u32_be(0) + u32_be(0) + u32_be(0)
            + u32_be(0) + u16_be(0) + u16_be(0) + u16_be(0) + u16_be(0) + matrix() + u32_be(
            fixed16(width),
        ) + u32_be(fixed16(height)),
    )
}

/// Builds the track header.
pub fn build_tkhd(width: u32, height: u32) -> (r: Vec<u8>)
    ensures
        r@ == tkhd(width, height),
{
    let mut payload: Vec<u8> = Vec::new();
    write_u32(&mut payload, 0x00000007);
    write_u32(&mut payload, 0);
    write_u32(&mut payload, 0);
    write_u32(&mut payload, 1);
    write_u32(&mut payload, 0);
    write_u32(&mut payload, 0);
    write_u32(&mut payload, 0);
    write_u32(&mut payload, 0);
    write_u16(&mut payload, 0);
    write_u16(&mut payload, 0);
    write_u16(&mut payload, 0);
    write_u16(&mut payload, 0);
    write_matrix(&mut payload);
    let w: u32 = (((width as u64) * 0x1_0000) % 0x1_0000_0000) as u32;
    let h: u32 = (((height as u64) * 0x1_0000) % 0x1_0000_0000) as u32;
    write_u32(&mut payload, w);
    write_u32(&mut payload, h);
    assert(payload@ =~= u32_be(0x00000007) + u32_be(0) + u32_be(0) + u32_be(1) + u32_be(0) + u32_be(
        0,
    ) + u32_be(0) + u32_be(0) + u16_be(0) + u16_be(0) + u16_be(0) + u16_be(0) + matrix() + u32_be(
        fixed16(width),
    ) + u32_be(fixed16(height)));
    make_box("tkhd", payload)
}

/// The media header: version 0, no times, timescale 90000, duration 0,
/// language undetermined.
pub open spec fn mdhd() -> Seq<u8> {
    boxed(
        lit("mdhd"),
        u32_be(0) + u32_be(0) + u32_be(0) + u32_be(TIMESCALE) + u32_be(0) + u16_be(0x55c4) + u16_be(
            0,
        ),
    )
}

/// Builds the media header.
pub fn build_mdhd() -> (r: Vec<u8>)
    ensures
        r@ == mdhd(),
{
    let mut payload: Vec<u8> = Vec::new();
    write_u32(&mut payload, 0);
    write_u32(&mut payload, 0);
    write_u32(&mut payload, 0);
    write_u32(&mut payload, TIMESCALE);
    write_u32(&mut payload, 0);
    write_u16(&mut payload, 0x55c4);
    write_u16(&mut payload, 0);
    assert(payload@ =~= u32_be(0) + u32_be(0) + u32_be(0) + u32_be(TIMESCALE) + u32_be(0) + u16_be(
        0x55c4,
    ) + u16_be(0));
    make_box("mdhd", payload)
}

/// The handler box of a video track, named `VideoHandler`.
pub open spec fn hdlr() -> Seq<u8> {
    boxed(
        lit("hdlr"),
        u32_be(0) + u32_be(0) + lit("vide") + u32_be(0) + u32_be(0) + u32_be(0) + lit(
            "VideoHandler",
        ) + seq![0u8],
    )
}

/// Builds the handler box.
pub fn build_hdlr() -> (r: Vec<u8>)
    ensures
        r@ == hdlr(),
{
    let mut payload: Vec<u8> = Vec::new();
    write_u32(&mut payload, 0);
    write_u32(&mut payload, 0);
    append(&mut payload, "vide".as_bytes());
    write_u32(&mut payload, 0);
    write_u32(&mut payload, 0);
    write_u32(&mut payload, 0);
    append(&mut payload, "VideoHandler".as_bytes());
    payload.push(0);
    assert(payload@ =~= u32_be(0) + u32_be(0) + lit("vide") + u32_be(0) + u32_be(0) + u32_be(0)
        + lit("VideoHandler") + seq![0u8]);
    make_box("hdlr", payload)
}

/// The video media header.
pub open spec fn vmhd() -> Seq<u8> {
    boxed(lit("vmhd"), u32_be(0x00000001) + u16_be(0) + u16_be(0) + u16_be(0) + u16_be(0))
}

/// Builds the video media header.
pub fn build_vmhd() -> (r: Vec<u8>)
    ensures
        r@ == vmhd(),
{
    let mut payload: Vec<u8> = Vec::new();
    write_u32(&mut payload, 0x00000001);
    write_u16(&mut payload, 0);
    write_u16(&mut payload, 0);
    write_u16(&mut payload, 0);
    write_u16(&mut payload, 0);
    assert(payload@ =~= u32_be(0x00000001) + u16_be(0) + u16_be(0) + u16_be(0) + u16_be(0));
    make_box("vmhd", payload)
}

/// The data information box: one reference, to the file itself.
pub open spec fn dinf() -> Seq<u8> {
    boxed(
        lit("dinf"),
        boxed(lit("dref"), u32_be(0) + u32_be(1) + boxed(lit("url "), u32_be(0x00000001))),
    )
}

/// Builds the data information box.
pub fn build_dinf() -> (r: Vec<u8>)
    ensures
        r@ == dinf(),
{
    let mut url: Vec<u8> = Vec::new();
    write_u32(&mut url, 0x00000001);
    assert(url@ =~= u32_be(0x00000001));
    let url_box = make_box("url ", url);
    let mut dref: Vec<u8> = Vec::new();
    write_u32(&mut dref, 0);
    write_u32(&mut dref, 1);
    append(&mut dref, url_box.as_slice());
    assert(dref@ =~= u32_be(0) + u32_be(1) + boxed(lit("url "), u32_be(0x00000001)));
    let dref_box = make_box("dref", dref);
    make_box("dinf", dref_box)
}

/// The movie extends box: the defaults of track 1 for fragments.
pub open spec fn mvex() -> Seq<u8> {
    boxed(
        lit("mvex"),
        boxed(
            lit("trex"),
            u32_be(0) + u32_be(1) + u32_be(1) + u32_be(0) + u32_be(0) + u32_be(
                SAMPLE_FLAG_NON_SYNC,
            ),
        ),
    )
}

/// Builds the movie extends box.
pub fn build_mvex() -> (r: Vec<u8>)
    ensures
        r@ == mvex(),
{
    let mut trex: Vec<u8> = Vec::new();
    write_u32(&mut trex, 0);
    write_u32(&mut trex, 1);
    write_u32(&mut trex, 1);
    write_u32(&mut trex, 0);
    write_u32(&mut trex, 0);
    write_u32(&mut trex, SAMPLE_FLAG_NON_SYNC);
    assert(trex@ =~= u32_be(0) + u32_be(1) + u32_be(1) + u32_be(0) + u32_be(0) + u32_be(
        SAMPLE_FLAG_NON_SYNC,
    ));
    let trex_box = make_box("trex", trex);
    make_box("mvex", trex_box)
}

/// The byte of `sps` at `i`; zero past its end.
pub open spec fn sps_byte(sps: Seq<u8>, i: int) -> u8 {
    if 0 <= i < sps.len() {
        sps[i]
    } else {
        0
    }
}

/// The byte of `sps` at `i`; zero past its end.
fn byte_or_zero(sps: &[u8], i: usize) -> (r: u8)
    ensures
        r == sps_byte(sps@, i as int),
{
    if i < sps.len() {
        sps[i]
    } else {
        0
    }
}

/// The AVC configuration box: version 1, the profile, compatibility and
/// level bytes of the sequence parameter set, four-byte NAL lengths, and
/// one parameter set of each kind behind its 16-bit length.
pub open spec fn avcc(sps: Seq<u8>, pps: Seq<u8>) -> Seq<u8> {
    boxed(
        lit("avcC"),
        seq![1u8, sps_byte(sps, 1), sps_byte(sps, 2), sps_byte(sps, 3), 0xFFu8, 0xE1u8] + u16_be(
            low16(sps.len() as int),
        ) + sps + seq![1u8] + u16_be(low16(pps.len() as int)) + pps,
    )
}

/// Builds the AVC configuration box.
pub fn build_avcc(sps: &[u8], pps: &[u8]) -> (r: Vec<u8>)
    ensures
        r@ == avcc(sps@, pps@),
{
    let mut payload: Vec<u8> = Vec::new();
    payload.push(1);
    payload.push(byte_or_zero(sps, 1));
    payload.push(byte_or_zero(sps, 2));
    payload.push(byte_or_zero(sps, 3));
    payload.push(0xFF);
    payload.push(0xE1);
    write_u16(&mut payload, len16(sps.len()));
    append(&mut payload, sps);
    payload.push(1);
    write_u16(&mut payload, len16(pps.len()));
    append(&mut payload, pps);
    assert(payload@ =~= seq![
        1u8,
        sps_byte(sps@, 1),
        sps_byte(sps@, 2),
        sps_byte(sps@, 3),
        0xFFu8,
        0xE1u8,
    ] + u16_be(low16(sps@.len() as int)) + sps@ + seq![1u8] + u16_be(low16(pps@.len() as int))
        + pps@);
    make_box("avcC", payload)
}

/// The codec string of a stream: `avc1.` and the profile, compatibility and
/// level bytes of the sequence parameter set as six upper-case hexadecimal
/// digits.
pub open spec fn codec_string(sps: Seq<u8>) -> Seq<u8> {
    lit("avc1.") + hex_byte(sps_byte(sps, 1), true) + hex_byte(sps_byte(sps, 2), true) + hex_byte(
        sps_byte(sps, 3),
        true,
    )
}

/// Builds the codec string of a stream from its sequence parameter set.
pub fn codec_string_from_sps(sps: &[u8]) -> (r: Vec<u8>)
    ensures
        r@ == codec_string(sps@),
{
    let mut out: Vec<u8> = Vec::new();
    append(&mut out, "avc1.".as_bytes());
    push_hex_byte(&mut out, byte_or_zero(sps, 1), true);
    push_hex_byte(&mut out, byte_or_zero(sps, 2), true);
    push_hex_byte(&mut out, byte_or_zero(sps, 3), true);
    assert(out@ =~= codec_string(sps@));
    out
}

/// Whether `b` is one of the digits `0`–`9`, `A`–`F`.
pub open spec fn is_upper_hex(b: u8) -> bool {
    (48 <= b && b <= 57) || (65 <= b && b <= 70)
}

/// A codec string is `avc1.` followed by exactly six upper-case hexadecimal
/// digits, whatever the parameter set.
pub proof fn lemma_codec_string_shape(sps: Seq<u8>)
    ensures
        codec_string(sps).len() == lit("avc1.").len() + 6,
        codec_string(sps).take(lit("avc1.").len() as int) == lit("avc1."),
        forall|i: int|
            0 <= i < 6 ==> is_upper_hex(#[trigger] codec_string(sps)[lit("avc1.").len() + i]),
{
    let head = lit("avc1.");
    let a = hex_byte(sps_byte(sps, 1), true);
    let b = hex_byte(sps_byte(sps, 2), true);
    let c = hex_byte(sps_byte(sps, 3), true);
    assert(codec_string(sps).take(head.len() as int) =~= head);
    assert forall|i: int| 0 <= i < 6 implies is_upper_hex(
        #[trigger] codec_string(sps)[head.len() + i],
    ) by {
        let digits = a + b + c;
        assert(codec_string(sps)[head.len() + i] == digits[i]);
        assert(forall|v: nat| v < 16 ==> is_upper_hex(#[trigger] hex_digit(v, true)));
    }
}

/// The sample entry of an H.264 track: one frame per sample, 72 dpi, depth
/// 24, the picture size in its low 16 bits, and the AVC configuration.
pub open spec fn avc1(sps: Seq<u8>, pps: Seq<u8>, width: u32, height: u32) -> Seq<u8> {
    boxed(
        lit("avc1"),
        zero_bytes(6) + u16_be(1) + u16_be(0) + u16_be(0) + u32_be(0) + u32_be(0) + u32_be(0)
            + u16_be(low16(width as int)) + u16_be(low16(height as int)) + u32_be(0x00480000)
            + u32_be(0x00480000) + u32_be(0) + u16_be(1) + zero_bytes(32) + u16_be(0x0018) + u16_be(
            0xffff,
        ) + avcc(sps, pps),
    )
}

/// Builds the sample entry.
#[verifier::rlimit(40)]
pub fn build_avc1(sps: &[u8], pps: &[u8], width: u32, height: u32) -> (r: Vec<u8>)
    ensures
        r@ == avc1(sps@, pps@, width, height),
{
    let config = build_avcc(sps, pps);
    let mut payload: Vec<u8> = Vec::new();
    write_zeros(&mut payload, 6);
    write_u16(&mut payload, 1);
    write_u16(&mut payload, 0);
    write_u16(&mut payload, 0);
    write_u32(&mut payload, 0);
    write_u32(&mut payload, 0);
    write_u32(&mut payload, 0);
    write_u16(&mut payload, (width % 0x1_0000) as u16);
    write_u16(&mut payload, (height % 0x1_0000) as u16);
    write_u32(&mut payload, 0x00480000);
    write_u32(&mut payload, 0x00480000);
    write_u32(&mut payload, 0);
    write_u16(&mut payload, 1);
    write_zeros(&mut payload, 32);
    write_u16(&mut payload, 0x0018);
    write_u16(&mut payload, 0xffff);
    append(&mut payload, config.as_slice());
    assert(payload@ =~= zero_bytes(6) + u16_be(1) + u16_be(0) + u16_be(0) + u32_be(0) + u32_be(0)
        + u32_be(0) + u16_be(low16(width as int)) + u16_be(low16(height as int)) + u32_be(
        0x00480000,
    ) + u32_be(0x00480000) + u32_be(0) + u16_be(1) + zero_bytes(32) + u16_be(0x0018) + u16_be(
        0xffff,
    ) + avcc(sps@, pps@));
    make_box("avc1", payload)
}

/// The sample description box: one entry.
pub open spec fn stsd(sps: Seq<u8>, pps: Seq<u8>, width: u32, height: u32) -> Seq<u8> {
    boxed(lit("stsd"), u32_be(0) + u32_be(1) + avc1(sps, pps, width, height))
}

/// Builds the sample description box.
pub fn build_stsd(sps: &[u8], pps: &[u8], width: u32, height: u32) -> (r: Vec<u8>)
    ensures
        r@ == stsd(sps@, pps@, width, height),
{
    let entry = build_avc1(sps, pps, width, height);
    let mut payload: Vec<u8> = Vec::new();
    write_u32(&mut payload, 0);
    write_u32(&mut payload, 1);
    append(&mut payload, entry.as_slice());
    assert(payload@ =~= u32_be(0) + u32_be(1) + avc1(sps@, pps@, width, height));
    make_box("stsd", payload)
}

/// The sample table: the sample description and four empty tables.
pub open spec fn stbl(sps: Seq<u8>, pps: Seq<u8>, width: u32, height: u32) -> Seq<u8> {
    boxed(
        lit("stbl"),
        stsd(sps, pps, width, height) + boxed(lit("stts"), zero_bytes(8)) + boxed(
            lit("stsc"),
            zero_bytes(8),
        ) + boxed(lit("stsz"), zero_bytes(12)) + boxed(lit("stco"), zero_bytes(8)),
    )
}

/// A box of `n` zero bytes.
fn empty_table(tag: &str, n: usize) -> (r: Vec<u8>)
    ensures
        r@ == boxed(lit(tag), zero_bytes(n as nat)),
{
    let mut payload: Vec<u8> = Vec::new();
    write_zeros(&mut payload, n);
    assert(payload@ =~= zero_bytes(n as nat));
    make_box(tag, payload)
}

/// The box of type `tag` around up to three boxes in a row.
fn container(tag: &str, a: &[u8], b: &[u8], c: &[u8]) -> (r: Vec<u8>)
    ensures
        r@ == boxed(lit(tag), a@ + b@ + c@),
{
    let mut payload: Vec<u8> = Vec::new();
    append(&mut payload, a);
    append(&mut payload, b);
    append(&mut payload, c);
    assert(payload@ =~= a@ + b@ + c@);
    make_box(tag, payload)
}

/// Builds the sample table.
pub fn build_stbl(sps: &[u8], pps: &[u8], width: u32, height: u32) -> (r: Vec<u8>)
    ensures
        r@ == stbl(sps@, pps@, width, height),
{
    let stsd = build_stsd(sps, pps, width, height);
    let stts = empty_table("stts", 8);
    let stsc = empty_table("stsc", 8);
    let stsz = empty_table("stsz", 12);
    let stco = empty_table("stco", 8);
    let mut payload: Vec<u8> = Vec::new();
    append(&mut payload, stsd.as_slice());
    append(&mut payload, stts.as_slice());
    append(&mut payload, stsc.as_slice());
    append(&mut payload, stsz.as_slice());
    append(&mut payload, stco.as_slice());
    assert(payload@ =~= stsd@ + stts@ + stsc@ + stsz@ + stco@);
    make_box("stbl", payload)
}

/// The media information box.
pub open spec fn minf(sps: Seq<u8>, pps: Seq<u8>, width: u32, height: u32) -> Seq<u8> {
    boxed(lit("minf"), vmhd() + dinf() + stbl(sps, pps, width, height))
}

/// Builds the media information box.
pub fn build_minf(sps: &[u8], pps: &[u8], width: u32, height: u32) -> (r: Vec<u8>)
    ensures
        r@ == minf(sps@, pps@, width, height),
{
    let vmhd = build_vmhd();
    let dinf = build_dinf();
    let stbl = build_stbl(sps, pps, width, height);
    container("minf", vmhd.as_slice(), dinf.as_slice(), stbl.as_slice())
}

/// The media box.
pub open spec fn mdia(sps: Seq<u8>, pps: Seq<u8>, width: u32, height: u32) -> Seq<u8> {
    boxed(lit("mdia"), mdhd() + hdlr() + minf(sps, pps, width, height))
}

/// Builds the media box.
pub fn build_mdia(sps: &[u8], pps: &[u8], width: u32, height: u32) -> (r: Vec<u8>)
    ensures
        r@ == mdia(sps@, pps@, width, height),
{
    let mdhd = build_mdhd();
    let hdlr = build_hdlr();
    let minf = build_minf(sps, pps, width, height);
    container("mdia", mdhd.as_slice(), hdlr.as_slice(), minf.as_slice())
}

/// The track box.
pub open spec fn trak(sps: Seq<u8>, pps: Seq<u8>, width: u32, height: u32) -> Seq<u8> {
    boxed(lit("trak"), tkhd(width, height) + mdia(sps, pps, width, height))
}

/// Builds the track box.
pub fn build_trak(sps: &[u8], pps: &[u8], width: u32, height: u32) -> (r: Vec<u8>)
    ensures
        r@ == trak(sps@, pps@, width, height),
{
    let tkhd = build_tkhd(width, height);
    let mdia = build_mdia(sps, pps, width, height);
    let none: Vec<u8> = Vec::new();
    let r = container("trak", tkhd.as_slice(), mdia.as_slice(), none.as_slice());
    assert(tkhd@ + mdia@ + none@ =~= tkhd@ + mdia@);
    r
}

/// The movie box.
pub open spec fn moov(sps: Seq<u8>, pps: Seq<u8>, width: u32, height: u32) -> Seq<u8> {
    boxed(lit("moov"), mvhd() + trak(sps, pps, width, height) + mvex())
}

/// Builds the movie box.
pub fn build_moov(sps: &[u8], pps: &[u8], width: u32, height: u32) -> (r: Vec<u8>)
    ensures
        r@ == moov(sps@, pps@, width, height),
{
    let mvhd = build_mvhd();
    let trak = build_trak(sps, pps, width, height);
    let mvex = build_mvex();
    container("moov", mvhd.as_slice(), trak.as_slice(), mvex.as_slice())
}

/// The initialization segment: the file type box and the movie box.
pub open spec fn init_mp4(sps: Seq<u8>, pps: Seq<u8>, width: u32, height: u32) -> Seq<u8> {
    ftyp() + moov(sps, pps, width, height)
}

/// Builds the initialization segment for a stream with the given parameter
/// sets and picture size.
pub fn build_init_mp4(sps: &[u8], pps: &[u8], width: u32, height: u32) -> (r: Vec<u8>)
    ensures
        r@ == init_mp4(sps@, pps@, width, height),
{
    let mut out = build_ftyp();
    let moov = build_moov(sps, pps, width, height);
    append(&mut out, moov.as_slice());
    out
}

/// The first `n` NAL units of a sample, each behind its length as four
/// big-endian bytes.
pub open spec fn avc_sample_upto(nals: Seq<Seq<u8>>, n: int) -> Seq<u8>
    decreases n,
{
    if n <= 0 {
        Seq::empty()
    } else {
        avc_sample_upto(nals, n - 1) + u32_be(low32(nals[n - 1].len() as int)) + nals[n - 1]
    }
}

/// One sample: its NAL units, each behind its length.
pub open spec fn avc_sample(nals: Seq<Seq<u8>>) -> Seq<u8> {
    avc_sample_upto(nals, nals.len() as int)
}

/// Builds one sample from the NAL units of an access unit.
pub fn build_avc_sample(nals: &Vec<Vec<u8>>) -> (r: Vec<u8>)
    ensures
        r@ == avc_sample(views(nals@)),
{
    let mut out: Vec<u8> = Vec::new();
    let ghost all = views(nals@);
    let mut i: usize = 0;
    while i < nals.len()
        invariant
            i <= nals@.len(),
            all == views(nals@),
            out@ == avc_sample_upto(all, i as int),
        decreases nals@.len() - i,
    {
        assert(all[i as int] == nals@[i as int]@);
        write_u32(&mut out, len32(nals[i].len()));
        append(&mut out, nals[i].as_slice());
        i += 1;
    }
    out
}

/// The first `n` of `samples` in a row.
pub open spec fn samples_upto(samples: Seq<Seq<u8>>, n: int) -> Seq<u8>
    decreases n,
{
    if n <= 0 {
        Seq::empty()
    } else {
        samples_upto(samples, n - 1) + samples[n - 1]
    }
}

/// The media data box: the samples in a row.
pub open spec fn mdat(samples: Seq<Seq<u8>>) -> Seq<u8> {
    boxed(lit("mdat"), samples_upto(samples, samples.len() as int))
}

/// Builds the media data box.
pub fn build_mdat(samples: &Vec<Vec<u8>>) -> (r: Vec<u8>)
    ensures
        r@ == mdat(views(samples@)),
{
    let mut payload: Vec<u8> = Vec::new();
    let ghost all = views(samples@);
    let mut i: usize = 0;
    while i < samples.len()
        invariant
            i <= samples@.len(),
            all == views(samples@),
            payload@ == samples_upto(all, i as int),
        decreases samples@.len() - i,
    {
        assert(all[i as int] == samples@[i as int]@);
        append(&mut payload, samples[i].as_slice());
        i += 1;
    }
    make_box("mdat", payload)
}

/// The first `n` entries of a track run: duration, size and flags of each
/// sample.
pub open spec fn run_entries(durations: Seq<u32>, sizes: Seq<u32>, flags: Seq<u32>, n: int) -> Seq<
    u8,
>
    decreases n,
{
    if n <= 0 {
        Seq::empty()
    } else {
        run_entries(durations, sizes, flags, n - 1) + u32_be(durations[n - 1]) + u32_be(
            sizes[n - 1],
        ) + u32_be(flags[n - 1])
    }
}

/// The size of the movie fragment box for `count` samples.
pub open spec fn moof_size(count: int) -> int {
    8 + 16 + (8 + 16 + 20 + (20 + count * 12))
}

/// The movie fragment box of one part.
///
/// `mfhd` carries the sequence number. `tfhd` names track 1 with offsets
/// relative to the start of this box. `tfdt` carries the decode time of the
/// first sample. `trun` lists duration, size and flags of every sample, and
/// the offset of the first sample's data: the size of this box plus the
/// eight header bytes of the media data box that follows.
pub open spec fn moof(
    sequence: u32,
    base_decode_time: u64,
    durations: Seq<u32>,
    sizes: Seq<u32>,
    flags: Seq<u32>,
) -> Seq<u8> {
    let count = low32(durations.len() as int);
    boxed(
        lit("moof"),
        boxed(lit("mfhd"), u32_be(0) + u32_be(sequence)) + boxed(
            lit("traf"),
            boxed(lit("tfhd"), u32_be(0x020000) + u32_be(1)) + boxed(
                lit("tfdt"),
                u32_be(0x01000000) + u64_be(base_decode_time),
            ) + boxed(
                lit("trun"),
                u32_be(0x000701) + u32_be(count) + u32_be(low32(moof_size(count as int) + 8))
                    + run_entries(durations, sizes, flags, count as int),
            ),
        ),
    )
}

/// Builds the movie fragment box of one part from the duration, size and
/// flags of each of its samples.
#[verifier::rlimit(40)]
pub fn build_moof(
    sequence: u32,
    base_decode_time: u64,
    sample_durations: &[u32],
    sample_sizes: &[u32],
    sample_flags: &[u32],
) -> (r: Vec<u8>)
    requires
        sample_sizes@.len() == sample_durations@.len(),
        sample_flags@.len() == sample_durations@.len(),
    ensures
        r@ == moof(sequence, base_decode_time, sample_durations@, sample_sizes@, sample_flags@),
{
    let count: u32 = len32(sample_durations.len());
    let size: u64 = 8 + 16 + (8 + 16 + 20 + (20 + (count as u64) * 12));
    let data_offset: u32 = ((size + 8) % 0x1_0000_0000) as u32;
    let mut trun: Vec<u8> = Vec::new();
    write_u32(&mut trun, 0x000701);
    write_u32(&mut trun, count);
    write_u32(&mut trun, data_offset);
    let ghost head = trun@;
    let mut i: usize = 0;
    assert(trun@ =~= head + run_entries(sample_durations@, sample_sizes@, sample_flags@, 0));
    while i < count as usize
        invariant
            i <= count,
            count <= sample_durations@.len(),
            sample_sizes@.len() == sample_durations@.len(),
            sample_flags@.len() == sample_durations@.len(),
            trun@ == head + run_entries(
                sample_durations@,
                sample_sizes@,
                sample_flags@,
                i as int,
            ),
        decreases count - i,
    {
        write_u32(&mut trun, sample_durations[i]);
        write_u32(&mut trun, sample_sizes[i]);
        write_u32(&mut trun, sample_flags[i]);
        i += 1;
        assert(trun@ =~= head + run_entries(
            sample_durations@,
            sample_sizes@,
            sample_flags@,
            i as int,
        ));
    }
    assert(head =~= u32_be(0x000701) + u32_be(count) + u32_be(low32(moof_size(count as int) + 8)));
    let trun_box = make_box("trun", trun);
    let mut tfhd: Vec<u8> = Vec::new();
    write_u32(&mut tfhd, 0x020000);
    write_u32(&mut tfhd, 1);
    assert(tfhd@ =~= u32_be(0x020000) + u32_be(1));
    let tfhd_box = make_box("tfhd", tfhd);
    let mut tfdt: Vec<u8> = Vec::new();
    write_u32(&mut tfdt, 0x01000000);
    write_u64(&mut tfdt, base_decode_time);
    assert(tfdt@ =~= u32_be(0x01000000) + u64_be(base_decode_time));
    let tfdt_box = make_box("tfdt", tfdt);
    let traf_box = container("traf", tfhd_box.as_slice(), tfdt_box.as_slice(), trun_box.as_slice());
    let mut mfhd: Vec<u8> = Vec::new();
    write_u32(&mut mfhd, 0);
    write_u32(&mut mfhd, sequence);
    assert(mfhd@ =~= u32_be(0) + u32_be(sequence));
    let mfhd_box = make_box("mfhd", mfhd);
    let none: Vec<u8> = Vec::new();
    let r = container("moof", mfhd_box.as_slice(), traf_box.as_slice(), none.as_slice());
    assert(mfhd_box@ + traf_box@ + none@ =~= mfhd_box@ + traf_box@);
    r
}

} // verus!

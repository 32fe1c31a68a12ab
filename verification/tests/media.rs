use printer_gateway::mp4::{
    build_avc_sample, build_avcc, build_ftyp, build_init_mp4, build_mdat, build_moof, build_styp,
    codec_string_from_sps, make_box, write_matrix,
};
use printer_gateway::octets::{write_u16, write_u32, write_u64};
use printer_gateway::sps::{nal_to_rbsp, parse_sps_dimensions, BitReader};

const BASELINE_640X480: [u8; 9] = [0x67, 0x42, 0x00, 0x1F, 0xED, 0x01, 0x40, 0x7B, 0x20];
const MAIN_1280X720: [u8; 9] = [0x67, 0x4D, 0x00, 0x1F, 0xED, 0x00, 0xA0, 0x0B, 0x72];
const HIGH_1920X1080: [u8; 11] =
    [0x67, 0x64, 0x00, 0x1F, 0xAC, 0xDA, 0x01, 0xE0, 0x08, 0x9F, 0x95];
const HIGH_INTERLACED_720X576: [u8; 10] =
    [0x67, 0x64, 0x00, 0x1F, 0xAC, 0xDA, 0x02, 0xD0, 0x91, 0x20];
const HIGH_POC1_SCALING_352X288: [u8; 14] =
    [0x67, 0x64, 0x00, 0x1F, 0xAD, 0x84, 0x40, 0x50, 0xE4, 0x69, 0xA0, 0x58, 0x25, 0x90];
const HIGH_SCALING_320X240: [u8; 13] =
    [0x67, 0x64, 0x00, 0x1F, 0xAD, 0x93, 0xFF, 0xF8, 0x0D, 0xA0, 0x50, 0x7E, 0x40];
const HIGH444_CROP_1916X1078: [u8; 13] =
    [0x67, 0xF4, 0x00, 0x1F, 0x91, 0x9B, 0x40, 0x3C, 0x01, 0x13, 0xA2, 0x45, 0xA0];
const MONO_CROP_156X158: [u8; 10] = [0x67, 0x64, 0x00, 0x1F, 0xF3, 0x68, 0x28, 0x57, 0x6D, 0x24];

#[test]
fn sps_dimensions_are_exact_on_fixtures() {
    assert_eq!(parse_sps_dimensions(&BASELINE_640X480), Some((640, 480)));
    assert_eq!(parse_sps_dimensions(&MAIN_1280X720), Some((1280, 720)));
    assert_eq!(parse_sps_dimensions(&HIGH_1920X1080), Some((1920, 1080)));
    assert_eq!(parse_sps_dimensions(&HIGH_INTERLACED_720X576), Some((720, 576)));
    assert_eq!(parse_sps_dimensions(&HIGH_POC1_SCALING_352X288), Some((352, 288)));
    assert_eq!(parse_sps_dimensions(&HIGH_SCALING_320X240), Some((320, 240)));
    assert_eq!(parse_sps_dimensions(&HIGH444_CROP_1916X1078), Some((1916, 1078)));
    assert_eq!(parse_sps_dimensions(&MONO_CROP_156X158), Some((156, 158)));
}

#[test]
fn sps_with_emulation_prevention_reads_the_same() {
    let plain: [u8; 11] = [0x67, 0x42, 0x00, 0x00, 0x01, 0xED, 0x01, 0x40, 0x7B, 0x20, 0x00];
    let escaped: [u8; 12] =
        [0x67, 0x42, 0x00, 0x00, 0x03, 0x01, 0xED, 0x01, 0x40, 0x7B, 0x20, 0x00];
    assert_eq!(nal_to_rbsp(&escaped[1..]), plain[1..].to_vec());
    assert_eq!(parse_sps_dimensions(&escaped), parse_sps_dimensions(&plain));
}

#[test]
fn malformed_sps_gives_none() {
    assert_eq!(parse_sps_dimensions(&[]), None);
    assert_eq!(parse_sps_dimensions(&[0x67]), None);
    assert_eq!(parse_sps_dimensions(&[0x67, 0x42, 0x00]), None);
    assert_eq!(parse_sps_dimensions(&BASELINE_640X480[..6]), None);
    assert_eq!(parse_sps_dimensions(&[0x67, 0x42, 0x00, 0x1F, 0, 0, 0, 0, 0, 0, 0]), None);
}

#[test]
fn rbsp_drops_only_escapes_after_two_zeros() {
    assert_eq!(nal_to_rbsp(&[0, 0, 3, 0, 0, 3, 1]), vec![0, 0, 0, 0, 1]);
    assert_eq!(nal_to_rbsp(&[0, 3, 0, 0, 0, 3]), vec![0, 3, 0, 0, 0]);
    assert_eq!(nal_to_rbsp(&[3, 0, 0, 4]), vec![3, 0, 0, 4]);
    assert_eq!(nal_to_rbsp(&[]), Vec::<u8>::new());
}

#[test]
fn bit_reader_reads_codes() {
    let data = [0xA3, 0x20, 0x30];
    let mut br = BitReader::new(&data);
    assert_eq!(br.read_bit(), Some(true));
    assert_eq!(br.read_ue(), Some(1));
    assert_eq!(br.read_ue(), Some(5));
    assert_eq!(br.read_se(), Some(1));
    assert_eq!(br.read_bits(5), Some(0));
    assert_eq!(br.read_se(), Some(-1));
    assert_eq!(br.read_bits(8), None);
    let mut end = BitReader::new(&[]);
    assert_eq!(end.read_bit(), None);
    assert_eq!(end.read_ue(), Some(0));
    let zeros = [0u8; 5];
    let mut z = BitReader::new(&zeros);
    assert_eq!(z.read_ue(), None);
    let mut cut = BitReader::new(&[0b0000_0001]);
    assert_eq!(cut.read_ue(), None);
    let mut whole = BitReader::new(&[0xAB]);
    assert_eq!(whole.read_bits(8), Some(0xAB));
    assert_eq!(whole.read_bits(0), Some(0));
}

#[test]
fn codec_string_is_avc1_and_six_hex_digits() {
    assert_eq!(codec_string_from_sps(&HIGH_1920X1080), b"avc1.64001F".to_vec());
    assert_eq!(codec_string_from_sps(&[0x67, 0x4D, 0xAB]), b"avc1.4DAB00".to_vec());
    assert_eq!(codec_string_from_sps(&[]), b"avc1.000000".to_vec());
    for sps in [&[0x67u8, 0xFF, 0x0A, 0x9C][..], &[1, 2][..]] {
        let s = codec_string_from_sps(sps);
        assert_eq!(s.len(), 11);
        assert_eq!(&s[..5], b"avc1.");
        assert!(s[5..].iter().all(|b| b.is_ascii_digit() || (b'A'..=b'F').contains(b)));
    }
}

#[test]
fn boxes_carry_size_and_tag() {
    assert_eq!(make_box("free", vec![]), vec![0, 0, 0, 8, b'f', b'r', b'e', b'e']);
    assert_eq!(make_box("abcd", vec![9, 8]), vec![0, 0, 0, 10, b'a', b'b', b'c', b'd', 9, 8]);
    let mut out = vec![7];
    write_u16(&mut out, 0x0102);
    write_u32(&mut out, 0x03040506);
    write_u64(&mut out, 0x0708090A0B0C0D0E);
    assert_eq!(out, vec![7, 1, 2, 3, 4, 5, 6, 7, 8, 9, 10, 11, 12, 13, 14]);
    let mut m = Vec::new();
    write_matrix(&mut m);
    assert_eq!(m.len(), 36);
    assert_eq!(&m[..4], &[0, 1, 0, 0]);
    assert_eq!(&m[32..], &[0x40, 0, 0, 0]);
}

#[test]
fn ftyp_and_styp_are_exact() {
    assert_eq!(
        build_ftyp(),
        [&[0, 0, 0, 32][..], b"ftyp", b"isom", &[0, 0, 2, 0], b"isomiso6avc1cmfc"].concat()
    );
    assert_eq!(
        build_styp(),
        [&[0, 0, 0, 36][..], b"styp", b"msdh", &[0, 0, 0, 0], b"msdhmsixiso6avc1cmfc"].concat()
    );
}

#[test]
fn avcc_carries_parameter_sets() {
    let sps = [0x67, 0x64, 0x00, 0x28, 0xAA];
    let pps = [0x68, 0xEE];
    assert_eq!(
        build_avcc(&sps, &pps),
        [
            &[0, 0, 0, 26][..],
            b"avcC",
            &[1, 0x64, 0x00, 0x28, 0xFF, 0xE1, 0, 5],
            &sps,
            &[1, 0, 2],
            &pps
        ]
        .concat()
    );
}

fn find(haystack: &[u8], needle: &[u8]) -> Option<usize> {
    haystack.windows(needle.len()).position(|w| w == needle)
}

fn be32(b: &[u8]) -> u32 {
    u32::from_be_bytes([b[0], b[1], b[2], b[3]])
}

#[test]
fn init_segment_nests_boxes() {
    let sps = HIGH_1920X1080;
    let pps = [0x68, 0xEE, 0x3C, 0x80];
    let init = build_init_mp4(&sps, &pps, 1920, 1080);
    assert_eq!(&init[4..8], b"ftyp");
    assert_eq!(&init[36..40], b"moov");
    assert_eq!(be32(&init[32..36]) as usize, init.len() - 32);
    for tag in [
        "mvhd", "trak", "tkhd", "mdia", "mdhd", "hdlr", "minf", "vmhd", "dinf", "dref", "url ",
        "stbl", "stsd", "avc1", "avcC", "stts", "stsc", "stsz", "stco", "mvex", "trex",
    ] {
        assert!(find(&init, tag.as_bytes()).is_some(), "missing {}", tag);
    }
    let mvhd = find(&init, b"mvhd").unwrap();
    assert_eq!(be32(&init[mvhd + 16..mvhd + 20]), 90_000);
    let tkhd = find(&init, b"tkhd").unwrap();
    assert_eq!(be32(&init[tkhd - 4..tkhd]), 92);
    assert_eq!(be32(&init[tkhd + 80..tkhd + 84]), 1920 << 16);
    assert_eq!(be32(&init[tkhd + 84..tkhd + 88]), 1080 << 16);
    let avc1 = find(&init, b"avc1").unwrap();
    let avc1 = avc1 + 1 + find(&init[avc1 + 1..], b"avc1").unwrap();
    assert_eq!(&init[avc1 + 28..avc1 + 32], &[0x07, 0x80, 0x04, 0x38]);
}

#[test]
fn avc_samples_are_length_prefixed() {
    assert_eq!(
        build_avc_sample(&vec![vec![0x65, 1], vec![], vec![9]]),
        vec![0, 0, 0, 2, 0x65, 1, 0, 0, 0, 0, 0, 0, 0, 1, 9]
    );
    assert_eq!(
        build_mdat(&vec![vec![1, 2], vec![3]]),
        vec![0, 0, 0, 11, b'm', b'd', b'a', b't', 1, 2, 3]
    );
}

#[test]
fn moof_is_exact() {
    let moof = build_moof(7, 0x0102030405060708, &[3000, 1500], &[10, 20], &[0x02000000, 0x01010000]);
    let expected: Vec<u8> = [
        &[0, 0, 0, 112][..],
        b"moof",
        &[0, 0, 0, 16],
        b"mfhd",
        &[0, 0, 0, 0, 0, 0, 0, 7],
        &[0, 0, 0, 88],
        b"traf",
        &[0, 0, 0, 16],
        b"tfhd",
        &[0, 2, 0, 0, 0, 0, 0, 1],
        &[0, 0, 0, 20],
        b"tfdt",
        &[1, 0, 0, 0, 1, 2, 3, 4, 5, 6, 7, 8],
        &[0, 0, 0, 44],
        b"trun",
        &[0, 0, 7, 1, 0, 0, 0, 2, 0, 0, 0, 120],
        &[0, 0, 0x0B, 0xB8, 0, 0, 0, 10, 2, 0, 0, 0],
        &[0, 0, 0x05, 0xDC, 0, 0, 0, 20, 1, 1, 0, 0],
    ]
    .concat();
    assert_eq!(moof, expected);
}

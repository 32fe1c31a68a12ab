use printer_gateway::json::{JsonMember, JsonNumber, JsonValue};
use printer_gateway::numeral::{
    parse_bounded, parse_milli, push_decimal, push_decimal_padded, push_hex,
};
use printer_gateway::octets::{append, copy_range, read_be16, read_be32};
use printer_gateway::text::{
    bytes_eq, ends_with, search_from, split, split_once, split_words, starts_with, strip_prefix,
    to_lowercase, to_uppercase, trim,
};

fn strings(v: Vec<Vec<u8>>) -> Vec<String> {
    v.into_iter().map(|b| String::from_utf8(b).unwrap()).collect()
}

#[test]
fn trimming_removes_ascii_whitespace() {
    assert_eq!(trim(b" \t\r\n\x0B\x0Ca b \n"), b"a b".to_vec());
    assert_eq!(trim(b""), Vec::<u8>::new());
    assert_eq!(trim(b"   "), Vec::<u8>::new());
    assert_eq!(trim(b"x"), b"x".to_vec());
    assert_eq!(trim(b"\xA0x"), b"\xA0x".to_vec());
}

#[test]
fn case_folding_touches_only_letters() {
    assert_eq!(to_lowercase(b"AbC-Z[@`{19"), b"abc-z[@`{19".to_vec());
    assert_eq!(to_uppercase(b"AbC-z[@`{19"), b"ABC-Z[@`{19".to_vec());
}

#[test]
fn searching_and_prefixes() {
    assert_eq!(search_from(b"abcabc", b"bc", 0), Some(1));
    assert_eq!(search_from(b"abcabc", b"bc", 2), Some(4));
    assert_eq!(search_from(b"abcabc", b"bc", 5), None);
    assert_eq!(search_from(b"abc", b"", 3), Some(3));
    assert_eq!(search_from(b"abc", b"", 4), None);
    assert_eq!(search_from(b"ab", b"abc", 0), None);
    assert!(starts_with(b"abc", b"ab"));
    assert!(starts_with(b"abc", b""));
    assert!(!starts_with(b"ab", b"abc"));
    assert!(ends_with(b"abc", b"bc"));
    assert!(!ends_with(b"abc", b"ab"));
    assert!(bytes_eq(b"", b""));
    assert!(!bytes_eq(b"a", b"ab"));
    assert_eq!(strip_prefix(b"bytes=1", b"bytes="), Some(b"1".to_vec()));
    assert_eq!(strip_prefix(b"bytes", b"bytes="), None);
}

#[test]
fn splitting() {
    assert_eq!(strings(split(b"a,b,,c", b",")), vec!["a", "b", "", "c"]);
    assert_eq!(strings(split(b"", b",")), vec![""]);
    assert_eq!(strings(split(b",", b",")), vec!["", ""]);
    assert_eq!(strings(split(b"a\r\nb\nc\r\n", b"\r\n")), vec!["a", "b\nc", ""]);
    assert_eq!(split_once(b"k=v=w", b"="), (b"k".to_vec(), Some(b"v=w".to_vec())));
    assert_eq!(split_once(b"kv", b"="), (b"kv".to_vec(), None));
    assert_eq!(strings(split_words(b"  m=video 0\tRTP/AVP  96 ")), vec!["m=video", "0", "RTP/AVP", "96"]);
    assert!(split_words(b" \n ").is_empty());
}

#[test]
fn unsigned_numbers() {
    assert_eq!(parse_bounded(b"0", 0), Some(0));
    assert_eq!(parse_bounded(b"255", 255), Some(255));
    assert_eq!(parse_bounded(b"256", 255), None);
    assert_eq!(parse_bounded(b"+12", 255), Some(12));
    assert_eq!(parse_bounded(b"007", 255), Some(7));
    assert_eq!(parse_bounded(b"", 255), None);
    assert_eq!(parse_bounded(b"+", 255), None);
    assert_eq!(parse_bounded(b"-1", 255), None);
    assert_eq!(parse_bounded(b"1 ", 255), None);
    assert_eq!(parse_bounded(b"++1", 255), None);
    assert_eq!(parse_bounded(b"18446744073709551615", u64::MAX), Some(u64::MAX));
    assert_eq!(parse_bounded(b"18446744073709551616", u64::MAX), None);
    assert_eq!(parse_bounded(b"99999999999999999999999", u64::MAX), None);
}

#[test]
fn decimals_in_thousandths() {
    assert_eq!(parse_milli(b"65"), Some(65_000));
    assert_eq!(parse_milli(b"220.0"), Some(220_000));
    assert_eq!(parse_milli(b"-0.5"), Some(-500));
    assert_eq!(parse_milli(b"+1.2345"), Some(1_235));
    assert_eq!(parse_milli(b"1.2344999"), Some(1_234));
    assert_eq!(parse_milli(b".5"), Some(500));
    assert_eq!(parse_milli(b"5."), Some(5_000));
    assert_eq!(parse_milli(b"-0"), Some(0));
    assert_eq!(parse_milli(b"."), None);
    assert_eq!(parse_milli(b""), None);
    assert_eq!(parse_milli(b"-"), None);
    assert_eq!(parse_milli(b"1.2.3"), None);
    assert_eq!(parse_milli(b"1e3"), None);
    assert_eq!(parse_milli(b" 1"), None);
    assert_eq!(parse_milli(b"--1"), None);
    assert_eq!(parse_milli(b"9223372036854775.807"), Some(i64::MAX));
    assert_eq!(parse_milli(b"9223372036854775.808"), None);
    assert_eq!(parse_milli(b"-9223372036854775.807"), Some(-i64::MAX));
    assert_eq!(parse_milli(b"9223372036854776"), None);
}

#[test]
fn writing_numbers() {
    let mut out = b"n=".to_vec();
    push_decimal(&mut out, 0);
    push_decimal(&mut out, 1203);
    push_decimal(&mut out, u64::MAX);
    assert_eq!(out, b"n=0120318446744073709551615".to_vec());
    let mut out = Vec::new();
    push_decimal_padded(&mut out, 7, 3);
    push_decimal_padded(&mut out, 1234, 3);
    push_decimal_padded(&mut out, 0, 0);
    assert_eq!(out, b"00712340".to_vec());
    let mut out = Vec::new();
    push_hex(&mut out, &[0x00, 0x9A, 0xFF], false);
    push_hex(&mut out, &[0x0B, 0xC1], true);
    assert_eq!(out, b"009aff0BC1".to_vec());
}

#[test]
fn octets() {
    assert_eq!(read_be16(0x12, 0x34), 0x1234);
    assert_eq!(read_be32(&[9, 0xDE, 0xAD, 0xBE, 0xEF], 1), 0xDEADBEEF);
    assert_eq!(copy_range(&[1, 2, 3, 4], 1, 3), vec![2, 3]);
    let mut out = vec![1];
    append(&mut out, &[2, 3]);
    assert_eq!(out, vec![1, 2, 3]);
}

fn sample() -> JsonValue {
    JsonValue::Object(vec![
        JsonMember { key: b"a".to_vec(), value: JsonValue::Number(JsonNumber::Unsigned(1)) },
        JsonMember {
            key: b"list".to_vec(),
            value: JsonValue::Array(vec![
                JsonValue::Text(b"zero".to_vec()),
                JsonValue::Object(vec![JsonMember {
                    key: b"0".to_vec(),
                    value: JsonValue::Bool(true),
                }]),
            ]),
        },
        JsonMember { key: b"a".to_vec(), value: JsonValue::Null },
    ])
}

#[test]
fn json_lookups() {
    let v = sample();
    assert!(matches!(v.get(b"a"), Some(JsonValue::Number(JsonNumber::Unsigned(1)))));
    assert!(v.get(b"b").is_none());
    assert!(matches!(v.pointer(&[]), Some(JsonValue::Object(_))));
    assert_eq!(v.pointer(&["list", "0"]).unwrap().as_text(), Some(&b"zero".to_vec()));
    assert!(matches!(v.pointer(&["list", "1", "0"]), Some(JsonValue::Bool(true))));
    assert!(v.pointer(&["list", "2"]).is_none());
    assert!(v.pointer(&["list", "01"]).is_none());
    assert!(v.pointer(&["list", "+1"]).is_none());
    assert!(v.pointer(&["list", ""]).is_none());
    assert!(v.pointer(&["a", "x"]).is_none());
    assert_eq!(v.get(b"list").unwrap().as_array().unwrap().len(), 2);
    assert!(v.as_array().is_none());
    assert!(v.as_text().is_none());
}

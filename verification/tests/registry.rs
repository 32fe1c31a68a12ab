use printer_gateway::access::{cache_ttl_from_headers, is_fresh, AuthContext, Jwk, Jwks};
use printer_gateway::registry::{
    default_mqtt_port, normalize_db_url, normalize_optional, parse_flag, prepare_create,
    prepare_update, sqlite_path_from_url, strip_query, validate_printer_fields, FieldError,
    PrinterConfig, PrinterCreateRequest, PrinterUpdateRequest,
};

fn v(s: &str) -> Vec<u8> {
    s.as_bytes().to_vec()
}

#[test]
fn validation_names_the_first_missing_field() {
    assert_eq!(validate_printer_fields(b"n", b"h", b"s", b"a"), Ok(()));
    assert_eq!(validate_printer_fields(b" ", b"", b"", b""), Err(FieldError::NameRequired));
    assert_eq!(validate_printer_fields(b"n", b"\t", b"", b""), Err(FieldError::HostRequired));
    assert_eq!(validate_printer_fields(b"n", b"h", b"", b""), Err(FieldError::SerialRequired));
    assert_eq!(validate_printer_fields(b"n", b"h", b"s", b"\n"), Err(FieldError::AccessCodeRequired));
    assert_eq!(FieldError::NameRequired.message(), v("printer name is required"));
    assert_eq!(FieldError::HostRequired.message(), v("printer host is required"));
    assert_eq!(FieldError::SerialRequired.message(), v("printer serial is required"));
    assert_eq!(FieldError::AccessCodeRequired.message(), v("printer access code is required"));
}

#[test]
fn optional_text_is_trimmed_or_dropped() {
    assert_eq!(normalize_optional(Some(v("  rtsp://x  "))), Some(v("rtsp://x")));
    assert_eq!(normalize_optional(Some(v("   "))), None);
    assert_eq!(normalize_optional(None), None);
}

#[test]
fn create_trims_every_field() {
    let p = prepare_create(
        7,
        PrinterCreateRequest {
            name: v(" X1 "),
            host: v("10.0.0.2\n"),
            serial: v("\tS1"),
            access_code: v("1234"),
            rtsp_url: Some(v(" ")),
        },
    )
    .unwrap();
    assert_eq!(p.id, 7);
    assert_eq!(p.name, v("X1"));
    assert_eq!(p.host, v("10.0.0.2"));
    assert_eq!(p.serial, v("S1"));
    assert_eq!(p.access_code, v("1234"));
    assert_eq!(p.rtsp_url, None);
    let e = prepare_create(
        1,
        PrinterCreateRequest {
            name: v("n"),
            host: v("h"),
            serial: v("  "),
            access_code: v(""),
            rtsp_url: None,
        },
    )
    .unwrap_err();
    assert_eq!(e, FieldError::SerialRequired);
}

fn existing() -> PrinterConfig {
    PrinterConfig {
        id: 3,
        name: v("old"),
        host: v("h"),
        serial: v("s"),
        access_code: v("a"),
        rtsp_url: Some(v("rtsp://old")),
    }
}

#[test]
fn update_replaces_only_what_is_given() {
    let p = prepare_update(
        existing(),
        PrinterUpdateRequest {
            name: Some(v(" new ")),
            host: None,
            serial: None,
            access_code: None,
            rtsp_url: None,
        },
    )
    .unwrap();
    assert_eq!(p.id, 3);
    assert_eq!(p.name, v("new"));
    assert_eq!(p.host, v("h"));
    assert_eq!(p.rtsp_url, Some(v("rtsp://old")));
    let p = prepare_update(
        existing(),
        PrinterUpdateRequest {
            name: None,
            host: None,
            serial: None,
            access_code: None,
            rtsp_url: Some(v("")),
        },
    )
    .unwrap();
    assert_eq!(p.rtsp_url, None);
    let e = prepare_update(
        existing(),
        PrinterUpdateRequest {
            name: None,
            host: Some(v(" ")),
            serial: None,
            access_code: None,
            rtsp_url: None,
        },
    )
    .unwrap_err();
    assert_eq!(e, FieldError::HostRequired);
}

#[test]
fn database_addresses() {
    assert_eq!(normalize_db_url(b"data/printers.db"), v("sqlite://data/printers.db"));
    assert_eq!(normalize_db_url(b"sqlite::memory:"), v("sqlite::memory:"));
    assert_eq!(sqlite_path_from_url(b"sqlite://data/p.db?mode=rwc"), Some(v("data/p.db")));
    assert_eq!(sqlite_path_from_url(b"sqlite::memory:"), Some(v(":memory:")));
    assert_eq!(sqlite_path_from_url(b"postgres://x"), None);
    assert_eq!(strip_query(b"a?b?c"), v("a"));
    assert_eq!(strip_query(b"abc"), v("abc"));
    assert_eq!(strip_query(b"?x"), v(""));
}

#[test]
fn flags_and_ports() {
    for on in ["1", "true", "TRUE", "yes", "YES"] {
        assert!(parse_flag(on.as_bytes()));
    }
    for off in ["0", "True", "on", "", " true"] {
        assert!(!parse_flag(off.as_bytes()));
    }
    assert_eq!(default_mqtt_port(true), 8883);
    assert_eq!(default_mqtt_port(false), 1883);
}

#[test]
fn key_sets_are_searched_by_identifier() {
    let key = |kid: &str, n: &str| Jwk { kid: v(kid), kty: v("RSA"), n: v(n), e: v("AQAB") };
    let set = Jwks { keys: vec![key("a", "1"), key("b", "2"), key("a", "3")] };
    assert_eq!(set.key(b"a").unwrap().n, v("1"));
    assert_eq!(set.key(b"b").unwrap().n, v("2"));
    assert!(set.key(b"c").is_none());
    assert_eq!(AuthContext { email: v("admin@local") }.email, v("admin@local"));
}

#[test]
fn key_set_freshness() {
    assert!(is_fresh(Some(10), 9));
    assert!(!is_fresh(Some(10), 10));
    assert!(!is_fresh(None, 0));
}

#[test]
fn cache_ttl_prefers_shared_max_age() {
    assert_eq!(cache_ttl_from_headers(None, 3600), 3600);
    assert_eq!(cache_ttl_from_headers(Some(b"max-age=60"), 3600), 60);
    assert_eq!(cache_ttl_from_headers(Some(b"public, max-age=60, s-maxage=120"), 3600), 120);
    assert_eq!(cache_ttl_from_headers(Some(b"s-maxage=120, max-age=60"), 3600), 120);
    assert_eq!(cache_ttl_from_headers(Some(b"max-age=60, max-age=90"), 3600), 60);
    assert_eq!(cache_ttl_from_headers(Some(b"max-age=0"), 3600), 3600);
    assert_eq!(cache_ttl_from_headers(Some(b"max-age=x, max-age=5"), 3600), 5);
    assert_eq!(cache_ttl_from_headers(Some(b"max-age=5, s-maxage=x"), 3600), 3600);
    assert_eq!(cache_ttl_from_headers(Some(b"no-store"), 7), 7);
}

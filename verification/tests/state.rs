use printer_gateway::json::{JsonMember, JsonNumber, JsonValue};
use printer_gateway::state::{
    extract_light, non_empty_text, normalize_light_mode, read_milli, read_u32, read_u8,
    PrinterState,
};

fn s(v: &str) -> JsonValue {
    JsonValue::Text(v.as_bytes().to_vec())
}

fn n(v: u64) -> JsonValue {
    JsonValue::Number(JsonNumber::Unsigned(v))
}

fn milli(v: i64) -> JsonValue {
    JsonValue::Number(JsonNumber::Milli(v))
}

fn obj(members: Vec<(&str, JsonValue)>) -> JsonValue {
    JsonValue::Object(
        members
            .into_iter()
            .map(|(k, value)| JsonMember { key: k.as_bytes().to_vec(), value })
            .collect(),
    )
}

fn arr(items: Vec<JsonValue>) -> JsonValue {
    JsonValue::Array(items)
}

fn bytes(v: &Option<Vec<u8>>) -> Option<&str> {
    v.as_deref().map(|b| std::str::from_utf8(b).unwrap())
}

#[test]
fn apply_report_parses_ams_humidity_and_filament_data() {
    let report = obj(vec![(
        "print",
        obj(vec![(
            "ams",
            obj(vec![(
                "ams",
                arr(vec![obj(vec![
                    ("id", s("1")),
                    ("humidity_raw", s("25")),
                    (
                        "tray",
                        arr(vec![
                            obj(vec![
                                ("id", s("0")),
                                ("tray_type", s("PLA")),
                                ("tray_color", s("FFFFFFFF")),
                            ]),
                            obj(vec![
                                ("id", s("1")),
                                ("tray_type", s("PETG")),
                                ("cols", arr(vec![s("161616FF")])),
                            ]),
                            obj(vec![("id", s("2")), ("state", n(0))]),
                        ]),
                    ),
                ])]),
            )]),
        )]),
    )]);

    let mut state = PrinterState::default();
    state.apply_report(&report, 1);

    assert_eq!(state.ams.len(), 1);
    assert_eq!(state.ams[0].id, Some(1));
    assert_eq!(state.ams[0].humidity_raw, Some(25));
    assert_eq!(state.ams[0].trays.len(), 3);
    assert_eq!(bytes(&state.ams[0].trays[0].filament_type), Some("PLA"));
    assert_eq!(bytes(&state.ams[0].trays[0].color), Some("FFFFFFFF"));
    assert_eq!(bytes(&state.ams[0].trays[1].filament_type), Some("PETG"));
    assert_eq!(bytes(&state.ams[0].trays[1].color), Some("161616FF"));
    assert_eq!(state.ams[0].trays[2].filament_type, None);
    assert_eq!(state.ams[0].trays[2].color, None);
}

#[test]
fn apply_report_parses_root_ams_payload() {
    let report = obj(vec![(
        "ams",
        obj(vec![(
            "ams",
            arr(vec![obj(vec![
                ("humidity_raw", s("42")),
                (
                    "tray",
                    arr(vec![obj(vec![("tray_type", s("ABS")), ("tray_color", s("ABCDEF12"))])]),
                ),
            ])]),
        )]),
    )]);

    let mut state = PrinterState::default();
    state.apply_report(&report, 1);

    assert_eq!(state.ams.len(), 1);
    assert_eq!(state.ams[0].id, Some(1));
    assert_eq!(state.ams[0].humidity_raw, Some(42));
    assert_eq!(state.ams[0].trays.len(), 1);
    assert_eq!(state.ams[0].trays[0].id, Some(0));
    assert_eq!(bytes(&state.ams[0].trays[0].filament_type), Some("ABS"));
    assert_eq!(bytes(&state.ams[0].trays[0].color), Some("ABCDEF12"));
}

#[test]
fn apply_report_parses_target_temperatures() {
    let report = obj(vec![(
        "print",
        obj(vec![("nozzle_target_temper", milli(220_000)), ("bed_target_temper", s("65"))]),
    )]);

    let mut state = PrinterState::default();
    state.apply_report(&report, 1);

    assert_eq!(state.nozzle_target_c, Some(220_000));
    assert_eq!(state.bed_target_c, Some(65_000));
}

#[test]
fn status_merge_keeps_prior_fields() {
    let mut state = PrinterState::new();
    state.apply_report(&obj(vec![("print", obj(vec![("mc_percent", s("37"))]))]), 10);
    state.apply_report(&obj(vec![("print", obj(vec![("bed_temper", n(60))]))]), 20);
    assert_eq!(state.percent, Some(37));
    assert_eq!(state.bed_c, Some(60_000));
    assert_eq!(state.last_update, Some(20));
    assert!(!state.connected);
}

fn full_report() -> JsonValue {
    obj(vec![
        (
            "print",
            obj(vec![
                ("gcode_state", s("RUNNING")),
                ("percent", n(12)),
                ("layer_num", n(3)),
                ("total_layer_num", s("200")),
                ("remain_time", n(95)),
                ("nozzle_temper", milli(215_500)),
                ("chamber_temper", s("35.25")),
                ("ipcam", obj(vec![("rtsp_url", s("rtsps://10.0.0.2/streaming/live/1"))])),
                (
                    "lights_report",
                    arr(vec![
                        obj(vec![("node", s("work_light")), ("mode", s("off"))]),
                        obj(vec![("node", s("chamber_light")), ("mode", s("flashing"))]),
                    ]),
                ),
                (
                    "device",
                    obj(vec![
                        ("bed", obj(vec![("info", obj(vec![("temp", n(55))]))])),
                        (
                            "extruder",
                            obj(vec![("info", arr(vec![obj(vec![("htar", n(210))])]))]),
                        ),
                    ]),
                ),
            ]),
        ),
        ("temp", obj(vec![("bed_target_temper", JsonValue::Number(JsonNumber::Negative(-1)))])),
    ])
}

#[test]
fn apply_report_reads_every_field_under_its_paths() {
    let mut state = PrinterState::new();
    state.apply_report(&full_report(), 5);
    assert_eq!(bytes(&state.job_state), Some("RUNNING"));
    assert_eq!(state.percent, Some(12));
    assert_eq!(state.layer_num, Some(3));
    assert_eq!(state.total_layer_num, Some(200));
    assert_eq!(state.remaining_minutes, Some(95));
    assert_eq!(state.nozzle_c, Some(215_500));
    assert_eq!(state.nozzle_target_c, Some(210_000));
    assert_eq!(state.bed_c, Some(55_000));
    assert_eq!(state.bed_target_c, Some(-1_000));
    assert_eq!(state.chamber_c, Some(35_250));
    assert_eq!(bytes(&state.light), Some("on"));
    assert_eq!(bytes(&state.rtsp_url), Some("rtsps://10.0.0.2/streaming/live/1"));
    assert_eq!(state.last_update, Some(5));
}

#[test]
fn applying_a_report_again_changes_nothing() {
    let mut once = PrinterState::new();
    once.apply_report(&full_report(), 9);
    let mut many = PrinterState::new();
    for t in [1, 2, 3, 9] {
        many.apply_report(&full_report(), t);
    }
    assert_eq!(format!("{:?}", once), format!("{:?}", many));
}

#[test]
fn first_path_that_exists_wins_even_if_unreadable() {
    let report = obj(vec![(
        "print",
        obj(vec![("mc_percent", JsonValue::Null), ("percent", n(50))]),
    )]);
    let mut state = PrinterState::new();
    state.percent = Some(7);
    state.apply_report(&report, 1);
    assert_eq!(state.percent, Some(7));
}

#[test]
fn unreadable_fields_leave_previous_values() {
    let mut state = PrinterState::new();
    state.percent = Some(10);
    state.layer_num = Some(4);
    state.nozzle_c = Some(1);
    state.rtsp_url = Some(b"rtsp://old".to_vec());
    let report = obj(vec![(
        "print",
        obj(vec![
            ("mc_percent", n(256)),
            ("layer_num", s("-1")),
            ("nozzle_temper", s("hot")),
            ("ipcam", obj(vec![("rtsp_url", s(""))])),
            ("ams", obj(vec![("ams", s("none"))])),
        ]),
    )]);
    state.apply_report(&report, 2);
    assert_eq!(state.percent, Some(10));
    assert_eq!(state.layer_num, Some(4));
    assert_eq!(state.nozzle_c, Some(1));
    assert_eq!(bytes(&state.rtsp_url), Some("rtsp://old"));
    assert!(state.ams.is_empty());
}

#[test]
fn light_from_object_forms() {
    let light = |v: JsonValue| {
        extract_light(&obj(vec![("lights_report", obj(vec![("chamber_light", v)]))]))
            .map(|b| String::from_utf8(b).unwrap())
    };
    assert_eq!(light(n(0)).as_deref(), Some("off"));
    assert_eq!(light(n(1)).as_deref(), Some("on"));
    assert_eq!(light(JsonValue::Number(JsonNumber::Negative(-3))).as_deref(), Some("on"));
    assert_eq!(light(milli(1_500)).as_deref(), Some("off"));
    assert_eq!(light(JsonValue::Bool(true)).as_deref(), Some("on"));
    assert_eq!(light(JsonValue::Bool(false)).as_deref(), Some("off"));
    assert_eq!(light(s("flashing")).as_deref(), Some("on"));
    assert_eq!(light(s("dim")).as_deref(), Some("dim"));
    assert_eq!(light(JsonValue::Null), None);
}

#[test]
fn light_list_skips_entries_without_mode() {
    let report = obj(vec![(
        "lights_report",
        arr(vec![
            obj(vec![("node", s("chamber_light"))]),
            n(3),
            obj(vec![("node", s("chamber_light")), ("mode", s("off"))]),
            obj(vec![("node", s("chamber_light")), ("mode", s("on"))]),
        ]),
    )]);
    assert_eq!(extract_light(&report), Some(b"off".to_vec()));
}

#[test]
fn readers_accept_numbers_and_numeric_text() {
    assert_eq!(read_u8(Some(&n(255))), Some(255));
    assert_eq!(read_u8(Some(&n(256))), None);
    assert_eq!(read_u8(Some(&s("+7"))), Some(7));
    assert_eq!(read_u8(Some(&s("7 "))), None);
    assert_eq!(read_u8(Some(&milli(7_000))), None);
    assert_eq!(read_u8(None), None);
    assert_eq!(read_u32(Some(&s("4294967295"))), Some(u32::MAX));
    assert_eq!(read_u32(Some(&s("4294967296"))), None);
    assert_eq!(read_milli(Some(&n(3))), Some(3_000));
    assert_eq!(read_milli(Some(&s("-0.0005"))), Some(-1));
    assert_eq!(read_milli(Some(&s("1e3"))), None);
    assert_eq!(read_milli(Some(&n(u64::MAX))), None);
    assert_eq!(read_milli(Some(&JsonValue::Bool(true))), None);
}

#[test]
fn text_helpers() {
    assert_eq!(non_empty_text(b"  PLA \t"), Some(b"PLA".to_vec()));
    assert_eq!(non_empty_text(b" \r\n"), None);
    assert_eq!(normalize_light_mode(b"flashing"), b"on".to_vec());
    assert_eq!(normalize_light_mode(b"off"), b"off".to_vec());
}

#[test]
fn ams_ids_fall_back_to_position() {
    let many: Vec<JsonValue> = (0..300).map(|_| obj(vec![("tray_type", s("PLA"))])).collect();
    let report = obj(vec![(
        "ams",
        obj(vec![("ams", arr(vec![n(1), obj(vec![("tray", arr(many))])]))]),
    )]);
    let mut state = PrinterState::new();
    state.apply_report(&report, 0);
    assert_eq!(state.ams.len(), 1);
    assert_eq!(state.ams[0].id, Some(2));
    assert_eq!(state.ams[0].trays.len(), 300);
    assert_eq!(state.ams[0].trays[255].id, Some(255));
    assert_eq!(state.ams[0].trays[256].id, None);
}

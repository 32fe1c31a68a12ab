use printer_gateway::commands::{
    extrude_gcode, format_gcode_number, motion_gcode, sanitize_distance, sanitize_extrude_amount,
    sanitize_feed_rate, sanitize_temperature, CommandRequest, MotionAxis,
};
use printer_gateway::json::{JsonNumber, JsonValue};
use printer_gateway::numeral::parse_milli;

fn text(v: &JsonValue, section: &str, key: &str) -> String {
    let t = v
        .get(section.as_bytes())
        .and_then(|s| s.get(key.as_bytes()))
        .and_then(|t| t.as_text())
        .unwrap();
    String::from_utf8(t.clone()).unwrap()
}

fn top(v: &JsonValue, key: &str) -> String {
    String::from_utf8(v.get(key.as_bytes()).unwrap().as_text().unwrap().clone()).unwrap()
}

fn number(v: &JsonValue, section: &str, key: &str) -> u64 {
    match v.get(section.as_bytes()).unwrap().get(key.as_bytes()).unwrap() {
        JsonValue::Number(JsonNumber::Unsigned(n)) => *n,
        _ => panic!("not an unsigned number"),
    }
}

#[test]
fn home_payload_uses_g28_gcode_line() {
    let payload = CommandRequest::Home.to_payload(b"1", 7);
    assert_eq!(top(&payload, "user_id"), "1");
    assert_eq!(text(&payload, "print", "sequence_id"), "7");
    assert_eq!(text(&payload, "print", "command"), "gcode_line");
    assert_eq!(text(&payload, "print", "param"), "G28 \n");
}

#[test]
fn move_payload_wraps_relative_axis_move() {
    let payload = CommandRequest::Move {
        axis: MotionAxis::X,
        distance: 5_000,
        feed_rate: Some(3000),
    }
    .to_payload(b"1", 9);
    let gcode = text(&payload, "print", "param");

    assert_eq!(text(&payload, "print", "command"), "gcode_line");
    assert!(gcode.contains("M1002 push_ref_mode"));
    assert!(gcode.contains("G91"));
    assert!(gcode.contains("G1 X5 F3000"));
    assert!(gcode.contains("M1002 pop_ref_mode"));
}

#[test]
fn move_payload_clamps_out_of_range_values() {
    let payload = CommandRequest::Move {
        axis: MotionAxis::Z,
        distance: 1_000_000,
        feed_rate: Some(1),
    }
    .to_payload(b"1", 9);
    let gcode = text(&payload, "print", "param");

    assert!(gcode.contains("G1 Z50 F60"));
}

#[test]
fn set_nozzle_temp_uses_m104_with_clamping() {
    let payload = CommandRequest::SetNozzleTemp { target_c: 999_000 }.to_payload(b"1", 10);
    let gcode = text(&payload, "print", "param");

    assert_eq!(text(&payload, "print", "command"), "gcode_line");
    assert_eq!(gcode, "M104 S320\n");
}

#[test]
fn set_bed_temp_uses_m140_with_clamping() {
    let payload = CommandRequest::SetBedTemp { target_c: -5_000 }.to_payload(b"1", 11);
    let gcode = text(&payload, "print", "param");

    assert_eq!(text(&payload, "print", "command"), "gcode_line");
    assert_eq!(gcode, "M140 S0\n");
}

#[test]
fn extrude_uses_relative_extrusion_gcode() {
    let payload = CommandRequest::Extrude {
        amount_mm: 5_000,
        feed_rate: Some(240),
    }
    .to_payload(b"1", 12);
    let gcode = text(&payload, "print", "param");

    assert_eq!(text(&payload, "print", "command"), "gcode_line");
    assert_eq!(gcode, "M83\nG1 E5 F240\n");
}

#[test]
fn plain_commands_name_themselves() {
    for (cmd, name) in [
        (CommandRequest::Pause, "pause"),
        (CommandRequest::Resume, "resume"),
        (CommandRequest::Stop, "stop"),
    ] {
        let payload = cmd.to_payload(b"42", 3);
        assert_eq!(top(&payload, "user_id"), "42");
        assert_eq!(text(&payload, "print", "sequence_id"), "3");
        assert_eq!(text(&payload, "print", "command"), name);
        assert!(payload.get(b"print").unwrap().get(b"param").is_none());
    }
}

#[test]
fn light_payload_goes_to_system_section() {
    let on = CommandRequest::Light { on: true }.to_payload(b"1", 1);
    assert_eq!(text(&on, "system", "command"), "ledctrl");
    assert_eq!(text(&on, "system", "led_node"), "chamber_light");
    assert_eq!(text(&on, "system", "led_mode"), "on");
    assert_eq!(number(&on, "system", "led_on_time"), 500);
    assert_eq!(number(&on, "system", "led_off_time"), 500);
    assert_eq!(number(&on, "system", "loop_times"), 0);
    assert_eq!(number(&on, "system", "interval_time"), 0);
    assert!(on.get(b"print").is_none());
    let off = CommandRequest::Light { on: false }.to_payload(b"1", 2);
    assert_eq!(text(&off, "system", "led_mode"), "off");
    assert_eq!(text(&off, "system", "sequence_id"), "2");
}

#[test]
fn move_uses_default_feed_rates() {
    let x = CommandRequest::Move { axis: MotionAxis::Y, distance: -1_500, feed_rate: None }
        .to_payload(b"1", 1);
    assert_eq!(
        text(&x, "print", "param"),
        "M211 X0 Y0 Z0 \nM211 S\nM1002 push_ref_mode\nG91\nG1 Y-1.5 F3000\nM1002 pop_ref_mode\n"
    );
    let z = CommandRequest::Move { axis: MotionAxis::Z, distance: 250, feed_rate: None }
        .to_payload(b"1", 1);
    assert!(text(&z, "print", "param").contains("G1 Z0.25 F600\n"));
    let e = CommandRequest::Extrude { amount_mm: -60_000, feed_rate: None }.to_payload(b"1", 1);
    assert_eq!(text(&e, "print", "param"), "M83\nG1 E-50 F180\n");
}

#[test]
fn sanitizers_clamp_to_their_ranges() {
    assert_eq!(sanitize_distance(50_001), 50_000);
    assert_eq!(sanitize_distance(-50_001), -50_000);
    assert_eq!(sanitize_distance(123), 123);
    assert_eq!(sanitize_distance(i64::MIN), -50_000);
    assert_eq!(sanitize_extrude_amount(i64::MAX), 50_000);
    assert_eq!(sanitize_extrude_amount(-7), -7);
    assert_eq!(sanitize_feed_rate(0), 60);
    assert_eq!(sanitize_feed_rate(59), 60);
    assert_eq!(sanitize_feed_rate(60), 60);
    assert_eq!(sanitize_feed_rate(12_000), 12_000);
    assert_eq!(sanitize_feed_rate(u32::MAX), 12_000);
}

#[test]
fn temperatures_round_to_whole_degrees() {
    assert_eq!(sanitize_temperature(219_499, 0, 320), 219);
    assert_eq!(sanitize_temperature(219_500, 0, 320), 220);
    assert_eq!(sanitize_temperature(-499, -10, 10), 0);
    assert_eq!(sanitize_temperature(-500, -10, 10), -1);
    assert_eq!(sanitize_temperature(320_499, 0, 320), 320);
    assert_eq!(sanitize_temperature(i64::MAX, 0, 120), 120);
    assert_eq!(sanitize_temperature(i64::MIN, 0, 120), 0);
}

#[test]
fn axis_letters_and_feed_rates() {
    assert_eq!(MotionAxis::X.letter(), b'X');
    assert_eq!(MotionAxis::Y.letter(), b'Y');
    assert_eq!(MotionAxis::Z.letter(), b'Z');
    assert_eq!(MotionAxis::X.default_feed_rate(), 3000);
    assert_eq!(MotionAxis::Y.default_feed_rate(), 3000);
    assert_eq!(MotionAxis::Z.default_feed_rate(), 600);
}

#[test]
fn gcode_numbers_trim_zeros() {
    let cases: [(i64, &str); 12] = [
        (0, "0"),
        (1, "0.001"),
        (10, "0.01"),
        (100, "0.1"),
        (1_000, "1"),
        (1_500, "1.5"),
        (1_050, "1.05"),
        (1_005, "1.005"),
        (-1, "-0.001"),
        (-50_000, "-50"),
        (12_340, "12.34"),
        (i64::MIN, "-9223372036854775.808"),
    ];
    for (value, expected) in cases {
        assert_eq!(String::from_utf8(format_gcode_number(value)).unwrap(), expected);
    }
}

#[test]
fn gcode_numbers_read_back_as_written() {
    let mut m: i64 = -50_000;
    while m <= 50_000 {
        let written = format_gcode_number(m);
        assert_eq!(parse_milli(&written), Some(m));
        assert_eq!(format_gcode_number(parse_milli(&written).unwrap()), written);
        m += 7;
    }
    for m in [i64::MAX, -i64::MAX, 999, -999, 1_000_000_007] {
        assert_eq!(parse_milli(&format_gcode_number(m)), Some(m));
    }
}

#[test]
fn gcode_blocks_are_exact() {
    assert_eq!(
        String::from_utf8(motion_gcode(MotionAxis::X, 5_000, 3000)).unwrap(),
        "M211 X0 Y0 Z0 \nM211 S\nM1002 push_ref_mode\nG91\nG1 X5 F3000\nM1002 pop_ref_mode\n"
    );
    assert_eq!(String::from_utf8(extrude_gcode(-2_250, 180)).unwrap(), "M83\nG1 E-2.25 F180\n");
}

#[test]
fn sequence_id_is_decimal_text() {
    let payload = CommandRequest::Home.to_payload(b"u", u64::MAX);
    assert_eq!(text(&payload, "print", "sequence_id"), "18446744073709551615");
}

//! Printer commands and their wire payloads.
//!
//! Lengths and temperatures are carried in thousandths of their unit
//! (micrometres, millidegrees), so that clamping, rounding and formatting are
//! exact integer arithmetic.

use vstd::prelude::*;
use vstd::slice::slice_to_vec;
use crate::json::{JsonMember, JsonNumber, JsonValue};
use crate::numeral::{
    all_digits, decimal, decimal_magnitude, fraction_digits,
    fraction_milli, is_decimal, is_digit, lemma_decimal_round_trip, lemma_digit_run_of,
    milli_value, push_decimal, signed_body,
};
use crate::octets::append;
use crate::text::lit;

verus! {

/// Largest move in either direction, in thousandths of a millimetre.
pub const MAX_MOVE: i64 = 50_000;

/// Largest extrusion in either direction, in thousandths of a millimetre.
pub const MAX_EXTRUDE: i64 = 50_000;

/// Slowest feed rate sent to the printer, in mm/min.
pub const MIN_FEED_RATE: u32 = 60;

/// Fastest feed rate sent to the printer, in mm/min.
pub const MAX_FEED_RATE: u32 = 12000;

/// Feed rate of an extrusion that names none.
pub const EXTRUDE_FEED_RATE: u32 = 180;

/// The lowest nozzle target in whole degrees Celsius.
pub const NOZZLE_TEMP_MIN_C: i64 = 0;

/// The highest nozzle target in whole degrees Celsius.
pub const NOZZLE_TEMP_MAX_C: i64 = 320;

/// The lowest bed target in whole degrees Celsius.
pub const BED_TEMP_MIN_C: i64 = 0;

/// The highest bed target in whole degrees Celsius.
pub const BED_TEMP_MAX_C: i64 = 120;

/// A linear axis of the printer.
#[derive(Clone, Copy, Debug, PartialEq, Eq)]
pub enum MotionAxis {
    X,
    Y,
    Z,
}

impl MotionAxis {
    /// The G-code letter of the axis.
    pub open spec fn spec_letter(self) -> u8 {
        match self {
            MotionAxis::X => 88,
            MotionAxis::Y => 89,
            MotionAxis::Z => 90,
        }
    }

    /// The feed rate of a move that names none.
    pub open spec fn spec_default_feed_rate(self) -> u32 {
        match self {
            MotionAxis::X => 3000,
            MotionAxis::Y => 3000,
            MotionAxis::Z => 600,
        }
    }

    /// The G-code letter of the axis: `X`, `Y` or `Z`.
    pub fn letter(self) -> (r: u8)
        ensures
            r == self.spec_letter(),
    {
        match self {
            MotionAxis::X => 88,
            MotionAxis::Y => 89,
            MotionAxis::Z => 90,
        }
    }

    /// The feed rate of a move that names none: 3000 for X and Y, 600 for Z.
    pub fn default_feed_rate(self) -> (r: u32)
        ensures
            r == self.spec_default_feed_rate(),
    {
        match self {
            MotionAxis::X => 3000,
            MotionAxis::Y => 3000,
            MotionAxis::Z => 600,
        }
    }
}

/// A command for the printer.
#[derive(Clone, Copy, Debug)]
pub enum CommandRequest {
    Pause,
    Resume,
    Stop,
    Light { on: bool },
    Home,
    /// A relative move; `distance` in thousandths of a millimetre.
    Move { axis: MotionAxis, distance: i64, feed_rate: Option<u32> },
    /// `target_c` in thousandths of a degree.
    SetNozzleTemp { target_c: i64 },
    /// `target_c` in thousandths of a degree.
    SetBedTemp { target_c: i64 },
    /// `amount_mm` in thousandths of a millimetre.
    Extrude { amount_mm: i64, feed_rate: Option<u32> },
}

/// `v` limited to the range from `lo` to `hi`.
pub open spec fn clamped(v: int, lo: int, hi: int) -> int {
    if v < lo {
        lo
    } else if v > hi {
        hi
    } else {
        v
    }
}

/// The absolute value of `m`.
pub open spec fn magnitude(m: int) -> nat {
    if m < 0 {
        (-m) as nat
    } else {
        m as nat
    }
}

/// `m` thousandths rounded to whole units, halves away from zero.
pub open spec fn rounded_whole(m: int) -> int {
    let a = magnitude(m);
    let w = a / 1000 + if a % 1000 >= 500 {
        1int
    } else {
        0int
    };
    if m < 0 {
        -w
    } else {
        w
    }
}

/// The fraction digits of a number with `frac` thousandths after the point:
/// nothing for zero, else a point and the digits without trailing zeros.
pub open spec fn fraction_text(frac: nat) -> Seq<u8> {
    let d1 = (48 + frac / 100) as u8;
    let d2 = (48 + (frac / 10) % 10) as u8;
    let d3 = (48 + frac % 10) as u8;
    if frac == 0 {
        Seq::empty()
    } else if frac % 100 == 0 {
        seq![46u8, d1]
    } else if frac % 10 == 0 {
        seq![46u8, d1, d2]
    } else {
        seq![46u8, d1, d2, d3]
    }
}

/// The G-code spelling of `m` thousandths: a minus sign for a negative
/// number, the whole part, and up to three fraction digits.
pub open spec fn gcode_number(m: int) -> Seq<u8> {
    let a = magnitude(m);
    let sign = if m < 0 {
        seq![45u8]
    } else {
        Seq::empty()
    };
    sign + decimal(a / 1000) + fraction_text(a % 1000)
}

/// The G-code block of a relative move.
pub open spec fn motion_gcode_text(axis: MotionAxis, distance: int, feed_rate: u32) -> Seq<u8> {
    lit("M211 X0 Y0 Z0 \nM211 S\nM1002 push_ref_mode\nG91\nG1 ") + seq![axis.spec_letter()]
        + gcode_number(distance) + lit(" F") + decimal(feed_rate as nat) + lit(
        "\nM1002 pop_ref_mode\n",
    )
}

/// The G-code block of a relative extrusion.
pub open spec fn extrude_gcode_text(amount: int, feed_rate: u32) -> Seq<u8> {
    lit("M83\nG1 E") + gcode_number(amount) + lit(" F") + decimal(feed_rate as nat) + lit("\n")
}

/// The G-code line that sets a heater: `code`, the whole-degree target, a line feed.
pub open spec fn heater_gcode_text(code: Seq<u8>, target: int) -> Seq<u8> {
    code + gcode_number(target * 1000) + lit("\n")
}

/// Limits a move to 50 mm in either direction.
pub fn sanitize_distance(distance: i64) -> (r: i64)
    ensures
        r == clamped(distance as int, -MAX_MOVE as int, MAX_MOVE as int),
{
    if distance < -MAX_MOVE {
        -MAX_MOVE
    } else if distance > MAX_MOVE {
        MAX_MOVE
    } else {
        distance
    }
}

/// Limits an extrusion to 50 mm in either direction.
pub fn sanitize_extrude_amount(amount_mm: i64) -> (r: i64)
    ensures
        r == clamped(amount_mm as int, -MAX_EXTRUDE as int, MAX_EXTRUDE as int),
{
    if amount_mm < -MAX_EXTRUDE {
        -MAX_EXTRUDE
    } else if amount_mm > MAX_EXTRUDE {
        MAX_EXTRUDE
    } else {
        amount_mm
    }
}

/// Limits a feed rate to the range from 60 to 12000 mm/min.
pub fn sanitize_feed_rate(feed_rate: u32) -> (r: u32)
    ensures
        r as int == clamped(feed_rate as int, MIN_FEED_RATE as int, MAX_FEED_RATE as int),
{
    if feed_rate < MIN_FEED_RATE {
        MIN_FEED_RATE
    } else if feed_rate > MAX_FEED_RATE {
        MAX_FEED_RATE
    } else {
        feed_rate
    }
}

/// Rounds a target in thousandths of a degree to whole degrees and limits it
/// to the range from `min_c` to `max_c` whole degrees.
pub fn sanitize_temperature(target_c: i64, min_c: i64, max_c: i64) -> (r: i64)
    requires
        min_c <= max_c,
    ensures
        r == clamped(rounded_whole(target_c as int), min_c as int, max_c as int),
{
    let negative: bool = target_c < 0;
    let mag: u64 = if negative { ((-(target_c + 1)) as u64) + 1 } else { target_c as u64 };
    let up: u64 = if mag % 1000 >= 500 { 1 } else { 0 };
    let whole_mag: u64 = mag / 1000 + up;
    let whole: i64 = if negative { -(whole_mag as i64) } else { whole_mag as i64 };
    if whole < min_c {
        min_c
    } else if whole > max_c {
        max_c
    } else {
        whole
    }
}

/// Writes `value` thousandths as a G-code number: three decimals, without
/// trailing zeros or a trailing point.
pub fn format_gcode_number(value: i64) -> (r: Vec<u8>)
    ensures
        r@ == gcode_number(value as int),
{
    let mut out: Vec<u8> = Vec::new();
    let negative: bool = value < 0;
    let mag: u64 = if negative { ((-(value + 1)) as u64) + 1 } else { value as u64 };
    if negative {
        out.push(45);
    }
    push_decimal(&mut out, mag / 1000);
    let frac: u64 = mag % 1000;
    if frac != 0 {
        out.push(46);
        out.push(48 + (frac / 100) as u8);
        if frac % 100 != 0 {
            out.push(48 + ((frac / 10) % 10) as u8);
            if frac % 10 != 0 {
                out.push(48 + (frac % 10) as u8);
            }
        }
    }
    assert(out@ =~= gcode_number(value as int));
    out
}

/// The G-code block that moves `axis` by `distance` thousandths of a
/// millimetre at `feed_rate`, relative to the current position.
pub fn motion_gcode(axis: MotionAxis, distance: i64, feed_rate: u32) -> (r: Vec<u8>)
    ensures
        r@ == motion_gcode_text(axis, distance as int, feed_rate),
{
    let mut out: Vec<u8> = Vec::new();
    append(&mut out, "M211 X0 Y0 Z0 \nM211 S\nM1002 push_ref_mode\nG91\nG1 ".as_bytes());
    out.push(axis.letter());
    let number = format_gcode_number(distance);
    append(&mut out, number.as_slice());
    append(&mut out, " F".as_bytes());
    push_decimal(&mut out, feed_rate as u64);
    append(&mut out, "\nM1002 pop_ref_mode\n".as_bytes());
    assert(out@ =~= motion_gcode_text(axis, distance as int, feed_rate));
    out
}

/// The G-code block that extrudes `amount_mm` thousandths of a millimetre at
/// `feed_rate`.
pub fn extrude_gcode(amount_mm: i64, feed_rate: u32) -> (r: Vec<u8>)
    ensures
        r@ == extrude_gcode_text(amount_mm as int, feed_rate),
{
    let mut out: Vec<u8> = Vec::new();
    append(&mut out, "M83\nG1 E".as_bytes());
    let number = format_gcode_number(amount_mm);
    append(&mut out, number.as_slice());
    append(&mut out, " F".as_bytes());
    push_decimal(&mut out, feed_rate as u64);
    append(&mut out, "\n".as_bytes());
    assert(out@ =~= extrude_gcode_text(amount_mm as int, feed_rate));
    out
}

/// The G-code line `code` followed by a whole-degree target. The target in
/// thousandths must fit 64 bits.
pub fn heater_gcode(code: &str, target: i64) -> (r: Vec<u8>)
    requires
        -9_223_372_036_854_775 <= target <= 9_223_372_036_854_775,
    ensures
        r@ == heater_gcode_text(lit(code), target as int),
{
    let mut out: Vec<u8> = Vec::new();
    append(&mut out, code.as_bytes());
    let number = format_gcode_number(target * 1000);
    append(&mut out, number.as_slice());
    append(&mut out, "\n".as_bytes());
    assert(out@ =~= heater_gcode_text(lit(code), target as int));
    out
}

/// The value of one field of a payload.
pub enum Field {
    Text(Seq<u8>),
    Unsigned(nat),
}

/// What a payload says: the user, the name of the section that carries the
/// command (`print` or `system`), and the section's fields in order.
pub struct Payload {
    pub user_id: Seq<u8>,
    pub section: Seq<u8>,
    pub fields: Seq<(Seq<u8>, Field)>,
}

/// The fields of a `print` section that carries a command without parameters.
pub open spec fn plain_fields(sequence_id: u64, command: Seq<u8>) -> Seq<(Seq<u8>, Field)> {
    seq![
        (lit("sequence_id"), Field::Text(decimal(sequence_id as nat))),
        (lit("command"), Field::Text(command)),
    ]
}

/// The fields of a `print` section that carries G-code.
pub open spec fn gcode_fields(sequence_id: u64, gcode: Seq<u8>) -> Seq<(Seq<u8>, Field)> {
    seq![
        (lit("sequence_id"), Field::Text(decimal(sequence_id as nat))),
        (lit("command"), Field::Text(lit("gcode_line"))),
        (lit("param"), Field::Text(gcode)),
    ]
}

/// The fields of a `system` section that switches the chamber light.
pub open spec fn light_fields(sequence_id: u64, on: bool) -> Seq<(Seq<u8>, Field)> {
    seq![
        (lit("sequence_id"), Field::Text(decimal(sequence_id as nat))),
        (lit("command"), Field::Text(lit("ledctrl"))),
        (lit("led_node"), Field::Text(lit("chamber_light"))),
        (lit("led_mode"), Field::Text(if on { lit("on") } else { lit("off") })),
        (lit("led_on_time"), Field::Unsigned(500)),
        (lit("led_off_time"), Field::Unsigned(500)),
        (lit("loop_times"), Field::Unsigned(0)),
        (lit("interval_time"), Field::Unsigned(0)),
    ]
}

/// The feed rate that a move or an extrusion is sent with.
pub open spec fn effective_feed_rate(asked: Option<u32>, default: u32) -> u32 {
    let rate = match asked {
        Some(f) => f,
        None => default,
    };
    clamped(rate as int, MIN_FEED_RATE as int, MAX_FEED_RATE as int) as u32
}

/// The G-code that a command is sent as, for the commands that are.
pub open spec fn command_gcode(cmd: CommandRequest) -> Option<Seq<u8>> {
    match cmd {
        CommandRequest::Home => Some(lit("G28 \n")),
        CommandRequest::Move { axis, distance, feed_rate } => Some(
            motion_gcode_text(
                axis,
                clamped(distance as int, -MAX_MOVE as int, MAX_MOVE as int),
                effective_feed_rate(feed_rate, axis.spec_default_feed_rate()),
            ),
        ),
        CommandRequest::SetNozzleTemp { target_c } => Some(
            heater_gcode_text(
                lit("M104 S"),
                clamped(
                    rounded_whole(target_c as int),
                    NOZZLE_TEMP_MIN_C as int,
                    NOZZLE_TEMP_MAX_C as int,
                ),
            ),
        ),
        CommandRequest::SetBedTemp { target_c } => Some(
            heater_gcode_text(
                lit("M140 S"),
                clamped(rounded_whole(target_c as int), BED_TEMP_MIN_C as int, BED_TEMP_MAX_C as int),
            ),
        ),
        CommandRequest::Extrude { amount_mm, feed_rate } => Some(
            extrude_gcode_text(
                clamped(amount_mm as int, -MAX_EXTRUDE as int, MAX_EXTRUDE as int),
                effective_feed_rate(feed_rate, EXTRUDE_FEED_RATE),
            ),
        ),
        _ => None,
    }
}

/// What the payload of `cmd` says.
pub open spec fn payload_of(cmd: CommandRequest, user_id: Seq<u8>, sequence_id: u64) -> Payload {
    match cmd {
        CommandRequest::Pause => Payload {
            user_id,
            section: lit("print"),
            fields: plain_fields(sequence_id, lit("pause")),
        },
        CommandRequest::Resume => Payload {
            user_id,
            section: lit("print"),
            fields: plain_fields(sequence_id, lit("resume")),
        },
        CommandRequest::Stop => Payload {
            user_id,
            section: lit("print"),
            fields: plain_fields(sequence_id, lit("stop")),
        },
        CommandRequest::Light { on } => Payload {
            user_id,
            section: lit("system"),
            fields: light_fields(sequence_id, on),
        },
        _ => Payload {
            user_id,
            section: lit("print"),
            fields: gcode_fields(sequence_id, command_gcode(cmd).unwrap()),
        },
    }
}

/// Whether the JSON value `v` is the field value `f`.
pub open spec fn is_field(v: JsonValue, f: Field) -> bool {
    match f {
        Field::Text(t) => v.text() == Some(t),
        Field::Unsigned(n) => v matches JsonValue::Number(JsonNumber::Unsigned(u)) && u as nat == n,
    }
}

/// Whether `members` are exactly `fields`, in order.
pub open spec fn are_fields(members: Seq<JsonMember>, fields: Seq<(Seq<u8>, Field)>) -> bool {
    &&& members.len() == fields.len()
    &&& forall|i: int|
        0 <= i < members.len() ==> (#[trigger] members[i]).key@ == fields[i].0 && is_field(
            members[i].value,
            fields[i].1,
        )
}

/// Whether the JSON value `v` is the object
/// `{"user_id": .., "<section>": {<fields>}}` that `p` describes.
pub open spec fn is_payload(v: JsonValue, p: Payload) -> bool {
    v matches JsonValue::Object(top) && top@.len() == 2 && top@[0].key@ == lit("user_id")
        && top@[0].value.text() == Some(p.user_id) && top@[1].key@ == p.section && (
    top@[1].value matches JsonValue::Object(body) && are_fields(body@, p.fields))
}

/// A member whose value is text.
pub fn text_member(key: &str, value: Vec<u8>) -> (r: JsonMember)
    ensures
        r.key@ == lit(key),
        r.value.text() == Some(value@),
{
    JsonMember { key: slice_to_vec(key.as_bytes()), value: JsonValue::Text(value) }
}

/// A member whose value is an unsigned number.
pub fn unsigned_member(key: &str, value: u64) -> (r: JsonMember)
    ensures
        r.key@ == lit(key),
        r.value == JsonValue::Number(JsonNumber::Unsigned(value)),
{
    JsonMember {
        key: slice_to_vec(key.as_bytes()),
        value: JsonValue::Number(JsonNumber::Unsigned(value)),
    }
}

/// The object `{"user_id": .., "<section>": {<body>}}`.
pub fn envelope(user_id: &[u8], section: &str, body: Vec<JsonMember>) -> (r: JsonValue)
    ensures
        r matches JsonValue::Object(top) && top@.len() == 2 && top@[0].key@ == lit("user_id")
            && top@[0].value.text() == Some(user_id@) && top@[1].key@ == lit(section)
            && top@[1].value == JsonValue::Object(body),
{
    let mut top: Vec<JsonMember> = Vec::new();
    top.push(text_member("user_id", slice_to_vec(user_id)));
    top.push(JsonMember { key: slice_to_vec(section.as_bytes()), value: JsonValue::Object(body) });
    JsonValue::Object(top)
}

/// The first two fields of every section: the sequence id as decimal text,
/// and the command name.
pub fn section_head(sequence_id: u64, command: &str) -> (r: Vec<JsonMember>)
    ensures
        are_fields(r@, plain_fields(sequence_id, lit(command))),
{
    let mut id: Vec<u8> = Vec::new();
    push_decimal(&mut id, sequence_id);
    assert(id@ =~= decimal(sequence_id as nat));
    let mut body: Vec<JsonMember> = Vec::new();
    body.push(text_member("sequence_id", id));
    body.push(text_member("command", slice_to_vec(command.as_bytes())));
    body
}

/// The payload that carries one block of G-code.
pub fn gcode_payload(user_id: &[u8], sequence_id: u64, gcode: Vec<u8>) -> (r: JsonValue)
    ensures
        is_payload(
            r,
            Payload {
                user_id: user_id@,
                section: lit("print"),
                fields: gcode_fields(sequence_id, gcode@),
            },
        ),
{
    let mut body = section_head(sequence_id, "gcode_line");
    body.push(text_member("param", gcode));
    envelope(user_id, "print", body)
}

impl CommandRequest {
    /// The JSON payload that carries this command to the printer, for the
    /// given user and sequence number.
    pub fn to_payload(&self, user_id: &[u8], sequence_id: u64) -> (r: JsonValue)
        ensures
            is_payload(r, payload_of(*self, user_id@, sequence_id)),
    {
        match *self {
            CommandRequest::Pause => envelope(user_id, "print", section_head(sequence_id, "pause")),
            CommandRequest::Resume => envelope(
                user_id,
                "print",
                section_head(sequence_id, "resume"),
            ),
            CommandRequest::Stop => envelope(user_id, "print", section_head(sequence_id, "stop")),
            CommandRequest::Light { on } => {
                let mut body = section_head(sequence_id, "ledctrl");
                body.push(text_member("led_node", slice_to_vec("chamber_light".as_bytes())));
                let mode: &str = if on { "on" } else { "off" };
                body.push(text_member("led_mode", slice_to_vec(mode.as_bytes())));
                body.push(unsigned_member("led_on_time", 500));
                body.push(unsigned_member("led_off_time", 500));
                body.push(unsigned_member("loop_times", 0));
                body.push(unsigned_member("interval_time", 0));
                envelope(user_id, "system", body)
            },
            CommandRequest::Home => gcode_payload(
                user_id,
                sequence_id,
                slice_to_vec("G28 \n".as_bytes()),
            ),
            CommandRequest::Move { axis, distance, feed_rate } => {
                let distance = sanitize_distance(distance);
                let rate: u32 = match feed_rate {
                    Some(f) => f,
                    None => axis.default_feed_rate(),
                };
                let gcode = motion_gcode(axis, distance, sanitize_feed_rate(rate));
                gcode_payload(user_id, sequence_id, gcode)
            },
            CommandRequest::SetNozzleTemp { target_c } => {
                let target = sanitize_temperature(target_c, NOZZLE_TEMP_MIN_C, NOZZLE_TEMP_MAX_C);
                gcode_payload(user_id, sequence_id, heater_gcode("M104 S", target))
            },
            CommandRequest::SetBedTemp { target_c } => {
                let target = sanitize_temperature(target_c, BED_TEMP_MIN_C, BED_TEMP_MAX_C);
                gcode_payload(user_id, sequence_id, heater_gcode("M140 S", target))
            },
            CommandRequest::Extrude { amount_mm, feed_rate } => {
                let amount = sanitize_extrude_amount(amount_mm);
                let rate: u32 = match feed_rate {
                    Some(f) => f,
                    None => EXTRUDE_FEED_RATE,
                };
                let gcode = extrude_gcode(amount, sanitize_feed_rate(rate));
                gcode_payload(user_id, sequence_id, gcode)
            },
        }
    }
}

/// What the fraction digits of a G-code number hold: nothing for a whole
/// number, else a point and one to three digits that spell the thousandths.
proof fn lemma_fraction_text(frac: nat)
    requires
        frac < 1000,
    ensures
        (fraction_text(frac).len() == 0) == (frac == 0),
        frac > 0 ==> fraction_text(frac)[0] == 46 && all_digits(fraction_text(frac).skip(1))
            && fraction_milli(fraction_text(frac).skip(1)) == frac,
{
    if frac > 0 {
        let tail = fraction_text(frac);
        let digits = tail.skip(1);
        assert(forall|i: int| 0 <= i < digits.len() ==> digits[i] == tail[i + 1]);
        assert(forall|i: int| 0 <= i < digits.len() ==> is_digit(#[trigger] digits[i]));
        if frac % 100 == 0 {
            assert(digits.len() == 1);
        } else if frac % 10 == 0 {
            assert(digits.len() == 2);
        } else {
            assert(digits.len() == 3);
        }
    }
}

/// Reading a G-code number gives back the number that was written.
///
/// For every number of thousandths whose magnitude fits 63 bits, the text
/// that [`format_gcode_number`] writes is read by [`crate::numeral::parse_milli`] as that
/// number. Writing what was read therefore gives the same text again.
#[verifier::rlimit(40)]
pub proof fn lemma_gcode_number_round_trip(m: int)
    requires
        -0x7FFF_FFFF_FFFF_FFFF <= m <= 0x7FFF_FFFF_FFFF_FFFF,
    ensures
        milli_value(gcode_number(m)) == Some(m),
        gcode_number(milli_value(gcode_number(m)).unwrap()) == gcode_number(m),
{
    let a = magnitude(m);
    let whole = decimal(a / 1000);
    let frac = a % 1000;
    let tail = fraction_text(frac);
    let s = gcode_number(m);
    lemma_decimal_round_trip(a / 1000);
    lemma_fraction_text(frac);
    let body = whole + tail;
    if m < 0 {
        assert(s =~= seq![45u8] + body);
        assert(s[0] == 45);
        assert(signed_body(s) =~= body);
    } else {
        assert(s =~= body);
        assert(s[0] == whole[0]);
        assert(signed_body(s) =~= body);
    }
    lemma_digit_run_of(whole, tail);
    assert(body.take(whole.len() as int) =~= whole);
    assert(body.skip(whole.len() as int) =~= tail);
    let digits = fraction_digits(body);
    if frac == 0 {
        assert(digits =~= Seq::<u8>::empty());
        assert(fraction_milli(digits) == 0);
    } else {
        assert(digits =~= tail.skip(1));
    }
    assert(is_decimal(s));
    assert(decimal_magnitude(s) == a);
}

} // verus!

//! The printer's last known state, accumulated from sparse status reports.
//!
//! A report is a JSON document that carries any subset of the known fields.
//! Each field is looked up on its own, under a list of paths tried in order;
//! a field that the report does not carry, or carries in a form that cannot
//! be read, keeps its previous value. Temperatures are held in thousandths
//! of a degree.

use vstd::prelude::*;
use crate::json::{JsonNumber, JsonValue};
use crate::numeral::{milli_value, parse_bounded, parse_milli, parse_uint};
use crate::text::{bytes_eq, lit, trim, trimmed};

verus! {

/// One filament tray of a material unit.
#[derive(Clone, Debug, Default)]
pub struct AmsTrayState {
    pub id: Option<u8>,
    pub filament_type: Option<Vec<u8>>,
    pub color: Option<Vec<u8>>,
}

/// One material unit with its trays.
#[derive(Clone, Debug, Default)]
pub struct AmsUnitState {
    pub id: Option<u8>,
    pub humidity_raw: Option<u8>,
    pub trays: Vec<AmsTrayState>,
}

/// Everything the gateway knows about one printer.
#[derive(Clone, Debug, Default)]
pub struct PrinterState {
    pub connected: bool,
    pub job_state: Option<Vec<u8>>,
    pub percent: Option<u8>,
    pub layer_num: Option<u32>,
    pub total_layer_num: Option<u32>,
    pub remaining_minutes: Option<u32>,
    /// Temperatures in thousandths of a degree Celsius.
    pub nozzle_c: Option<i64>,
    pub nozzle_target_c: Option<i64>,
    pub bed_c: Option<i64>,
    pub bed_target_c: Option<i64>,
    pub chamber_c: Option<i64>,
    pub light: Option<Vec<u8>>,
    pub rtsp_url: Option<Vec<u8>>,
    pub ams: Vec<AmsUnitState>,
    /// The caller's clock at the last report.
    pub last_update: Option<i64>,
}

/// The contents of an optional byte string.
pub open spec fn opt_bytes(o: Option<Vec<u8>>) -> Option<Seq<u8>> {
    match o {
        Some(v) => Some(v@),
        None => None,
    }
}

/// What a tray state holds.
pub struct TrayModel {
    pub id: Option<u8>,
    pub filament_type: Option<Seq<u8>>,
    pub color: Option<Seq<u8>>,
}

/// What a unit state holds.
pub struct UnitModel {
    pub id: Option<u8>,
    pub humidity_raw: Option<u8>,
    pub trays: Seq<TrayModel>,
}

/// What a printer state holds.
pub struct StateModel {
    pub connected: bool,
    pub job_state: Option<Seq<u8>>,
    pub percent: Option<u8>,
    pub layer_num: Option<u32>,
    pub total_layer_num: Option<u32>,
    pub remaining_minutes: Option<u32>,
    pub nozzle_c: Option<i64>,
    pub nozzle_target_c: Option<i64>,
    pub bed_c: Option<i64>,
    pub bed_target_c: Option<i64>,
    pub chamber_c: Option<i64>,
    pub light: Option<Seq<u8>>,
    pub rtsp_url: Option<Seq<u8>>,
    pub ams: Seq<UnitModel>,
    pub last_update: Option<i64>,
}

impl View for AmsTrayState {
    type V = TrayModel;

    open spec fn view(&self) -> TrayModel {
        TrayModel {
            id: self.id,
            filament_type: opt_bytes(self.filament_type),
            color: opt_bytes(self.color),
        }
    }
}

/// The models of a list of trays.
pub open spec fn tray_models(trays: Seq<AmsTrayState>) -> Seq<TrayModel> {
    Seq::new(trays.len(), |i: int| trays[i]@)
}

impl View for AmsUnitState {
    type V = UnitModel;

    open spec fn view(&self) -> UnitModel {
        UnitModel { id: self.id, humidity_raw: self.humidity_raw, trays: tray_models(self.trays@) }
    }
}

/// The models of a list of units.
pub open spec fn unit_models(units: Seq<AmsUnitState>) -> Seq<UnitModel> {
    Seq::new(units.len(), |i: int| units[i]@)
}

impl View for PrinterState {
    type V = StateModel;

    open spec fn view(&self) -> StateModel {
        StateModel {
            connected: self.connected,
            job_state: opt_bytes(self.job_state),
            percent: self.percent,
            layer_num: self.layer_num,
            total_layer_num: self.total_layer_num,
            remaining_minutes: self.remaining_minutes,
            nozzle_c: self.nozzle_c,
            nozzle_target_c: self.nozzle_target_c,
            bed_c: self.bed_c,
            bed_target_c: self.bed_target_c,
            chamber_c: self.chamber_c,
            light: opt_bytes(self.light),
            rtsp_url: opt_bytes(self.rtsp_url),
            ams: unit_models(self.ams@),
            last_update: self.last_update,
        }
    }
}

/// The state in which nothing is known and the printer is not connected.
pub open spec fn unknown() -> StateModel {
    StateModel {
        connected: false,
        job_state: None,
        percent: None,
        layer_num: None,
        total_layer_num: None,
        remaining_minutes: None,
        nozzle_c: None,
        nozzle_target_c: None,
        bed_c: None,
        bed_target_c: None,
        chamber_c: None,
        light: None,
        rtsp_url: None,
        ams: Seq::empty(),
        last_update: None,
    }
}

/// The first of up to three paths that leads to a value in `report`, and
/// that value. An empty path stands for "no further path".
pub open spec fn first_present(report: JsonValue, a: Seq<&str>, b: Seq<&str>, c: Seq<&str>) -> Option<
    JsonValue,
> {
    if report.at(a).is_some() {
        report.at(a)
    } else if b.len() > 0 && report.at(b).is_some() {
        report.at(b)
    } else if c.len() > 0 {
        report.at(c)
    } else {
        None
    }
}

/// An unsigned number no greater than `max`, from a JSON unsigned integer or
/// from text that spells one.
pub open spec fn unsigned_of(v: Option<JsonValue>, max: nat) -> Option<nat> {
    match v {
        Some(JsonValue::Number(JsonNumber::Unsigned(n))) => if n <= max {
            Some(n as nat)
        } else {
            None
        },
        Some(JsonValue::Text(t)) => parse_uint(t@, max),
        _ => None,
    }
}

/// A quantity in thousandths, from a JSON number or from text that spells a
/// plain decimal; none where thousandths would not fit 63 bits.
pub open spec fn milli_of(v: Option<JsonValue>) -> Option<int> {
    match v {
        Some(JsonValue::Number(JsonNumber::Unsigned(n))) => if n <= 9_223_372_036_854_775 {
            Some(n * 1000)
        } else {
            None
        },
        Some(JsonValue::Number(JsonNumber::Negative(n))) => if -9_223_372_036_854_775 <= n
            <= 9_223_372_036_854_775 {
            Some(n * 1000)
        } else {
            None
        },
        Some(JsonValue::Number(JsonNumber::Milli(m))) => Some(m as int),
        Some(JsonValue::Text(t)) => milli_value(t@),
        _ => None,
    }
}

/// The text of a value, when it is text.
pub open spec fn text_of(v: Option<JsonValue>) -> Option<Seq<u8>> {
    match v {
        Some(JsonValue::Text(t)) => Some(t@),
        _ => None,
    }
}

/// `t` without surrounding whitespace, unless nothing is left.
pub open spec fn non_empty(t: Seq<u8>) -> Option<Seq<u8>> {
    if trimmed(t).len() == 0 {
        None
    } else {
        Some(trimmed(t))
    }
}

/// A light mode as the state records it: `flashing` counts as `on`.
pub open spec fn light_mode(mode: Seq<u8>) -> Seq<u8> {
    if mode == lit("flashing") {
        lit("on")
    } else {
        mode
    }
}

/// The chamber light among the entries of a light list from index `from`:
/// the mode of the first entry whose node is `chamber_light` and whose mode
/// is text.
pub open spec fn light_in_list(entries: Seq<JsonValue>, from: int) -> Option<Seq<u8>>
    decreases entries.len() - from,
{
    if from < 0 || from >= entries.len() {
        None
    } else if text_of(entries[from].member(lit("node"))) == Some(lit("chamber_light")) && text_of(
        entries[from].member(lit("mode")),
    ).is_some() {
        Some(light_mode(text_of(entries[from].member(lit("mode"))).unwrap()))
    } else {
        light_in_list(entries, from + 1)
    }
}

/// The chamber light from the member `chamber_light` of a light object: a
/// number is `off` when it is zero and `on` otherwise, a boolean likewise,
/// and text is taken as the mode.
pub open spec fn light_in_object(v: Option<JsonValue>) -> Option<Seq<u8>> {
    match v {
        Some(JsonValue::Number(JsonNumber::Unsigned(n))) => Some(
            if n == 0 || n > i64::MAX as u64 {
                lit("off")
            } else {
                lit("on")
            },
        ),
        Some(JsonValue::Number(JsonNumber::Negative(n))) => Some(
            if n == 0 {
                lit("off")
            } else {
                lit("on")
            },
        ),
        Some(JsonValue::Number(JsonNumber::Milli(_))) => Some(lit("off")),
        Some(JsonValue::Bool(b)) => Some(
            if b {
                lit("on")
            } else {
                lit("off")
            },
        ),
        Some(JsonValue::Text(t)) => Some(light_mode(t@)),
        _ => None,
    }
}

/// The chamber light that `report` carries.
pub open spec fn light_of(report: JsonValue) -> Option<Seq<u8>> {
    match first_present(report, seq!["print", "lights_report"], seq!["lights_report"], seq![]) {
        Some(JsonValue::Array(entries)) => light_in_list(entries@, 0),
        Some(JsonValue::Object(m)) => light_in_object(
            JsonValue::Object(m).member(lit("chamber_light")),
        ),
        _ => None,
    }
}

/// The colour of a tray: its `tray_color` when that is text, else the first
/// entry of `cols` when that is text; in both cases trimmed and not empty.
pub open spec fn tray_color(tray: JsonValue) -> Option<Seq<u8>> {
    match text_of(tray.member(lit("tray_color"))) {
        Some(c) => non_empty(c),
        None => match tray.member(lit("cols")) {
            Some(JsonValue::Array(cols)) => if cols@.len() > 0 {
                match text_of(Some(cols@[0])) {
                    Some(c) => non_empty(c),
                    None => None,
                }
            } else {
                None
            },
            _ => None,
        },
    }
}

/// The number `n` as an identifier, when it fits a byte.
pub open spec fn small_id(n: int) -> Option<u8> {
    if 0 <= n <= 255 {
        Some(n as u8)
    } else {
        None
    }
}

/// An identifier read from `v`, or else the fallback `n`.
pub open spec fn id_or(v: Option<JsonValue>, n: int) -> Option<u8> {
    match unsigned_of(v, 255) {
        Some(i) => Some(i as u8),
        None => small_id(n),
    }
}

/// The tray that the entry `v` at position `index` of a tray list describes.
/// An entry that is no object, or that yields neither an identifier nor a
/// filament nor a colour, describes none.
pub open spec fn tray_of(v: JsonValue, index: int) -> Option<TrayModel> {
    if v is Object {
        let id = id_or(v.member(lit("id")), index);
        let filament_type = match text_of(v.member(lit("tray_type"))) {
            Some(t) => non_empty(t),
            None => None,
        };
        let color = tray_color(v);
        if id.is_none() && filament_type.is_none() && color.is_none() {
            None
        } else {
            Some(TrayModel { id, filament_type, color })
        }
    } else {
        None
    }
}

/// The trays that the first `n` entries of a tray list describe.
pub open spec fn trays_upto(entries: Seq<JsonValue>, n: int) -> Seq<TrayModel>
    decreases n,
{
    if n <= 0 {
        Seq::empty()
    } else {
        match tray_of(entries[n - 1], n - 1) {
            Some(t) => trays_upto(entries, n - 1).push(t),
            None => trays_upto(entries, n - 1),
        }
    }
}

/// The trays under the member `tray` of a unit.
pub open spec fn trays_of(v: Option<JsonValue>) -> Seq<TrayModel> {
    match v {
        Some(JsonValue::Array(entries)) => trays_upto(entries@, entries@.len() as int),
        _ => Seq::empty(),
    }
}

/// The unit that the entry `v` at position `index` of a unit list describes.
/// Units are numbered from one where they carry no identifier.
pub open spec fn unit_of(v: JsonValue, index: int) -> Option<UnitModel> {
    if v is Object {
        Some(
            UnitModel {
                id: id_or(v.member(lit("id")), index + 1),
                humidity_raw: match unsigned_of(v.member(lit("humidity_raw")), 255) {
                    Some(h) => Some(h as u8),
                    None => None,
                },
                trays: trays_of(v.member(lit("tray"))),
            },
        )
    } else {
        None
    }
}

/// The units that the first `n` entries of a unit list describe.
pub open spec fn units_upto(entries: Seq<JsonValue>, n: int) -> Seq<UnitModel>
    decreases n,
{
    if n <= 0 {
        Seq::empty()
    } else {
        match unit_of(entries[n - 1], n - 1) {
            Some(u) => units_upto(entries, n - 1).push(u),
            None => units_upto(entries, n - 1),
        }
    }
}

/// The material units that `report` carries, when it carries a unit list.
pub open spec fn ams_of(report: JsonValue) -> Option<Seq<UnitModel>> {
    match first_present(report, seq!["print", "ams", "ams"], seq!["ams", "ams"], seq![]) {
        Some(JsonValue::Array(entries)) => Some(units_upto(entries@, entries@.len() as int)),
        _ => None,
    }
}

/// `new` where there is one, else `old`.
pub open spec fn or_kept<T>(new: Option<T>, old: Option<T>) -> Option<T> {
    match new {
        Some(v) => Some(v),
        None => old,
    }
}

/// A 63-bit quantity read by [`milli_of`].
pub open spec fn milli_field(v: Option<JsonValue>) -> Option<i64> {
    match milli_of(v) {
        Some(m) => Some(m as i64),
        None => None,
    }
}

/// A byte read by [`unsigned_of`].
pub open spec fn u8_field(v: Option<JsonValue>) -> Option<u8> {
    match unsigned_of(v, 255) {
        Some(n) => Some(n as u8),
        None => None,
    }
}

/// A 32-bit number read by [`unsigned_of`].
pub open spec fn u32_field(v: Option<JsonValue>) -> Option<u32> {
    match unsigned_of(v, 0xFFFF_FFFF) {
        Some(n) => Some(n as u32),
        None => None,
    }
}

/// The camera address that `report` carries, when it is text and not empty.
pub open spec fn rtsp_url_of(report: JsonValue) -> Option<Seq<u8>> {
    match text_of(
        first_present(report, seq!["print", "ipcam", "rtsp_url"], seq!["ipcam", "rtsp_url"], seq![]),
    ) {
        Some(t) => if t.len() > 0 {
            Some(t)
        } else {
            None
        },
        None => None,
    }
}

/// The job state that `report` carries.
pub open spec fn job_state_of(report: JsonValue) -> Option<Seq<u8>> {
    text_of(first_present(report, seq!["print", "gcode_state"], seq![], seq![]))
}

/// The progress in percent that `report` carries.
pub open spec fn percent_of(report: JsonValue) -> Option<u8> {
    u8_field(first_present(report, seq!["print", "mc_percent"], seq!["print", "percent"], seq![]))
}

/// The current layer that `report` carries.
pub open spec fn layer_num_of(report: JsonValue) -> Option<u32> {
    u32_field(first_present(report, seq!["print", "layer_num"], seq![], seq![]))
}

/// The number of layers that `report` carries.
pub open spec fn total_layer_num_of(report: JsonValue) -> Option<u32> {
    u32_field(first_present(report, seq!["print", "total_layer_num"], seq![], seq![]))
}

/// The remaining minutes that `report` carries.
pub open spec fn remaining_minutes_of(report: JsonValue) -> Option<u32> {
    u32_field(first_present(report, seq!["print", "mc_remaining_time"], seq!["print", "remain_time"], seq![]))
}

/// The nozzle temperature that `report` carries.
pub open spec fn nozzle_c_of(report: JsonValue) -> Option<i64> {
    milli_field(first_present(report, seq!["print", "nozzle_temper"], seq!["temp", "nozzle_temper"], seq!["print", "device", "extruder", "info", "0", "temp"]))
}

/// The nozzle target that `report` carries.
pub open spec fn nozzle_target_c_of(report: JsonValue) -> Option<i64> {
    milli_field(first_present(report, seq!["print", "nozzle_target_temper"], seq!["temp", "nozzle_target_temper"], seq!["print", "device", "extruder", "info", "0", "htar"]))
}

/// The bed temperature that `report` carries.
pub open spec fn bed_c_of(report: JsonValue) -> Option<i64> {
    milli_field(first_present(report, seq!["print", "bed_temper"], seq!["temp", "bed_temper"], seq!["print", "device", "bed", "info", "temp"]))
}

/// The bed target that `report` carries.
pub open spec fn bed_target_c_of(report: JsonValue) -> Option<i64> {
    milli_field(first_present(report, seq!["print", "bed_target_temper"], seq!["temp", "bed_target_temper"], seq![]))
}

/// The chamber temperature that `report` carries.
pub open spec fn chamber_c_of(report: JsonValue) -> Option<i64> {
    milli_field(first_present(report, seq!["print", "chamber_temper"], seq!["temp", "chamber_temper"], seq!["print", "device", "ctc", "info", "temp"]))
}

/// The state after `report` has been applied to `s` at time `now`.
pub open spec fn applied(s: StateModel, report: JsonValue, now: i64) -> StateModel {
    StateModel {
        connected: s.connected,
        job_state: or_kept(job_state_of(report), s.job_state),
        percent: or_kept(percent_of(report), s.percent),
        layer_num: or_kept(layer_num_of(report), s.layer_num),
        total_layer_num: or_kept(total_layer_num_of(report), s.total_layer_num),
        remaining_minutes: or_kept(remaining_minutes_of(report), s.remaining_minutes),
        nozzle_c: or_kept(nozzle_c_of(report), s.nozzle_c),
        nozzle_target_c: or_kept(nozzle_target_c_of(report), s.nozzle_target_c),
        bed_c: or_kept(bed_c_of(report), s.bed_c),
        bed_target_c: or_kept(bed_target_c_of(report), s.bed_target_c),
        chamber_c: or_kept(chamber_c_of(report), s.chamber_c),
        light: or_kept(light_of(report), s.light),
        rtsp_url: or_kept(rtsp_url_of(report), s.rtsp_url),
        ams: match ams_of(report) {
            Some(units) => units,
            None => s.ams,
        },
        last_update: Some(now),
    }
}

/// The state after `report` has been applied to `s` once for each of
/// `times`, in order.
pub open spec fn applied_at_each(s: StateModel, report: JsonValue, times: Seq<i64>) -> StateModel
    decreases times.len(),
{
    if times.len() == 0 {
        s
    } else {
        applied(applied_at_each(s, report, times.drop_last()), report, times.last())
    }
}

/// Applying one report any number of times gives the state that applying it
/// once, at the last of those times, gives: every field that the report
/// carries is overwritten with the same value each time, and every other
/// field is kept.
pub proof fn lemma_apply_repeated(s: StateModel, report: JsonValue, times: Seq<i64>)
    requires
        times.len() > 0,
    ensures
        applied_at_each(s, report, times) == applied(s, report, times.last()),
    decreases times.len(),
{
    if times.len() > 1 {
        lemma_apply_repeated(s, report, times.drop_last());
        lemma_apply_twice(s, report, times.drop_last().last(), times.last());
    } else {
        assert(applied_at_each(s, report, times.drop_last()) == s);
    }
}

/// Applying a report a second time gives what applying it once, at the
/// second time, gives.
pub proof fn lemma_apply_twice(s: StateModel, report: JsonValue, first: i64, second: i64)
    ensures
        applied(applied(s, report, first), report, second) == applied(s, report, second),
{
}

/// Finds the value under the first of up to three paths that leads anywhere.
/// An empty path stands for "no further path".
pub fn first_of<'a>(report: &'a JsonValue, a: &[&str], b: &[&str], c: &[&str]) -> (r: Option<
    &'a JsonValue,
>)
    ensures
        match r {
            Some(v) => first_present(*report, a@, b@, c@) == Some(*v),
            None => first_present(*report, a@, b@, c@).is_none(),
        },
{
    match report.pointer(a) {
        Some(v) => {
            return Some(v);
        },
        None => {},
    }
    if b.len() > 0 {
        match report.pointer(b) {
            Some(v) => {
                return Some(v);
            },
            None => {},
        }
    }
    if c.len() > 0 {
        report.pointer(c)
    } else {
        None
    }
}

/// Reads text.
pub fn read_str<'a>(value: Option<&'a JsonValue>) -> (r: Option<&'a Vec<u8>>)
    ensures
        match r {
            Some(t) => text_of(deref_opt(value)) == Some(t@),
            None => text_of(deref_opt(value)).is_none(),
        },
{
    match value {
        Some(JsonValue::Text(t)) => Some(t),
        _ => None,
    }
}

/// The value behind an optional reference.
pub open spec fn deref_opt(value: Option<&JsonValue>) -> Option<JsonValue> {
    match value {
        Some(v) => Some(*v),
        None => None,
    }
}

/// Reads an unsigned number no greater than `max`.
fn read_unsigned(value: Option<&JsonValue>, max: u64) -> (r: Option<u64>)
    ensures
        match r {
            Some(n) => unsigned_of(deref_opt(value), max as nat) == Some(n as nat),
            None => unsigned_of(deref_opt(value), max as nat).is_none(),
        },
{
    match value {
        Some(JsonValue::Number(JsonNumber::Unsigned(n))) => if *n <= max {
            Some(*n)
        } else {
            None
        },
        Some(JsonValue::Text(t)) => parse_bounded(t.as_slice(), max),
        _ => None,
    }
}

/// Reads a byte from a JSON unsigned integer or from text that spells one.
pub fn read_u8(value: Option<&JsonValue>) -> (r: Option<u8>)
    ensures
        r == u8_field(deref_opt(value)),
{
    match read_unsigned(value, 255) {
        Some(n) => Some(n as u8),
        None => None,
    }
}

/// Reads a 32-bit number from a JSON unsigned integer or from text that
/// spells one.
pub fn read_u32(value: Option<&JsonValue>) -> (r: Option<u32>)
    ensures
        r == u32_field(deref_opt(value)),
{
    match read_unsigned(value, 0xFFFF_FFFF) {
        Some(n) => Some(n as u32),
        None => None,
    }
}

/// Reads a quantity in thousandths from a JSON number or from text that
/// spells a plain decimal.
pub fn read_milli(value: Option<&JsonValue>) -> (r: Option<i64>)
    ensures
        r == milli_field(deref_opt(value)),
{
    match value {
        Some(JsonValue::Number(JsonNumber::Unsigned(n))) => if *n <= 9_223_372_036_854_775 {
            Some((*n * 1000) as i64)
        } else {
            None
        },
        Some(JsonValue::Number(JsonNumber::Negative(n))) => if -9_223_372_036_854_775 <= *n && *n
            <= 9_223_372_036_854_775 {
            Some(*n * 1000)
        } else {
            None
        },
        Some(JsonValue::Number(JsonNumber::Milli(m))) => Some(*m),
        Some(JsonValue::Text(t)) => parse_milli(t.as_slice()),
        _ => None,
    }
}

/// Trims `value`; `None` when nothing is left.
pub fn non_empty_text(value: &[u8]) -> (r: Option<Vec<u8>>)
    ensures
        opt_bytes(r) == non_empty(value@),
{
    let t = trim(value);
    if t.len() == 0 {
        None
    } else {
        Some(t)
    }
}

/// Maps the light mode `flashing` to `on` and leaves any other mode as it is.
pub fn normalize_light_mode(mode: &[u8]) -> (r: Vec<u8>)
    ensures
        r@ == light_mode(mode@),
{
    if bytes_eq(mode, "flashing".as_bytes()) {
        vstd::slice::slice_to_vec("on".as_bytes())
    } else {
        vstd::slice::slice_to_vec(mode)
    }
}

/// Reads the colour of a tray.
pub fn extract_tray_color(tray: &JsonValue) -> (r: Option<Vec<u8>>)
    ensures
        opt_bytes(r) == tray_color(*tray),
{
    match read_str(tray.get("tray_color".as_bytes())) {
        Some(c) => {
            return non_empty_text(c.as_slice());
        },
        None => {},
    }
    match tray.get("cols".as_bytes()) {
        Some(JsonValue::Array(cols)) => {
            if cols.len() > 0 {
                match read_str(Some(&cols[0])) {
                    Some(c) => non_empty_text(c.as_slice()),
                    None => None,
                }
            } else {
                None
            }
        },
        _ => None,
    }
}

/// An identifier from `value`, or else `fallback` when it fits a byte.
fn read_id(value: Option<&JsonValue>, fallback: usize) -> (r: Option<u8>)
    ensures
        r == id_or(deref_opt(value), fallback as int),
{
    match read_u8(value) {
        Some(i) => Some(i),
        None => if fallback <= 255 {
            Some(fallback as u8)
        } else {
            None
        },
    }
}

/// Reads one entry of a tray list.
fn extract_tray(v: &JsonValue, index: usize) -> (r: Option<AmsTrayState>)
    ensures
        match r {
            Some(t) => tray_of(*v, index as int) == Some(t@),
            None => tray_of(*v, index as int).is_none(),
        },
{
    match v {
        JsonValue::Object(_) => {
            let id = read_id(v.get("id".as_bytes()), index);
            let filament_type = match read_str(v.get("tray_type".as_bytes())) {
                Some(t) => non_empty_text(t.as_slice()),
                None => None,
            };
            let color = extract_tray_color(v);
            if id.is_none() && filament_type.is_none() && color.is_none() {
                None
            } else {
                Some(AmsTrayState { id, filament_type, color })
            }
        },
        _ => None,
    }
}

/// Reads the trays of a unit from its `tray` member.
pub fn extract_ams_trays(value: Option<&JsonValue>) -> (r: Vec<AmsTrayState>)
    ensures
        tray_models(r@) == trays_of(deref_opt(value)),
{
    let mut out: Vec<AmsTrayState> = Vec::new();
    match value {
        Some(JsonValue::Array(entries)) => {
            let mut i: usize = 0;
            assert(tray_models(out@) =~= trays_upto(entries@, 0));
            while i < entries.len()
                invariant
                    i <= entries@.len(),
                    tray_models(out@) == trays_upto(entries@, i as int),
                decreases entries@.len() - i,
            {
                match extract_tray(&entries[i], i) {
                    Some(t) => {
                        let ghost before = out@;
                        out.push(t);
                        assert(tray_models(out@) =~= tray_models(before).push(t@));
                    },
                    None => {},
                }
                i += 1;
            }
            out
        },
        _ => {
            assert(tray_models(out@) =~= Seq::<TrayModel>::empty());
            out
        },
    }
}

/// Reads one entry of a unit list.
fn extract_unit(v: &JsonValue, index: usize) -> (r: Option<AmsUnitState>)
    requires
        index < usize::MAX,
    ensures
        match r {
            Some(u) => unit_of(*v, index as int) == Some(u@),
            None => unit_of(*v, index as int).is_none(),
        },
{
    match v {
        JsonValue::Object(_) => {
            let id = read_id(v.get("id".as_bytes()), index + 1);
            let humidity_raw = read_u8(v.get("humidity_raw".as_bytes()));
            let trays = extract_ams_trays(v.get("tray".as_bytes()));
            Some(AmsUnitState { id, humidity_raw, trays })
        },
        _ => None,
    }
}

/// Reads the material units of a report.
pub fn extract_ams(report: &JsonValue) -> (r: Option<Vec<AmsUnitState>>)
    ensures
        match r {
            Some(units) => ams_of(*report) == Some(unit_models(units@)),
            None => ams_of(*report).is_none(),
        },
{
    let found = first_of(
        report,
        ["print", "ams", "ams"].as_slice(),
        ["ams", "ams"].as_slice(),
        [].as_slice(),
    );
    assert(["print", "ams", "ams"]@ =~= seq!["print", "ams", "ams"]);
    assert(["ams", "ams"]@ =~= seq!["ams", "ams"]);
    match found {
        Some(JsonValue::Array(entries)) => {
            let mut out: Vec<AmsUnitState> = Vec::new();
            let mut i: usize = 0;
            assert(unit_models(out@) =~= units_upto(entries@, 0));
            while i < entries.len()
                invariant
                    i <= entries@.len(),
                    unit_models(out@) == units_upto(entries@, i as int),
                decreases entries@.len() - i,
            {
                match extract_unit(&entries[i], i) {
                    Some(u) => {
                        let ghost before = out@;
                        out.push(u);
                        assert(unit_models(out@) =~= unit_models(before).push(u@));
                    },
                    None => {},
                }
                i += 1;
            }
            Some(out)
        },
        _ => None,
    }
}

/// Reads the chamber light of a report.
pub fn extract_light(report: &JsonValue) -> (r: Option<Vec<u8>>)
    ensures
        opt_bytes(r) == light_of(*report),
{
    let found = first_of(
        report,
        ["print", "lights_report"].as_slice(),
        ["lights_report"].as_slice(),
        [].as_slice(),
    );
    assert(["print", "lights_report"]@ =~= seq!["print", "lights_report"]);
    assert(["lights_report"]@ =~= seq!["lights_report"]);
    match found {
        Some(JsonValue::Array(entries)) => {
            let mut i: usize = 0;
            assert(light_of(*report) == light_in_list(entries@, 0));
            while i < entries.len()
                invariant
                    i <= entries@.len(),
                    light_of(*report) == light_in_list(entries@, 0),
                    light_in_list(entries@, 0) == light_in_list(entries@, i as int),
                decreases entries@.len() - i,
            {
                let node = read_str(entries[i].get("node".as_bytes()));
                let is_chamber: bool = match node {
                    Some(n) => bytes_eq(n.as_slice(), "chamber_light".as_bytes()),
                    None => false,
                };
                if is_chamber {
                    match read_str(entries[i].get("mode".as_bytes())) {
                        Some(mode) => {
                            return Some(normalize_light_mode(mode.as_slice()));
                        },
                        None => {},
                    }
                }
                i += 1;
            }
            assert(light_in_list(entries@, i as int).is_none());
            None
        },
        Some(JsonValue::Object(_)) => {
            let v: &JsonValue = found.unwrap();
            match v.get("chamber_light".as_bytes()) {
                Some(JsonValue::Number(JsonNumber::Unsigned(n))) => {
                    let on: bool = !(*n == 0 || *n > 9_223_372_036_854_775_807);
                    Some(vstd::slice::slice_to_vec((if on { "on" } else { "off" }).as_bytes()))
                },
                Some(JsonValue::Number(JsonNumber::Negative(n))) => {
                    Some(vstd::slice::slice_to_vec((if *n == 0 { "off" } else { "on" }).as_bytes()))
                },
                Some(JsonValue::Number(JsonNumber::Milli(_))) => Some(
                    vstd::slice::slice_to_vec("off".as_bytes()),
                ),
                Some(JsonValue::Bool(b)) => {
                    Some(vstd::slice::slice_to_vec((if *b { "on" } else { "off" }).as_bytes()))
                },
                Some(JsonValue::Text(t)) => Some(normalize_light_mode(t.as_slice())),
                _ => None,
            }
        },
        _ => None,
    }
}

/// A copy of optional text.
fn cloned_text(t: Option<&Vec<u8>>) -> (r: Option<Vec<u8>>)
    ensures
        match t {
            Some(v) => opt_bytes(r) == Some(v@),
            None => r.is_none(),
        },
{
    match t {
        Some(v) => Some(vstd::slice::slice_to_vec(v.as_slice())),
        None => None,
    }
}

/// Reads the camera address of a report.
fn extract_rtsp_url(report: &JsonValue) -> (r: Option<Vec<u8>>)
    ensures
        opt_bytes(r) == rtsp_url_of(*report),
{
    assert(["print", "ipcam", "rtsp_url"]@ =~= seq!["print", "ipcam", "rtsp_url"]);
    assert(["ipcam", "rtsp_url"]@ =~= seq!["ipcam", "rtsp_url"]);
    let found = read_str(
        first_of(
            report,
            ["print", "ipcam", "rtsp_url"].as_slice(),
            ["ipcam", "rtsp_url"].as_slice(),
            [].as_slice(),
        ),
    );
    match found {
        Some(t) => if t.len() > 0 {
            cloned_text(Some(t))
        } else {
            None
        },
        None => None,
    }
}

/// Reads what [`job_state_of`] describes.
fn extract_job_state(report: &JsonValue) -> (r: Option<Vec<u8>>)
    ensures
        opt_bytes(r) == job_state_of(*report),
{
    let none: [&str; 0] = [];
    assert(["print", "gcode_state"]@ =~= seq!["print", "gcode_state"]);
    cloned_text(read_str(first_of(report, ["print", "gcode_state"].as_slice(), none.as_slice(), none.as_slice())))
}

/// Reads what [`percent_of`] describes.
fn extract_percent(report: &JsonValue) -> (r: Option<u8>)
    ensures
        r == percent_of(*report),
{
    let none: [&str; 0] = [];
    assert(["print", "mc_percent"]@ =~= seq!["print", "mc_percent"]);
    assert(["print", "percent"]@ =~= seq!["print", "percent"]);
    read_u8(first_of(report, ["print", "mc_percent"].as_slice(), ["print", "percent"].as_slice(), none.as_slice()))
}

/// Reads what [`layer_num_of`] describes.
fn extract_layer_num(report: &JsonValue) -> (r: Option<u32>)
    ensures
        r == layer_num_of(*report),
{
    let none: [&str; 0] = [];
    assert(["print", "layer_num"]@ =~= seq!["print", "layer_num"]);
    read_u32(first_of(report, ["print", "layer_num"].as_slice(), none.as_slice(), none.as_slice()))
}

/// Reads what [`total_layer_num_of`] describes.
fn extract_total_layer_num(report: &JsonValue) -> (r: Option<u32>)
    ensures
        r == total_layer_num_of(*report),
{
    let none: [&str; 0] = [];
    assert(["print", "total_layer_num"]@ =~= seq!["print", "total_layer_num"]);
    read_u32(first_of(report, ["print", "total_layer_num"].as_slice(), none.as_slice(), none.as_slice()))
}

/// Reads what [`remaining_minutes_of`] describes.
fn extract_remaining_minutes(report: &JsonValue) -> (r: Option<u32>)
    ensures
        r == remaining_minutes_of(*report),
{
    let none: [&str; 0] = [];
    assert(["print", "mc_remaining_time"]@ =~= seq!["print", "mc_remaining_time"]);
    assert(["print", "remain_time"]@ =~= seq!["print", "remain_time"]);
    read_u32(first_of(report, ["print", "mc_remaining_time"].as_slice(), ["print", "remain_time"].as_slice(), none.as_slice()))
}

/// Reads what [`nozzle_c_of`] describes.
fn extract_nozzle_c(report: &JsonValue) -> (r: Option<i64>)
    ensures
        r == nozzle_c_of(*report),
{
    let none: [&str; 0] = [];
    assert(["print", "nozzle_temper"]@ =~= seq!["print", "nozzle_temper"]);
    assert(["temp", "nozzle_temper"]@ =~= seq!["temp", "nozzle_temper"]);
    assert(["print", "device", "extruder", "info", "0", "temp"]@ =~= seq!["print", "device", "extruder", "info", "0", "temp"]);
    read_milli(first_of(report, ["print", "nozzle_temper"].as_slice(), ["temp", "nozzle_temper"].as_slice(), ["print", "device", "extruder", "info", "0", "temp"].as_slice()))
}

/// Reads what [`nozzle_target_c_of`] describes.
fn extract_nozzle_target_c(report: &JsonValue) -> (r: Option<i64>)
    ensures
        r == nozzle_target_c_of(*report),
{
    let none: [&str; 0] = [];
    assert(["print", "nozzle_target_temper"]@ =~= seq!["print", "nozzle_target_temper"]);
    assert(["temp", "nozzle_target_temper"]@ =~= seq!["temp", "nozzle_target_temper"]);
    assert(["print", "device", "extruder", "info", "0", "htar"]@ =~= seq!["print", "device", "extruder", "info", "0", "htar"]);
    read_milli(first_of(report, ["print", "nozzle_target_temper"].as_slice(), ["temp", "nozzle_target_temper"].as_slice(), ["print", "device", "extruder", "info", "0", "htar"].as_slice()))
}

/// Reads what [`bed_c_of`] describes.
fn extract_bed_c(report: &JsonValue) -> (r: Option<i64>)
    ensures
        r == bed_c_of(*report),
{
    let none: [&str; 0] = [];
    assert(["print", "bed_temper"]@ =~= seq!["print", "bed_temper"]);
    assert(["temp", "bed_temper"]@ =~= seq!["temp", "bed_temper"]);
    assert(["print", "device", "bed", "info", "temp"]@ =~= seq!["print", "device", "bed", "info", "temp"]);
    read_milli(first_of(report, ["print", "bed_temper"].as_slice(), ["temp", "bed_temper"].as_slice(), ["print", "device", "bed", "info", "temp"].as_slice()))
}

/// Reads what [`bed_target_c_of`] describes.
fn extract_bed_target_c(report: &JsonValue) -> (r: Option<i64>)
    ensures
        r == bed_target_c_of(*report),
{
    let none: [&str; 0] = [];
    assert(["print", "bed_target_temper"]@ =~= seq!["print", "bed_target_temper"]);
    assert(["temp", "bed_target_temper"]@ =~= seq!["temp", "bed_target_temper"]);
    read_milli(first_of(report, ["print", "bed_target_temper"].as_slice(), ["temp", "bed_target_temper"].as_slice(), none.as_slice()))
}

/// Reads what [`chamber_c_of`] describes.
fn extract_chamber_c(report: &JsonValue) -> (r: Option<i64>)
    ensures
        r == chamber_c_of(*report),
{
    let none: [&str; 0] = [];
    assert(["print", "chamber_temper"]@ =~= seq!["print", "chamber_temper"]);
    assert(["temp", "chamber_temper"]@ =~= seq!["temp", "chamber_temper"]);
    assert(["print", "device", "ctc", "info", "temp"]@ =~= seq!["print", "device", "ctc", "info", "temp"]);
    read_milli(first_of(report, ["print", "chamber_temper"].as_slice(), ["temp", "chamber_temper"].as_slice(), ["print", "device", "ctc", "info", "temp"].as_slice()))
}

impl PrinterState {
    /// A state in which nothing is known and the printer is not connected.
    pub fn new() -> (r: Self)
        ensures
            r@ == unknown(),
    {
        let r = PrinterState {
            connected: false,
            job_state: None,
            percent: None,
            layer_num: None,
            total_layer_num: None,
            remaining_minutes: None,
            nozzle_c: None,
            nozzle_target_c: None,
            bed_c: None,
            bed_target_c: None,
            chamber_c: None,
            light: None,
            rtsp_url: None,
            ams: Vec::new(),
            last_update: None,
        };
        assert(r@.ams =~= Seq::<UnitModel>::empty());
        r
    }

    /// Merges the fields that `report` carries into the state and stamps it
    /// with `now`. A field that the report lacks keeps its value.
    pub fn apply_report(&mut self, report: &JsonValue, now: i64)
        ensures
            final(self)@ == applied(old(self)@, *report, now),
    {
        let job_state = extract_job_state(report);
        if job_state.is_some() {
            self.job_state = job_state;
        }
        let percent = extract_percent(report);
        if percent.is_some() {
            self.percent = percent;
        }
        let layer_num = extract_layer_num(report);
        if layer_num.is_some() {
            self.layer_num = layer_num;
        }
        let total_layer_num = extract_total_layer_num(report);
        if total_layer_num.is_some() {
            self.total_layer_num = total_layer_num;
        }
        let remaining_minutes = extract_remaining_minutes(report);
        if remaining_minutes.is_some() {
            self.remaining_minutes = remaining_minutes;
        }
        let nozzle_c = extract_nozzle_c(report);
        if nozzle_c.is_some() {
            self.nozzle_c = nozzle_c;
        }
        let nozzle_target_c = extract_nozzle_target_c(report);
        if nozzle_target_c.is_some() {
            self.nozzle_target_c = nozzle_target_c;
        }
        let bed_c = extract_bed_c(report);
        if bed_c.is_some() {
            self.bed_c = bed_c;
        }
        let bed_target_c = extract_bed_target_c(report);
        if bed_target_c.is_some() {
            self.bed_target_c = bed_target_c;
        }
        let chamber_c = extract_chamber_c(report);
        if chamber_c.is_some() {
            self.chamber_c = chamber_c;
        }
        let light = extract_light(report);
        if light.is_some() {
            self.light = light;
        }
        let rtsp_url = extract_rtsp_url(report);
        if rtsp_url.is_some() {
            self.rtsp_url = rtsp_url;
        }
        match extract_ams(report) {
            Some(units) => {
                self.ams = units;
            },
            None => {},
        }
        self.last_update = Some(now);
        assert(self@.ams =~= applied(old(self)@, *report, now).ams);
    }
}

} // verus!

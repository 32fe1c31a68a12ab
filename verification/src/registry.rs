//! The registry of printers: what a printer entry holds, and the checks
//! that a new or changed entry must pass before it is stored.

use vstd::prelude::*;
use vstd::slice::slice_to_vec;
use crate::octets::append;
use crate::text::{
    bytes_eq, has_prefix, is_blank, lit, split_first, split_once, starts_with, strip_prefix, trim,
    trimmed, without_prefix,
};

verus! {

/// One printer as it is stored.
#[derive(Clone, Debug)]
pub struct PrinterConfig {
    pub id: i64,
    pub name: Vec<u8>,
    pub host: Vec<u8>,
    pub serial: Vec<u8>,
    pub access_code: Vec<u8>,
    pub rtsp_url: Option<Vec<u8>>,
}

/// A request to add a printer.
#[derive(Debug)]
pub struct PrinterCreateRequest {
    pub name: Vec<u8>,
    pub host: Vec<u8>,
    pub serial: Vec<u8>,
    pub access_code: Vec<u8>,
    pub rtsp_url: Option<Vec<u8>>,
}

/// A request to change a printer: each field that is given replaces the
/// stored one.
#[derive(Debug)]
pub struct PrinterUpdateRequest {
    pub name: Option<Vec<u8>>,
    pub host: Option<Vec<u8>>,
    pub serial: Option<Vec<u8>>,
    pub access_code: Option<Vec<u8>>,
    pub rtsp_url: Option<Vec<u8>>,
}

/// The field that an entry lacks.
#[derive(Debug, Clone, Copy, PartialEq, Eq)]
pub enum FieldError {
    NameRequired,
    HostRequired,
    SerialRequired,
    AccessCodeRequired,
}

/// The message of each error.
pub open spec fn field_error_text(e: FieldError) -> Seq<u8> {
    match e {
        FieldError::NameRequired => lit("printer name is required"),
        FieldError::HostRequired => lit("printer host is required"),
        FieldError::SerialRequired => lit("printer serial is required"),
        FieldError::AccessCodeRequired => lit("printer access code is required"),
    }
}

impl FieldError {
    /// The message of the error.
    pub fn message(&self) -> (r: Vec<u8>)
        ensures
            r@ == field_error_text(*self),
    {
        match self {
            FieldError::NameRequired => slice_to_vec("printer name is required".as_bytes()),
            FieldError::HostRequired => slice_to_vec("printer host is required".as_bytes()),
            FieldError::SerialRequired => slice_to_vec("printer serial is required".as_bytes()),
            FieldError::AccessCodeRequired => slice_to_vec(
                "printer access code is required".as_bytes(),
            ),
        }
    }
}

/// The first required field that is blank, in the order name, host, serial,
/// access code.
pub open spec fn missing_field(
    name: Seq<u8>,
    host: Seq<u8>,
    serial: Seq<u8>,
    access_code: Seq<u8>,
) -> Option<FieldError> {
    if is_blank(name) {
        Some(FieldError::NameRequired)
    } else if is_blank(host) {
        Some(FieldError::HostRequired)
    } else if is_blank(serial) {
        Some(FieldError::SerialRequired)
    } else if is_blank(access_code) {
        Some(FieldError::AccessCodeRequired)
    } else {
        None
    }
}

/// Tests whether `s` holds nothing but whitespace.
fn blank(s: &[u8]) -> (r: bool)
    ensures
        r == is_blank(s@),
{
    trim(s).len() == 0
}

/// Checks that no required field of a printer is blank.
pub fn validate_printer_fields(name: &[u8], host: &[u8], serial: &[u8], access_code: &[u8]) -> (r:
    Result<(), FieldError>)
    ensures
        match r {
            Ok(_) => missing_field(name@, host@, serial@, access_code@).is_none(),
            Err(e) => missing_field(name@, host@, serial@, access_code@) == Some(e),
        },
{
    if blank(name) {
        return Err(FieldError::NameRequired);
    }
    if blank(host) {
        return Err(FieldError::HostRequired);
    }
    if blank(serial) {
        return Err(FieldError::SerialRequired);
    }
    if blank(access_code) {
        return Err(FieldError::AccessCodeRequired);
    }
    Ok(())
}

/// An optional text, trimmed; none where nothing is left.
pub open spec fn normalized(value: Option<Seq<u8>>) -> Option<Seq<u8>> {
    match value {
        Some(v) => if trimmed(v).len() == 0 {
            None
        } else {
            Some(trimmed(v))
        },
        None => None,
    }
}

/// The contents of an optional byte string.
pub open spec fn opt_view(o: Option<Vec<u8>>) -> Option<Seq<u8>> {
    match o {
        Some(v) => Some(v@),
        None => None,
    }
}

/// Trims an optional text and drops it where nothing is left.
pub fn normalize_optional(value: Option<Vec<u8>>) -> (r: Option<Vec<u8>>)
    ensures
        opt_view(r) == normalized(opt_view(value)),
{
    match value {
        Some(v) => {
            let t = trim(v.as_slice());
            if t.len() == 0 {
                None
            } else {
                Some(t)
            }
        },
        None => None,
    }
}

/// What a printer entry holds.
pub struct PrinterModel {
    pub id: i64,
    pub name: Seq<u8>,
    pub host: Seq<u8>,
    pub serial: Seq<u8>,
    pub access_code: Seq<u8>,
    pub rtsp_url: Option<Seq<u8>>,
}

impl View for PrinterConfig {
    type V = PrinterModel;

    open spec fn view(&self) -> PrinterModel {
        PrinterModel {
            id: self.id,
            name: self.name@,
            host: self.host@,
            serial: self.serial@,
            access_code: self.access_code@,
            rtsp_url: opt_view(self.rtsp_url),
        }
    }
}

/// `new` where there is one, else `old`.
pub open spec fn replaced(new: Option<Vec<u8>>, old: Seq<u8>) -> Seq<u8> {
    match new {
        Some(v) => v@,
        None => old,
    }
}

/// The entry that a request to add a printer asks for, with the given
/// identifier: every text trimmed.
pub open spec fn created(id: i64, payload: PrinterCreateRequest) -> PrinterModel {
    PrinterModel {
        id,
        name: trimmed(payload.name@),
        host: trimmed(payload.host@),
        serial: trimmed(payload.serial@),
        access_code: trimmed(payload.access_code@),
        rtsp_url: normalized(opt_view(payload.rtsp_url)),
    }
}

/// The entry that a request to change `existing` asks for: each text that
/// is given replaces the stored one, trimmed.
pub open spec fn updated(existing: PrinterModel, payload: PrinterUpdateRequest) -> PrinterModel {
    PrinterModel {
        id: existing.id,
        name: trimmed(replaced(payload.name, existing.name)),
        host: trimmed(replaced(payload.host, existing.host)),
        serial: trimmed(replaced(payload.serial, existing.serial)),
        access_code: trimmed(replaced(payload.access_code, existing.access_code)),
        rtsp_url: match payload.rtsp_url {
            Some(v) => normalized(Some(v@)),
            None => existing.rtsp_url,
        },
    }
}

/// The first required field of an entry that is blank.
pub open spec fn missing_in(p: PrinterModel) -> Option<FieldError> {
    missing_field(p.name, p.host, p.serial, p.access_code)
}

/// Reads a request to add a printer: the entry to store under `id`, or the
/// field that it lacks.
pub fn prepare_create(id: i64, payload: PrinterCreateRequest) -> (r: Result<
    PrinterConfig,
    FieldError,
>)
    ensures
        match r {
            Ok(p) => p@ == created(id, payload) && missing_in(created(id, payload)).is_none(),
            Err(e) => missing_in(created(id, payload)) == Some(e),
        },
{
    let name = trim(payload.name.as_slice());
    let host = trim(payload.host.as_slice());
    let serial = trim(payload.serial.as_slice());
    let access_code = trim(payload.access_code.as_slice());
    let rtsp_url = normalize_optional(payload.rtsp_url);
    match validate_printer_fields(
        name.as_slice(),
        host.as_slice(),
        serial.as_slice(),
        access_code.as_slice(),
    ) {
        Ok(_) => Ok(PrinterConfig { id, name, host, serial, access_code, rtsp_url }),
        Err(e) => Err(e),
    }
}

/// A field of a change request, or the stored one, trimmed.
fn replace_trimmed(new: Option<Vec<u8>>, old: Vec<u8>) -> (r: Vec<u8>)
    ensures
        r@ == trimmed(replaced(new, old@)),
{
    match new {
        Some(v) => trim(v.as_slice()),
        None => trim(old.as_slice()),
    }
}

/// Reads a request to change a printer: the entry to store, or the field
/// that it would lack.
pub fn prepare_update(existing: PrinterConfig, payload: PrinterUpdateRequest) -> (r: Result<
    PrinterConfig,
    FieldError,
>)
    ensures
        match r {
            Ok(p) => p@ == updated(existing@, payload) && missing_in(
                updated(existing@, payload),
            ).is_none(),
            Err(e) => missing_in(updated(existing@, payload)) == Some(e),
        },
{
    let name = replace_trimmed(payload.name, existing.name);
    let host = replace_trimmed(payload.host, existing.host);
    let serial = replace_trimmed(payload.serial, existing.serial);
    let access_code = replace_trimmed(payload.access_code, existing.access_code);
    let rtsp_url = match payload.rtsp_url {
        Some(v) => normalize_optional(Some(v)),
        None => existing.rtsp_url,
    };
    match validate_printer_fields(
        name.as_slice(),
        host.as_slice(),
        serial.as_slice(),
        access_code.as_slice(),
    ) {
        Ok(_) => Ok(PrinterConfig { id: existing.id, name, host, serial, access_code, rtsp_url }),
        Err(e) => Err(e),
    }
}

/// A database address in the form that the driver reads: as it is where it
/// begins with `sqlite:`, else behind `sqlite://`.
pub open spec fn db_url(value: Seq<u8>) -> Seq<u8> {
    if has_prefix(value, lit("sqlite:")) {
        value
    } else {
        lit("sqlite://") + value
    }
}

/// Puts a database address into the form that the driver reads.
pub fn normalize_db_url(value: &[u8]) -> (r: Vec<u8>)
    ensures
        r@ == db_url(value@),
{
    if starts_with(value, "sqlite:".as_bytes()) {
        slice_to_vec(value)
    } else {
        let mut out: Vec<u8> = Vec::new();
        append(&mut out, "sqlite://".as_bytes());
        append(&mut out, value);
        out
    }
}

/// The part of `value` before the first question mark.
pub open spec fn before_query(value: Seq<u8>) -> Seq<u8> {
    split_first(value, seq![63u8]).0
}

/// Cuts a query string off.
pub fn strip_query(value: &[u8]) -> (r: Vec<u8>)
    ensures
        r@ == before_query(value@),
{
    let mark: [u8; 1] = [63u8];
    assert(mark@ =~= seq![63u8]);
    split_once(value, mark.as_slice()).0
}

/// The file that a database address names: what follows `sqlite://` or
/// `sqlite:`, without a query string.
pub open spec fn sqlite_path(url: Seq<u8>) -> Option<Seq<u8>> {
    match without_prefix(url, lit("sqlite://")) {
        Some(p) => Some(before_query(p)),
        None => match without_prefix(url, lit("sqlite:")) {
            Some(p) => Some(before_query(p)),
            None => None,
        },
    }
}

/// The file that a database address names.
pub fn sqlite_path_from_url(database_url: &[u8]) -> (r: Option<Vec<u8>>)
    ensures
        opt_view(r) == sqlite_path(database_url@),
{
    match strip_prefix(database_url, "sqlite://".as_bytes()) {
        Some(p) => Some(strip_query(p.as_slice())),
        None => match strip_prefix(database_url, "sqlite:".as_bytes()) {
            Some(p) => Some(strip_query(p.as_slice())),
            None => None,
        },
    }
}

/// Whether a setting switches something on: `1`, `true`, `TRUE`, `yes` or
/// `YES`.
pub open spec fn is_on(value: Seq<u8>) -> bool {
    value == lit("1") || value == lit("true") || value == lit("TRUE") || value == lit("yes")
        || value == lit("YES")
}

/// Reads a setting that switches something on or off.
pub fn parse_flag(value: &[u8]) -> (r: bool)
    ensures
        r == is_on(value@),
{
    bytes_eq(value, "1".as_bytes()) || bytes_eq(value, "true".as_bytes()) || bytes_eq(
        value,
        "TRUE".as_bytes(),
    ) || bytes_eq(value, "yes".as_bytes()) || bytes_eq(value, "YES".as_bytes())
}

/// The MQTT port used where none is configured: 8883 with TLS, 1883 without.
pub fn default_mqtt_port(tls: bool) -> (r: u16)
    ensures
        r == if tls {
            8883u16
        } else {
            1883u16
        },
{
    if tls {
        8883
    } else {
        1883
    }
}

} // verus!

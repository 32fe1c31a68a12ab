//! The decisions of the per-printer tasks: what the MQTT session does with
//! each event, and what the supervisor derives from its settings.

use vstd::prelude::*;
use crate::commands::{is_payload, payload_of, CommandRequest};
use crate::json::JsonValue;
use crate::octets::append;
use crate::state::{applied, unknown, PrinterState, StateModel};
use crate::text::lit;

verus! {

/// The part duration used where neither a part nor a segment duration is
/// configured: a quarter of a second, in ticks of the 90 kHz clock.
pub const DEFAULT_PART_TICKS: u64 = 22_500;

/// The topic on which a printer reports: `device/{serial}/report`.
pub open spec fn report_topic_text(serial: Seq<u8>) -> Seq<u8> {
    lit("device/") + serial + lit("/report")
}

/// The topic on which a printer takes commands: `device/{serial}/request`.
pub open spec fn request_topic_text(serial: Seq<u8>) -> Seq<u8> {
    lit("device/") + serial + lit("/request")
}

/// The client identifier of a connection: `{base}-{serial}-{suffix}`.
pub open spec fn client_id_text(base: Seq<u8>, serial: Seq<u8>, suffix: Seq<u8>) -> Seq<u8> {
    base + seq![45u8] + serial + seq![45u8] + suffix
}

/// Builds the topic on which a printer reports.
pub fn report_topic(serial: &[u8]) -> (r: Vec<u8>)
    ensures
        r@ == report_topic_text(serial@),
{
    let mut out: Vec<u8> = Vec::new();
    append(&mut out, "device/".as_bytes());
    append(&mut out, serial);
    append(&mut out, "/report".as_bytes());
    assert(out@ =~= report_topic_text(serial@));
    out
}

/// Builds the topic on which a printer takes commands.
pub fn request_topic(serial: &[u8]) -> (r: Vec<u8>)
    ensures
        r@ == request_topic_text(serial@),
{
    let mut out: Vec<u8> = Vec::new();
    append(&mut out, "device/".as_bytes());
    append(&mut out, serial);
    append(&mut out, "/request".as_bytes());
    assert(out@ =~= request_topic_text(serial@));
    out
}

/// Builds the client identifier of a connection from the configured base,
/// the serial number of the printer and a suffix that the caller draws anew
/// for every connection.
pub fn client_id(base: &[u8], serial: &[u8], suffix: &[u8]) -> (r: Vec<u8>)
    ensures
        r@ == client_id_text(base@, serial@, suffix@),
{
    let mut out: Vec<u8> = Vec::new();
    append(&mut out, base);
    out.push(45);
    append(&mut out, serial);
    out.push(45);
    append(&mut out, suffix);
    assert(out@ =~= client_id_text(base@, serial@, suffix@));
    out
}

/// The part duration that the supervisor sizes the backlog with: the part
/// duration configured, else the segment duration, else a quarter of a
/// second.
pub fn effective_part_duration(part: u64, target: u64) -> (r: u64)
    ensures
        r == if part > 0 {
            part
        } else if target > 0 {
            target
        } else {
            DEFAULT_PART_TICKS
        },
{
    if part > 0 {
        part
    } else if target > 0 {
        target
    } else {
        DEFAULT_PART_TICKS
    }
}

/// The camera address to connect to: the one configured for the printer,
/// else the one that the printer reported last.
pub fn choose_rtsp_url<'a>(configured: Option<&'a Vec<u8>>, reported: Option<&'a Vec<u8>>) -> (r:
    Option<&'a Vec<u8>>)
    ensures
        r == match configured {
            Some(c) => Some(c),
            None => reported,
        },
{
    match configured {
        Some(c) => Some(c),
        None => reported,
    }
}

/// Something that happens to the MQTT session.
pub enum MqttEvent {
    /// The broker accepted the connection.
    Connected,
    /// A report arrived.
    Report(JsonValue),
    /// A message arrived that is no JSON document.
    Unreadable,
    /// The connection failed.
    ConnectionLost,
    /// A command is to be sent.
    Command(CommandRequest),
    /// No more commands will come.
    CommandsClosed,
}

/// What the caller does after an event.
pub enum MqttAction {
    /// Make the state known to the subscribers of the status.
    Broadcast,
    /// Publish the payload on the topic with delivery at least once.
    Publish { topic: Vec<u8>, payload: JsonValue },
    /// Make the state known, wait two seconds and connect again.
    Reconnect,
    /// End the task.
    Stop,
    /// Nothing.
    Nothing,
}

/// The MQTT session of one printer.
pub struct MqttSession {
    pub state: PrinterState,
    /// The sequence number of the next command.
    pub sequence_id: u64,
    pub user_id: Vec<u8>,
    pub serial: Vec<u8>,
}

/// The number after `n`; it starts again at zero after the largest.
pub open spec fn next_sequence_id(n: u64) -> u64 {
    if n == 0xFFFF_FFFF_FFFF_FFFF {
        0
    } else {
        (n + 1) as u64
    }
}

/// The printer state after an event at time `now`.
///
/// The printer counts as connected once the broker has accepted the
/// connection or a report has arrived, and as disconnected, with no time of
/// a last report, once the connection has failed. A report is merged into
/// the state. Nothing else changes the state.
pub open spec fn state_after(s: StateModel, event: MqttEvent, now: i64) -> StateModel {
    match event {
        MqttEvent::Connected => StateModel { connected: true, ..s },
        MqttEvent::Report(report) => applied(StateModel { connected: true, ..s }, report, now),
        MqttEvent::ConnectionLost => StateModel { connected: false, last_update: None, ..s },
        _ => s,
    }
}

impl MqttSession {
    /// The session of the printer with the given serial number, not
    /// connected, that sends commands in the name of `user_id`. The first
    /// command gets the sequence number 1.
    pub fn new(user_id: Vec<u8>, serial: Vec<u8>) -> (r: Self)
        ensures
            r.sequence_id == 1,
            r.user_id == user_id,
            r.serial == serial,
            r.state@ == unknown(),
    {
        MqttSession { state: PrinterState::new(), sequence_id: 1, user_id, serial }
    }

    /// Takes in one event at time `now` and says what to do.
    ///
    /// A command is published on the request topic of the printer with the
    /// next sequence number; the number after it follows, and zero follows
    /// the largest.
    pub fn on_event(&mut self, event: MqttEvent, now: i64) -> (r: MqttAction)
        ensures
            final(self).state@ == state_after(old(self).state@, event, now),
            final(self).user_id == old(self).user_id,
            final(self).serial == old(self).serial,
            final(self).sequence_id == if event is Command {
                next_sequence_id(old(self).sequence_id)
            } else {
                old(self).sequence_id
            },
            match event {
                MqttEvent::Connected => r is Broadcast,
                MqttEvent::Report(_) => r is Broadcast,
                MqttEvent::Unreadable => r is Nothing,
                MqttEvent::ConnectionLost => r is Reconnect,
                MqttEvent::Command(command) => r matches MqttAction::Publish { topic, payload }
                    && topic@ == request_topic_text(old(self).serial@) && is_payload(
                    payload,
                    payload_of(command, old(self).user_id@, old(self).sequence_id),
                ),
                MqttEvent::CommandsClosed => r is Stop,
            },
    {
        match event {
            MqttEvent::Connected => {
                self.state.connected = true;
                MqttAction::Broadcast
            },
            MqttEvent::Report(report) => {
                self.state.connected = true;
                self.state.apply_report(&report, now);
                MqttAction::Broadcast
            },
            MqttEvent::Unreadable => MqttAction::Nothing,
            MqttEvent::ConnectionLost => {
                self.state.connected = false;
                self.state.last_update = None;
                MqttAction::Reconnect
            },
            MqttEvent::Command(command) => {
                let payload = command.to_payload(self.user_id.as_slice(), self.sequence_id);
                self.sequence_id = if self.sequence_id == 0xFFFF_FFFF_FFFF_FFFF {
                    0
                } else {
                    self.sequence_id + 1
                };
                MqttAction::Publish { topic: request_topic(self.serial.as_slice()), payload }
            },
            MqttEvent::CommandsClosed => MqttAction::Stop,
        }
    }
}

} // verus!

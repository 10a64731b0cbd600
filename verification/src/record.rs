//! The structured log record derived from one datagram, and its builder.

use vstd::prelude::*;
use crate::rowfmt;
use crate::text;

verus! {

/// The mathematical view of a record: the contents of its five fields.
pub struct LogRecordView {
    pub event_time: Seq<char>,
    pub device_ip: Seq<char>,
    pub message: Seq<char>,
    pub severity: u8,
    pub facility: u8,
}

impl LogRecordView {
    /// Severity is three bits, facility five.
    pub open spec fn wf(self) -> bool {
        self.severity <= 7 && self.facility <= 31
    }

    /// The record's field strings in store order: event time, device
    /// address, message, severity, facility.
    pub open spec fn fields(self) -> Seq<Seq<char>> {
        seq![
            self.event_time,
            self.device_ip,
            self.message,
            rowfmt::u8_decimal(self.severity),
            rowfmt::u8_decimal(self.facility),
        ]
    }
}

/// One entry of the store: timestamp, source address, normalized message,
/// and the two components of the PRI value.
pub struct LogRecord {
    pub event_time: String,
    pub device_ip: String,
    pub message: String,
    pub severity: u8,
    pub facility: u8,
}

impl View for LogRecord {
    type V = LogRecordView;

    open spec fn view(&self) -> LogRecordView {
        LogRecordView {
            event_time: self.event_time@,
            device_ip: self.device_ip@,
            message: self.message@,
            severity: self.severity,
            facility: self.facility,
        }
    }
}

/// Assembles the record for one datagram: the message is the raw text with
/// newlines removed and whitespace trimmed; facility and severity are taken
/// from the parsed PRI value.
pub fn build_record(
    event_time: String,
    device_ip: String,
    raw_text: &str,
    facility: u8,
    severity: u8,
) -> (r: LogRecord)
    requires
        facility <= 31,
        severity <= 7,
    ensures
        r@.event_time == event_time@,
        r@.device_ip == device_ip@,
        r@.message == text::normalized(raw_text@),
        r@.severity == severity,
        r@.facility == facility,
        r@.wf(),
{
    let chars = text::chars_of(raw_text);
    let msg = text::normalize_message(&chars);
    let message = text::string_of(&msg);
    LogRecord { event_time, device_ip, message, severity, facility }
}

} // verus!

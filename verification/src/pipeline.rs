//! The counters the pipeline reports, the receive loop's decisions, and
//! the defaults of the configuration surface.

use vstd::prelude::*;
use crate::queue::Datagram;

verus! {

/// Default port the collector listens on.
pub const DEFAULT_PORT: u16 = 514;

/// Default path of the output store.
pub const DEFAULT_OUTPUT_PATH: &'static str = "syslog.csv";

/// Default port the metrics exporter serves on.
pub const DEFAULT_METRICS_PORT: u16 = 9000;

/// Default capacity of the ingestion queue.
pub const DEFAULT_QUEUE_CAPACITY: usize = 1000;

/// Size of the datagram receive buffer, in bytes.
pub const RECV_BUFFER_BYTES: usize = 8192;

/// How long the receive loop pauses when no datagram is ready.
pub const POLL_BACKOFF_MILLIS: u64 = 10;

/// The monotonic counters the pipeline maintains: datagrams received, and
/// records successfully written.
pub struct Stats {
    pub received: u64,
    pub written: u64,
}

impl Stats {
    /// No record is written without having been received first.
    pub open spec fn wf(self) -> bool {
        self.written <= self.received
    }

    pub fn new() -> (s: Stats)
        ensures
            s.received == 0,
            s.written == 0,
            s.wf(),
    {
        Stats { received: 0, written: 0 }
    }

    /// Counts one received datagram.
    pub fn note_received(&mut self)
        requires
            old(self).received < u64::MAX,
        ensures
            final(self).received == old(self).received + 1,
            final(self).written == old(self).written,
    {
        self.received = self.received + 1;
    }

    /// Counts one record confirmed written to the store: called only after
    /// the store accepted the row of a received datagram.
    pub fn note_written(&mut self)
        requires
            old(self).written < old(self).received,
        ensures
            final(self).received == old(self).received,
            final(self).written == old(self).written + 1,
            final(self).wf(),
    {
        self.written = self.written + 1;
    }
}

/// What the socket reported to the receive loop.
pub enum SocketEvent {
    /// A datagram arrived from the given source address.
    Arrived { source: String, bytes: Vec<u8> },
    /// No datagram is ready.
    WouldBlock,
    /// The receive call failed in some other, recoverable way.
    RecvFailure,
}

/// What the receive loop does next.
pub enum ReceiverAction {
    /// Hand this item to the ingestion queue, waiting if it is full.
    Submit(Datagram),
    /// Drop the datagram silently: its bytes are not valid text.
    Discard,
    /// Pause for `POLL_BACKOFF_MILLIS`, then poll again.
    Backoff,
    /// Log the error and keep receiving.
    ReportError,
}

/// Relies on `String::from_utf8`: succeeds exactly on valid UTF-8 input
/// and decodes it.
#[verifier::external_body]
fn decode_utf8_bytes(bytes: Vec<u8>) -> (r: Option<String>)
    ensures
        match r {
            Some(s) => vstd::utf8::valid_utf8(bytes@) && s@ == vstd::utf8::decode_utf8(bytes@),
            None => !vstd::utf8::valid_utf8(bytes@),
        },
{
    String::from_utf8(bytes).ok()
}

/// The receive loop's decision for one socket event: decode and submit a
/// datagram whose bytes are valid text, drop one whose bytes are not, back
/// off when nothing is ready, and log-and-continue on any other error.
pub fn on_socket_event(e: SocketEvent) -> (a: ReceiverAction)
    ensures
        match e {
            SocketEvent::Arrived { source, bytes } => {
                if vstd::utf8::valid_utf8(bytes@) {
                    a matches ReceiverAction::Submit(d) && d.source@ == source@ && d.text@
                        == vstd::utf8::decode_utf8(bytes@)
                } else {
                    a == ReceiverAction::Discard
                }
            },
            SocketEvent::WouldBlock => a == ReceiverAction::Backoff,
            SocketEvent::RecvFailure => a == ReceiverAction::ReportError,
        },
{
    match e {
        SocketEvent::Arrived { source, bytes } => match decode_utf8_bytes(bytes) {
            Some(text) => ReceiverAction::Submit(Datagram { source, text }),
            None => ReceiverAction::Discard,
        },
        SocketEvent::WouldBlock => ReceiverAction::Backoff,
        SocketEvent::RecvFailure => ReceiverAction::ReportError,
    }
}

} // verus!

//! The per-datagram unit of work the dispatcher runs: count the datagram,
//! parse its priority, build the record, and hand it to the store writer.

use vstd::prelude::*;
use crate::clock;
use crate::pipeline::Stats;
use crate::priority;
use crate::priority::PriorityError;
use crate::queue::Datagram;
use crate::record;
use crate::record::LogRecordView;
use crate::store::Writer;
use crate::text;

verus! {

/// The record a datagram from `source` with text `raw` yields under the
/// timestamp `event_time`, once its PRI value parsed as `facility` and
/// `severity`: the message is what follows the priority tag, normalized.
pub open spec fn spec_record(
    event_time: Seq<char>,
    source: Seq<char>,
    raw: Seq<char>,
    facility: u8,
    severity: u8,
) -> LogRecordView {
    LogRecordView {
        event_time,
        device_ip: source,
        message: text::normalized(priority::spec_payload(raw)),
        severity,
        facility,
    }
}

/// Turns datagrams into store rows.
pub struct LogHandler {
    /// Where the caller keeps the store this handler's rows belong to.
    pub output_path: String,
}

impl LogHandler {
    /// A handler for the store at `path`.
    pub fn new(path: String) -> (h: LogHandler)
        ensures
            h.output_path@ == path@,
    {
        LogHandler { output_path: path }
    }

    /// The (facility, severity) pair encoded in a datagram's PRI value.
    pub fn parse_priority(&self, log_data: &str) -> (r: Result<(u8, u8), PriorityError>)
        ensures
            r == priority::spec_parse_priority(log_data@),
    {
        let chars = text::chars_of(log_data);
        priority::parse_priority_chars(&chars)
    }

    /// One dispatcher step under a given timestamp: the datagram counts as
    /// received; if its priority parses, its record goes to the writer and
    /// the characters to append to the store come back; otherwise it is
    /// rejected, with the store and the written counter untouched.
    pub fn process(
        &self,
        d: &Datagram,
        event_time: String,
        stats: &mut Stats,
        w: &mut Writer,
    ) -> (r: Result<Vec<char>, PriorityError>)
        requires
            old(stats).received < u64::MAX,
            old(w).wf(),
        ensures
            final(stats).received == old(stats).received + 1,
            final(stats).written == old(stats).written,
            final(w).wf(),
            final(w).opened_empty == old(w).opened_empty,
            final(w).prior == old(w).prior,
            match priority::spec_parse_priority(d.text@) {
                Ok(fs) => {
                    let rec = spec_record(event_time@, d.source@, d.text@, fs.0, fs.1);
                    &&& r is Ok
                    &&& final(w).records@ == old(w).records@.push(rec)
                    &&& r->Ok_0@ == old(w).chunk_for(rec)
                    &&& final(w).content() == old(w).content() + r->Ok_0@
                },
                Err(e) => {
                    &&& r == Err::<Vec<char>, PriorityError>(e)
                    &&& *final(w) == *old(w)
                },
            },
    {
        stats.note_received();
        let chars = text::chars_of(d.text.as_str());
        let (pair, payload) = match priority::parse_datagram_chars(&chars) {
            Ok(p) => p,
            Err(e) => {
                return Err(e);
            },
        };
        let (facility, severity) = pair;
        proof {
            priority::lemma_parsed_fields(d.text@);
        }
        let payload_text = text::string_of(&payload);
        let rec = record::build_record(
            event_time,
            d.source.clone(),
            payload_text.as_str(),
            facility,
            severity,
        );
        let chunk = w.append(&rec);
        Ok(chunk)
    }

    /// One dispatcher step: as `process`, with the record stamped with the
    /// current local time.
    pub fn handle_log(
        &self,
        source_ip: String,
        log_data: String,
        stats: &mut Stats,
        w: &mut Writer,
    ) -> (r: Result<Vec<char>, PriorityError>)
        requires
            old(stats).received < u64::MAX,
            old(w).wf(),
        ensures
            final(stats).received == old(stats).received + 1,
            final(stats).written == old(stats).written,
            final(w).wf(),
            final(w).opened_empty == old(w).opened_empty,
            final(w).prior == old(w).prior,
            match priority::spec_parse_priority(log_data@) {
                Ok(fs) => {
                    &&& r is Ok
                    &&& final(w).records@.len() == old(w).records@.len() + 1
                    &&& final(w).records@.drop_last() == old(w).records@
                    &&& ({
                        let rec = final(w).records@.last();
                        &&& rec.event_time.len() > 0
                        &&& rec.device_ip == source_ip@
                        &&& rec.message == text::normalized(priority::spec_payload(log_data@))
                        &&& rec.facility == fs.0
                        &&& rec.severity == fs.1
                        &&& r->Ok_0@ == old(w).chunk_for(rec)
                        &&& final(w).content() == old(w).content() + r->Ok_0@
                    })
                },
                Err(e) => {
                    &&& r == Err::<Vec<char>, PriorityError>(e)
                    &&& *final(w) == *old(w)
                },
            },
    {
        let event_time = clock::now_timestamp();
        let d = Datagram { source: source_ip, text: log_data };
        let r = self.process(&d, event_time, stats, w);
        proof {
            if priority::spec_parse_priority(d.text@) is Ok {
                assert(w.records@.drop_last() =~= old(w).records@);
            }
        }
        r
    }
}

} // verus!

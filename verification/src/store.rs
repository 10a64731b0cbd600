//! The append-only store writer. One writer owns the store: it alone
//! decides whether the header row is still owed, so the header appears
//! exactly once however many records pass through it. The writer hands the
//! caller the characters to append; the ghost state mirrors the store's
//! full content.

use vstd::prelude::*;
use crate::record::{LogRecord, LogRecordView};
use crate::rowfmt;
use crate::text;

verus! {

/// The field names of the store's header row, in column order.
pub open spec fn header_fields() -> Seq<Seq<char>> {
    seq!["event_time"@, "device_ip"@, "message"@, "severity"@, "facility"@]
}

/// The single owner of the output store.
pub struct Writer {
    /// Whether the store held nothing when this writer opened it.
    pub opened_empty: bool,
    /// Whether this writer has appended anything yet.
    pub wrote: bool,
    /// The store content found at open.
    pub prior: Ghost<Seq<char>>,
    /// The records appended so far, oldest first.
    pub records: Ghost<Seq<LogRecordView>>,
}

impl Writer {
    pub open spec fn wf(self) -> bool {
        &&& self.opened_empty == (self.prior@.len() == 0)
        &&& self.wrote == (self.records@.len() > 0)
    }

    /// The store's full content: what was found at open, then a header if
    /// the store began empty and anything was appended, then one row per
    /// record.
    pub open spec fn content(self) -> Seq<char> {
        self.prior@ + (if self.opened_empty && self.records@.len() > 0 {
            rowfmt::row_chars(header_fields())
        } else {
            Seq::empty()
        }) + rowfmt::rows_chars(self.records@.map_values(|r: LogRecordView| r.fields()))
    }

    /// The characters appending `rec` must add to the store in this state:
    /// a header row first when the store began empty and holds nothing yet.
    pub open spec fn chunk_for(self, rec: LogRecordView) -> Seq<char> {
        (if self.opened_empty && self.records@.len() == 0 {
            rowfmt::row_chars(header_fields())
        } else {
            Seq::empty()
        }) + rowfmt::row_chars(rec.fields())
    }

    /// Opens the store; `store_empty` says whether it held nothing at that
    /// moment.
    pub fn open(store_empty: bool) -> (w: Writer)
        ensures
            w.wf(),
            w.opened_empty == store_empty,
            w.records@.len() == 0,
            store_empty ==> w.content() == Seq::<char>::empty(),
    {
        let w = Writer {
            opened_empty: store_empty,
            wrote: false,
            prior: Ghost(
                if store_empty {
                    Seq::empty()
                } else {
                    choose|s: Seq<char>| s.len() > 0
                },
            ),
            records: Ghost(Seq::empty()),
        };
        proof {
            if !store_empty {
                assert(seq!['x'].len() > 0);
            }
            if store_empty {
                assert(w.content() =~= Seq::<char>::empty());
            }
        }
        w
    }

    /// Appends one record: returns the characters the caller must add at
    /// the store's end, a header row first if none has been written to
    /// this initially-empty store.
    pub fn append(&mut self, rec: &LogRecord) -> (chunk: Vec<char>)
        requires
            old(self).wf(),
        ensures
            final(self).wf(),
            final(self).opened_empty == old(self).opened_empty,
            final(self).prior == old(self).prior,
            final(self).records@ == old(self).records@.push(rec@),
            chunk@ == old(self).chunk_for(rec@),
            final(self).content() == old(self).content() + chunk@,
    {
        let ghost pre = *self;
        let mut chunk: Vec<char> = Vec::new();
        if self.opened_empty && !self.wrote {
            let mut hf: Vec<Vec<char>> = Vec::new();
            hf.push(text::chars_of("event_time"));
            hf.push(text::chars_of("device_ip"));
            hf.push(text::chars_of("message"));
            hf.push(text::chars_of("severity"));
            hf.push(text::chars_of("facility"));
            proof {
                assert(hf.deep_view() =~~= header_fields());
            }
            let mut hrow = rowfmt::format_row(&hf);
            chunk.append(&mut hrow);
        }
        let mut fv: Vec<Vec<char>> = Vec::new();
        fv.push(text::chars_of(rec.event_time.as_str()));
        fv.push(text::chars_of(rec.device_ip.as_str()));
        fv.push(text::chars_of(rec.message.as_str()));
        let mut sv: Vec<char> = Vec::new();
        rowfmt::push_u8_decimal(&mut sv, rec.severity);
        fv.push(sv);
        let mut gv: Vec<char> = Vec::new();
        rowfmt::push_u8_decimal(&mut gv, rec.facility);
        fv.push(gv);
        proof {
            assert(fv.deep_view() =~~= rec@.fields());
        }
        let mut row = rowfmt::format_row(&fv);
        chunk.append(&mut row);
        self.wrote = true;
        self.records = Ghost(pre.records@.push(rec@));
        proof {
            let oldmap = pre.records@.map_values(|r: LogRecordView| r.fields());
            let newmap = self.records@.map_values(|r: LogRecordView| r.fields());
            assert(newmap =~= oldmap.push(rec@.fields()));
            lemma_rows_chars_push(oldmap, rec@.fields());
            assert(chunk@ =~= (if pre.opened_empty && pre.records@.len() == 0 {
                rowfmt::row_chars(header_fields())
            } else {
                Seq::<char>::empty()
            }) + rowfmt::row_chars(rec@.fields()));
            assert(self.content() =~= pre.content() + chunk@);
        }
        chunk
    }
}

/// A row added at the end extends the serialized rows at the end.
pub proof fn lemma_rows_chars_push(rs: Seq<Seq<Seq<char>>>, r: Seq<Seq<char>>)
    ensures
        rowfmt::rows_chars(rs.push(r)) == rowfmt::rows_chars(rs) + rowfmt::row_chars(r),
    decreases rs.len(),
{
    if rs.len() == 0 {
        assert(rs.push(r)[0] == r);
        assert(rs.push(r).drop_first() =~= Seq::<Seq<Seq<char>>>::empty());
        assert(rowfmt::rows_chars(Seq::<Seq<Seq<char>>>::empty()) == Seq::<char>::empty());
        assert(rowfmt::rows_chars(rs.push(r)) =~= rowfmt::rows_chars(rs) + rowfmt::row_chars(r));
    } else {
        assert(rs.push(r)[0] == rs[0]);
        assert(rs.push(r).drop_first() =~= rs.drop_first().push(r));
        lemma_rows_chars_push(rs.drop_first(), r);
        assert(rowfmt::rows_chars(rs.push(r)) =~= rowfmt::rows_chars(rs) + rowfmt::row_chars(r));
    }
}

/// How often `x` occurs among `rows`.
pub open spec fn occurrences(rows: Seq<Seq<Seq<char>>>, x: Seq<Seq<char>>) -> nat
    decreases rows.len(),
{
    if rows.len() == 0 {
        0
    } else {
        (if rows[0] == x {
            1nat
        } else {
            0nat
        }) + occurrences(rows.drop_first(), x)
    }
}

proof fn lemma_occurrences_zero(rows: Seq<Seq<Seq<char>>>, x: Seq<Seq<char>>)
    requires
        forall|i: int| 0 <= i < rows.len() ==> #[trigger] rows[i] != x,
    ensures
        occurrences(rows, x) == 0,
    decreases rows.len(),
{
    if rows.len() > 0 {
        lemma_occurrences_zero(rows.drop_first(), x);
    }
}

/// No record's row can be the header row: its severity field is at most
/// three digits, while the header's says `severity`.
pub proof fn lemma_record_row_not_header(r: LogRecordView)
    ensures
        r.fields() != header_fields(),
{
    reveal_strlit("severity");
    assert(header_fields()[3].len() == 8);
    rowfmt::lemma_u8_decimal_len(r.severity);
    assert(r.fields()[3].len() <= 3);
    assert(r.fields()[3] != header_fields()[3]);
}

/// A store grown from empty by one writer parses back as the header row
/// followed by exactly the appended records' rows.
pub proof fn lemma_store_parses(w: Writer)
    requires
        w.wf(),
        w.opened_empty,
        w.records@.len() >= 1,
    ensures
        rowfmt::parse_rows(w.content()) == Some(
            seq![header_fields()] + w.records@.map_values(|r: LogRecordView| r.fields()),
        ),
{
    let rows = seq![header_fields()] + w.records@.map_values(|r: LogRecordView| r.fields());
    assert(rows[0] == header_fields());
    assert(rows.drop_first() =~= w.records@.map_values(|r: LogRecordView| r.fields()));
    assert(rowfmt::rows_chars(rows) == rowfmt::row_chars(header_fields()) + rowfmt::rows_chars(
        rows.drop_first(),
    ));
    assert(w.content() =~= rowfmt::rows_chars(rows));
    assert(forall|i: int| 0 <= i < rows.len() ==> #[trigger] rows[i].len() >= 1) by {
        assert(rows[0].len() == 5);
        assert(forall|i: int|
            1 <= i < rows.len() ==> #[trigger] rows[i] == w.records@[i - 1].fields()
                && rows[i].len() == 5);
    }
    rowfmt::lemma_rows_round_trip(rows);
}

/// However many records one writer appends to an initially empty store,
/// the header row stands in the final store exactly once.
pub proof fn lemma_header_once(w: Writer)
    requires
        w.wf(),
        w.opened_empty,
        w.records@.len() >= 1,
    ensures
        rowfmt::parse_rows(w.content()) is Some,
        occurrences(rowfmt::parse_rows(w.content())->Some_0, header_fields()) == 1,
{
    lemma_store_parses(w);
    let body = w.records@.map_values(|r: LogRecordView| r.fields());
    let rows = seq![header_fields()] + body;
    assert(rows[0] == header_fields());
    assert(rows.drop_first() =~= body);
    assert(forall|i: int| 0 <= i < body.len() ==> #[trigger] body[i] != header_fields()) by {
        assert forall|i: int| 0 <= i < body.len() implies #[trigger] body[i]
            != header_fields() by {
            lemma_record_row_not_header(w.records@[i]);
        }
    }
    lemma_occurrences_zero(body, header_fields());
    assert(occurrences(rows, header_fields()) == 1);
}

/// Two records appended to an initially empty store, in whatever order
/// their processing finished, both stand in the final store exactly once
/// when their source addresses differ.
pub proof fn lemma_two_records_once(w: Writer)
    requires
        w.wf(),
        w.opened_empty,
        w.records@.len() == 2,
        w.records@[0].device_ip != w.records@[1].device_ip,
    ensures
        rowfmt::parse_rows(w.content()) == Some(
            seq![header_fields(), w.records@[0].fields(), w.records@[1].fields()],
        ),
        occurrences(rowfmt::parse_rows(w.content())->Some_0, w.records@[0].fields()) == 1,
        occurrences(rowfmt::parse_rows(w.content())->Some_0, w.records@[1].fields()) == 1,
{
    lemma_store_parses(w);
    let f0 = w.records@[0].fields();
    let f1 = w.records@[1].fields();
    let body = w.records@.map_values(|r: LogRecordView| r.fields());
    assert(body =~= seq![f0, f1]);
    let rows = seq![header_fields()] + body;
    assert(rows =~= seq![header_fields(), f0, f1]);
    assert(f0[1] == w.records@[0].device_ip && f1[1] == w.records@[1].device_ip);
    assert(f0 != f1);
    lemma_record_row_not_header(w.records@[0]);
    lemma_record_row_not_header(w.records@[1]);
    let tail2 = rows.drop_first();
    let tail1 = tail2.drop_first();
    let tail0 = tail1.drop_first();
    assert(tail2 =~= seq![f0, f1]);
    assert(tail1 =~= seq![f1]);
    assert(tail0 =~= Seq::<Seq<Seq<char>>>::empty());
    assert(occurrences(tail0, f0) == 0 && occurrences(tail0, f1) == 0);
    assert(occurrences(tail1, f0) == 0 && occurrences(tail1, f1) == 1);
    assert(occurrences(tail2, f0) == 1 && occurrences(tail2, f1) == 1);
    assert(occurrences(rows, f0) == 1 && occurrences(rows, f1) == 1);
}

} // verus!

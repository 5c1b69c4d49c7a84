//! The snapshot of the guest list as a table: one record for each guest,
//! in alphabetical order, behind a record of column names.

use vstd::prelude::*;
use csv::Writer;
use crate::clock::{LocalDateTime, central_now, stamp_string, stamp_text};
use crate::rank::{rank, ranked, views};
use crate::search::{ByName, FilterView, GuestFilter, GuestResultView, GuestSearchResult, selected};
use crate::store::{GuestStore, StoreView};
use crate::text::{chars_of, lemma_text_before_chain, lemma_text_before_one_way, string_of,
    text_before, text_is_before};

verus! {

/// Why no table was written.
#[derive(Debug, Clone, Copy, PartialEq, Eq, Structural)]
pub enum ExportError {
    /// The encoder refused a record.
    Encoding,
}

/// The bytes that a fresh `csv::Writer` with the default settings gives
/// for one record, or nothing where it refuses the record.
pub uninterp spec fn csv_record_result(fields: Seq<Seq<char>>) -> Option<Seq<u8>>;

/// The texts of a record.
pub open spec fn field_texts(fields: Seq<String>) -> Seq<Seq<char>> {
    Seq::new(fields.len(), |k: int| fields[k]@)
}

/// The texts of a sequence of records.
pub open spec fn record_texts(records: Seq<Vec<String>>) -> Seq<Seq<Seq<char>>> {
    Seq::new(records.len(), |k: int| field_texts(records[k]@))
}

/// The later of a time and one more, times compared as texts.
pub open spec fn later(found: Option<Seq<char>>, time: Seq<char>) -> Option<Seq<char>> {
    match found {
        Some(t) => if text_before(t, time) {
            Some(time)
        } else {
            found
        },
        None => Some(time),
    }
}

/// The latest check-in time of the guest among the first `upto` events.
pub open spec fn last_in(s: StoreView, guest_id: i64, upto: int) -> Option<Seq<char>>
    decreases upto,
{
    if upto <= 0 {
        None
    } else if s.events[upto - 1].guest_id == guest_id {
        later(last_in(s, guest_id, upto - 1), s.events[upto - 1].in_ts)
    } else {
        last_in(s, guest_id, upto - 1)
    }
}

/// The latest check-out time of the guest among the first `upto` events.
pub open spec fn last_out(s: StoreView, guest_id: i64, upto: int) -> Option<Seq<char>>
    decreases upto,
{
    if upto <= 0 {
        None
    } else if s.events[upto - 1].guest_id == guest_id && s.events[upto - 1].out_ts is Some {
        later(last_out(s, guest_id, upto - 1), s.events[upto - 1].out_ts->0)
    } else {
        last_out(s, guest_id, upto - 1)
    }
}

/// `Y` for yes, `N` for no.
pub open spec fn yes_no(yes: bool) -> Seq<char> {
    if yes {
        "Y"@
    } else {
        "N"@
    }
}

/// The text, or the empty text where there is none.
pub open spec fn or_empty(text: Option<Seq<char>>) -> Seq<char> {
    match text {
        Some(t) => t,
        None => Seq::<char>::empty(),
    }
}

/// The record of column names.
pub open spec fn header_record() -> Seq<Seq<char>> {
    seq![
        "Member Name"@,
        "Guest Name"@,
        "Check In Y/N"@,
        "Check In Time"@,
        "Check Out Y/N"@,
        "Check Out Time"@,
    ]
}

/// The record of a guest: host, name, whether it ever checked in, its
/// latest check-in time, whether it ever checked out, its latest check-out
/// time.
pub open spec fn guest_record(s: StoreView, guest: GuestResultView) -> Seq<Seq<char>> {
    let n = s.events.len() as int;
    let left = last_out(s, guest.id, n);
    seq![
        or_empty(guest.member_host),
        guest.display_name,
        yes_no(last_in(s, guest.id, n) is Some),
        or_empty(last_in(s, guest.id, n)),
        yes_no(left is Some && left->0.len() > 0),
        or_empty(left),
    ]
}

/// The guests in the order of the table.
pub open spec fn export_order(s: StoreView) -> Seq<GuestResultView> {
    ranked::<GuestSearchResult, ByName>(selected(s, FilterView::All, s.guests.len() as int))
}

/// The records of the table: the column names, then the guests in
/// alphabetical order.
pub open spec fn export_records_model(s: StoreView) -> Seq<Seq<Seq<char>>> {
    Seq::new(
        export_order(s).len() + 1,
        |k: int|
            if k == 0 {
                header_record()
            } else {
                guest_record(s, export_order(s)[k - 1])
            },
    )
}

/// The bytes of the first `upto` records in a row; nothing if one is refused.
pub open spec fn csv_text(records: Seq<Seq<Seq<char>>>, upto: int) -> Option<Seq<u8>>
    decreases upto,
{
    if upto <= 0 {
        Some(Seq::<u8>::empty())
    } else {
        joined(csv_text(records, upto - 1), csv_record_result(records[upto - 1]))
    }
}

/// The name of the file that a table written at `at` goes to.
pub open spec fn export_filename_text(at: LocalDateTime) -> Seq<char> {
    "party-sign-in-"@ + stamp_text(at) + ".csv"@
}

/// Makes a `csv::Writer` over an empty vector with `Writer::from_writer`,
/// writes the one record with `Writer::write_record`, and takes the bytes
/// back with `Writer::into_inner`; `None` stands for an error of either.
#[verifier::external_body]
fn csv_record(fields: &Vec<String>) -> (out: Option<Vec<u8>>)
    ensures
        bytes_of(out) == csv_record_result(field_texts(fields@)),
{
    let mut writer = Writer::from_writer(Vec::new());
    match writer.write_record(fields.iter()) {
        Ok(()) => match writer.into_inner() {
            Ok(bytes) => Some(bytes),
            Err(_) => None,
        },
        Err(_) => None,
    }
}

/// The later of a time and one more.
fn later_of(found: Option<String>, time: &String) -> (out: Option<String>)
    ensures
        crate::store::text_view(out) == later(crate::store::text_view(found), time@),
{
    match found {
        Some(t) => {
            if text_is_before(&chars_of(t.as_str()), &chars_of(time.as_str())) {
                Some(time.clone())
            } else {
                Some(t)
            }
        },
        None => Some(time.clone()),
    }
}

/// The text `Y` or `N`.
fn yes_no_string(yes: bool) -> (out: String)
    ensures
        out@ == yes_no(yes),
{
    if yes {
        "Y".to_owned()
    } else {
        "N".to_owned()
    }
}

/// The text, or the empty text where there is none.
fn or_empty_string(text: Option<String>) -> (out: String)
    ensures
        out@ == or_empty(crate::store::text_view(text)),
{
    match text {
        Some(t) => t,
        None => String::new(),
    }
}

impl GuestStore {
    /// The latest check-in time of the guest.
    pub fn latest_in(&self, guest_id: i64) -> (out: Option<String>)
        ensures
            crate::store::text_view(out) == last_in(self@, guest_id, self@.events.len() as int),
    {
        let mut found: Option<String> = None;
        let mut i: usize = 0;
        while i < self.events.len()
            invariant
                i <= self.events.len(),
                crate::store::text_view(found) == last_in(self@, guest_id, i as int),
            decreases self.events.len() - i,
        {
            if self.events[i].guest_id == guest_id {
                found = later_of(found, &self.events[i].in_ts);
            }
            i += 1;
        }
        found
    }

    /// The latest check-out time of the guest.
    pub fn latest_out(&self, guest_id: i64) -> (out: Option<String>)
        ensures
            crate::store::text_view(out) == last_out(self@, guest_id, self@.events.len() as int),
    {
        let mut found: Option<String> = None;
        let mut i: usize = 0;
        while i < self.events.len()
            invariant
                i <= self.events.len(),
                crate::store::text_view(found) == last_out(self@, guest_id, i as int),
            decreases self.events.len() - i,
        {
            if self.events[i].guest_id == guest_id {
                match &self.events[i].out_ts {
                    Some(time) => {
                        found = later_of(found, time);
                    },
                    None => {},
                }
            }
            i += 1;
        }
        found
    }

    /// The record of a guest.
    fn record_of(&self, guest: &GuestSearchResult) -> (out: Vec<String>)
        ensures
            field_texts(out@) == guest_record(self@, guest@),
    {
        let came = self.latest_in(guest.id);
        let left = self.latest_out(guest.id);
        let has_left = match &left {
            Some(t) => t.as_str().unicode_len() > 0,
            None => false,
        };
        let mut out: Vec<String> = Vec::new();
        out.push(or_empty_string(crate::checkin::clone_text(&guest.member_host)));
        out.push(guest.display_name.clone());
        out.push(yes_no_string(came.is_some()));
        out.push(or_empty_string(came));
        out.push(yes_no_string(has_left));
        out.push(or_empty_string(left));
        assert(field_texts(out@) =~= guest_record(self@, guest@));
        out
    }
}

/// The record of column names.
fn header() -> (out: Vec<String>)
    ensures
        field_texts(out@) == header_record(),
{
    let mut out: Vec<String> = Vec::new();
    out.push("Member Name".to_owned());
    out.push("Guest Name".to_owned());
    out.push("Check In Y/N".to_owned());
    out.push("Check In Time".to_owned());
    out.push("Check Out Y/N".to_owned());
    out.push("Check Out Time".to_owned());
    assert(field_texts(out@) =~= header_record());
    out
}

/// The records of the table.
pub fn export_records(store: &GuestStore) -> (out: Vec<Vec<String>>)
    ensures
        record_texts(out@) == export_records_model(store@),
{
    let guests = rank::<GuestSearchResult, ByName>(store.select(&GuestFilter::All));
    let mut out: Vec<Vec<String>> = Vec::new();
    out.push(header());
    let mut i: usize = 0;
    while i < guests.len()
        invariant
            i <= guests.len(),
            views(guests@) == export_order(store@),
            out@.len() == i + 1,
            field_texts(out@[0]@) == header_record(),
            forall|k: int|
                1 <= k <= i ==> field_texts(#[trigger] out@[k]@) == guest_record(
                    store@,
                    export_order(store@)[k - 1],
                ),
        decreases guests.len() - i,
    {
        assert(views(guests@)[i as int] == guests@[i as int]@);
        out.push(store.record_of(&guests[i]));
        i += 1;
    }
    assert(views(guests@).len() == guests@.len());
    assert(record_texts(out@) =~= export_records_model(store@));
    out
}

/// The table of the store as the bytes of a CSV file.
///
/// The bytes are those of the records of [`export_records_model`], one
/// after the other, each as the encoder writes it; `Encoding` is returned
/// exactly where the encoder refuses one of them.
pub fn export_csv(store: &GuestStore) -> (out: Result<Vec<u8>, ExportError>)
    ensures
        encoding_of(out) == csv_text(
            export_records_model(store@),
            export_records_model(store@).len() as int,
        ),
{
    let records = export_records(store);
    encode_records(&records)
}

/// The bytes of the records, one after the other, each as the encoder
/// writes it; `Encoding` exactly where the encoder refuses one of them.
pub fn encode_records(records: &Vec<Vec<String>>) -> (out: Result<Vec<u8>, ExportError>)
    ensures
        encoding_of(out) == csv_text(record_texts(records@), records@.len() as int),
{
    let ghost all = record_texts(records@);
    let mut bytes: Vec<u8> = Vec::new();
    let mut i: usize = 0;
    while i < records.len()
        invariant
            i <= records.len(),
            all == record_texts(records@),
            csv_text(all, i as int) == Some(bytes@),
        decreases records.len() - i,
    {
        let line = csv_record(&records[i]);
        assert(all[i as int] == field_texts(records@[i as int]@));
        match append_line(&mut bytes, line) {
            Ok(()) => {},
            Err(refusal) => {
                proof {
                    lemma_refusal_stays(all, i + 1, records.len() as int);
                }
                return Err(refusal);
            },
        }
        i += 1;
    }
    Ok(bytes)
}

/// The bytes of an encoded record, where there is one.
pub open spec fn bytes_of(line: Option<Vec<u8>>) -> Option<Seq<u8>> {
    match line {
        Some(bytes) => Some(bytes@),
        None => None,
    }
}

/// The bytes that an encoding gave, where it gave any.
pub open spec fn encoding_of(out: Result<Vec<u8>, ExportError>) -> Option<Seq<u8>> {
    match out {
        Ok(bytes) => Some(bytes@),
        Err(_) => None,
    }
}

/// The bytes so far with the bytes of one more record behind them; nothing
/// where either is missing.
pub open spec fn joined(so_far: Option<Seq<u8>>, line: Option<Seq<u8>>) -> Option<Seq<u8>> {
    match (so_far, line) {
        (Some(bytes), Some(more)) => Some(bytes + more),
        _ => None,
    }
}

/// Once a record is refused, the table is refused, however many records
/// follow.
pub proof fn lemma_refusal_stays(records: Seq<Seq<Seq<char>>>, from: int, upto: int)
    requires
        from <= upto,
        csv_text(records, from) is None,
    ensures
        csv_text(records, upto) is None,
    decreases upto - from,
{
    if from < upto {
        lemma_refusal_stays(records, from, upto - 1);
    }
}

/// Puts the bytes of one more record behind those written so far, or
/// reports that the encoder refused the record and leaves the bytes as they
/// are.
pub fn append_line(bytes: &mut Vec<u8>, line: Option<Vec<u8>>) -> (out: Result<(), ExportError>)
    ensures
        line is Some ==> out is Ok && final(bytes)@ == old(bytes)@ + line->0@,
        line is None ==> out == Err::<(), ExportError>(ExportError::Encoding) && final(bytes)@
            == old(bytes)@,
{
    match line {
        Some(mut more) => {
            let ghost before = bytes@;
            let ghost added = more@;
            bytes.append(&mut more);
            assert(bytes@ =~= before + added);
            Ok(())
        },
        None => Err(ExportError::Encoding),
    }
}

/// The name of the file that a table written at `at` goes to.
pub fn export_filename_at(at: LocalDateTime) -> (out: String)
    requires
        at.valid(),
    ensures
        out@ == export_filename_text(at),
{
    let mut chars = chars_of("party-sign-in-");
    let stamp = chars_of(stamp_string(at).as_str());
    let tail = chars_of(".csv");
    let ghost head = chars@;
    let mut i: usize = 0;
    while i < stamp.len()
        invariant
            i <= stamp.len(),
            chars@ == head + stamp@.take(i as int),
        decreases stamp.len() - i,
    {
        chars.push(stamp[i]);
        assert(stamp@.take(i + 1) =~= stamp@.take(i as int).push(stamp@[i as int]));
        i += 1;
    }
    assert(stamp@.take(stamp.len() as int) =~= stamp@);
    let ghost body = chars@;
    let mut k: usize = 0;
    while k < tail.len()
        invariant
            k <= tail.len(),
            chars@ == body + tail@.take(k as int),
        decreases tail.len() - k,
    {
        chars.push(tail[k]);
        assert(tail@.take(k + 1) =~= tail@.take(k as int).push(tail@[k as int]));
        k += 1;
    }
    assert(tail@.take(tail.len() as int) =~= tail@);
    string_of(&chars)
}

/// The name of the file that a table written at this moment goes to.
///
/// Which moment is read depends on the clock alone; whatever it is, the
/// name is the one that [`export_filename_at`] gives for a date and time.
pub fn export_filename() -> (out: String)
    ensures
        exists|at: LocalDateTime| at.valid() && out@ == export_filename_text(at),
{
    let at = central_now();
    export_filename_at(at)
}

/// The latest check-in time of a guest is the check-in time of one of its
/// events, and none of its events has a later one; a guest without events
/// has none.
pub proof fn law_last_in_is_latest(s: StoreView, guest_id: i64, upto: int)
    requires
        0 <= upto <= s.events.len(),
    ensures
        match last_in(s, guest_id, upto) {
            Some(t) => (exists|i: int|
                0 <= i < upto && (#[trigger] s.events[i]).guest_id == guest_id && s.events[i].in_ts
                    == t) && forall|i: int|
                0 <= i < upto && (#[trigger] s.events[i]).guest_id == guest_id ==> !text_before(
                    t,
                    s.events[i].in_ts,
                ),
            None => forall|i: int| 0 <= i < upto ==> (#[trigger] s.events[i]).guest_id != guest_id,
        },
    decreases upto,
{
    if upto > 0 {
        law_last_in_is_latest(s, guest_id, upto - 1);
        let event = s.events[upto - 1];
        if event.guest_id == guest_id {
            match last_in(s, guest_id, upto - 1) {
                Some(found) => {
                    if text_before(found, event.in_ts) {
                        lemma_text_before_one_way(found, event.in_ts);
                        assert forall|i: int|
                            0 <= i < upto && (#[trigger] s.events[i]).guest_id
                                == guest_id implies !text_before(
                            event.in_ts,
                            s.events[i].in_ts,
                        ) by {
                            if i < upto - 1 {
                                lemma_text_before_chain(s.events[i].in_ts, found, event.in_ts);
                            } else {
                                lemma_text_before_self(event.in_ts);
                            }
                        }
                    } else {
                        let i = choose|i: int|
                            0 <= i < upto - 1 && (#[trigger] s.events[i]).guest_id == guest_id
                                && s.events[i].in_ts == found;
                        assert(s.events[i].in_ts == found);
                    }
                },
                None => {
                    lemma_text_before_self(event.in_ts);
                },
            }
        } else {
            match last_in(s, guest_id, upto - 1) {
                Some(found) => {
                    let i = choose|i: int|
                        0 <= i < upto - 1 && (#[trigger] s.events[i]).guest_id == guest_id
                            && s.events[i].in_ts == found;
                    assert(s.events[i].in_ts == found);
                },
                None => {},
            }
        }
    }
}

/// No text comes before itself.
pub proof fn lemma_text_before_self(a: Seq<char>)
    ensures
        !text_before(a, a),
{
    if text_before(a, a) {
        lemma_text_before_one_way(a, a);
    }
}

/// The latest check-out time of a guest is the check-out time of one of
/// its closed events, and none of them has a later one; a guest without a
/// closed event has none.
pub proof fn law_last_out_is_latest(s: StoreView, guest_id: i64, upto: int)
    requires
        0 <= upto <= s.events.len(),
    ensures
        match last_out(s, guest_id, upto) {
            Some(t) => (exists|i: int|
                0 <= i < upto && (#[trigger] s.events[i]).guest_id == guest_id
                    && s.events[i].out_ts == Some(t)) && forall|i: int|
                0 <= i < upto && (#[trigger] s.events[i]).guest_id == guest_id
                    && s.events[i].out_ts is Some ==> !text_before(t, s.events[i].out_ts->0),
            None => forall|i: int|
                0 <= i < upto && (#[trigger] s.events[i]).guest_id == guest_id
                    ==> s.events[i].out_ts is None,
        },
    decreases upto,
{
    if upto > 0 {
        law_last_out_is_latest(s, guest_id, upto - 1);
        let event = s.events[upto - 1];
        if event.guest_id == guest_id && event.out_ts is Some {
            let time = event.out_ts->0;
            match last_out(s, guest_id, upto - 1) {
                Some(found) => {
                    if text_before(found, time) {
                        lemma_text_before_one_way(found, time);
                        assert forall|i: int|
                            0 <= i < upto && (#[trigger] s.events[i]).guest_id == guest_id
                                && s.events[i].out_ts is Some implies !text_before(
                            time,
                            s.events[i].out_ts->0,
                        ) by {
                            if i < upto - 1 {
                                lemma_text_before_chain(s.events[i].out_ts->0, found, time);
                            } else {
                                lemma_text_before_self(time);
                            }
                        }
                    } else {
                        let i = choose|i: int|
                            0 <= i < upto - 1 && (#[trigger] s.events[i]).guest_id == guest_id
                                && s.events[i].out_ts == Some(found);
                        assert(s.events[i].out_ts == Some(found));
                    }
                },
                None => {
                    lemma_text_before_self(time);
                },
            }
        } else {
            match last_out(s, guest_id, upto - 1) {
                Some(found) => {
                    let i = choose|i: int|
                        0 <= i < upto - 1 && (#[trigger] s.events[i]).guest_id == guest_id
                            && s.events[i].out_ts == Some(found);
                    assert(s.events[i].out_ts == Some(found));
                },
                None => {},
            }
        }
    }
}

} // verus!

//! Merging bulk records into the store: each record is read into a
//! [`ParsedRow`], and each name of it that the store does not know yet
//! becomes a guest, with the one visit that the record stands for.

use vstd::prelude::*;
use crate::checkin::{clone_text, insert_refused, lemma_with_event_wf, with_event};
use crate::clock::central_now_time_string;
use crate::import::{VisitPlan, VisitView, flag_model, history_model, parse_import_flag,
    parse_import_timestamp, plan_import_history, str_view, timestamp_model, visit_view};
use crate::names::{clean_whitespace, collapse_spaces, split_guest_names, split_names_model};
use crate::store::{EventView, Guest, GuestStore, GuestView, StoreError, StoreView, same_identity,
    text_view, host_key};
use crate::text::{chars_of, fold_text, folded, same_text, trimmed};

verus! {

/// One raw record: a host, a field that lists guests, and optional signals
/// of a visit.
#[derive(Debug, Clone, PartialEq, Eq)]
pub struct CsvRow {
    pub member_name: Option<String>,
    pub guest_names: Option<String>,
    pub source_row: Option<i64>,
    pub check_in: Option<String>,
    pub check_in_time: Option<String>,
    pub check_out: Option<String>,
    pub check_out_time: Option<String>,
}

/// The model of a [`CsvRow`].
pub struct RowView {
    pub member_name: Option<Seq<char>>,
    pub guest_names: Option<Seq<char>>,
    pub source_row: Option<i64>,
    pub check_in: Option<Seq<char>>,
    pub check_in_time: Option<Seq<char>>,
    pub check_out: Option<Seq<char>>,
    pub check_out_time: Option<Seq<char>>,
}

impl View for CsvRow {
    type V = RowView;

    open spec fn view(&self) -> RowView {
        RowView {
            member_name: text_view(self.member_name),
            guest_names: text_view(self.guest_names),
            source_row: self.source_row,
            check_in: text_view(self.check_in),
            check_in_time: text_view(self.check_in_time),
            check_out: text_view(self.check_out),
            check_out_time: text_view(self.check_out_time),
        }
    }
}

/// Whether the guests that the store holds are dropped first.
#[derive(Debug, Clone, Copy, PartialEq, Eq, Structural)]
pub enum ImportMode {
    Replace,
    Append,
}

/// What an import reports: the guests it added, and the records it was
/// given.
#[derive(Debug, Clone, Copy, PartialEq, Eq, Structural)]
pub struct ImportSummary {
    pub inserted: usize,
    pub total_rows: usize,
}

/// One record as it was read.
#[derive(Debug, Clone, PartialEq, Eq)]
pub struct ParsedRow {
    pub host: Option<String>,
    pub names: Vec<Option<String>>,
    pub source_row: Option<i64>,
    pub visit: Option<VisitPlan>,
}

/// The model of a [`ParsedRow`].
pub struct ParsedRowView {
    pub host: Option<Seq<char>>,
    pub names: Seq<Option<Seq<char>>>,
    pub source_row: Option<i64>,
    pub visit: Option<VisitView>,
}

impl View for ParsedRow {
    type V = ParsedRowView;

    open spec fn view(&self) -> ParsedRowView {
        ParsedRowView {
            host: text_view(self.host),
            names: Seq::new(self.names@.len(), |k: int| text_view(self.names@[k])),
            source_row: self.source_row,
            visit: visit_view(self.visit),
        }
    }
}

/// The models of a sequence of raw records.
pub open spec fn row_views(rows: Seq<CsvRow>) -> Seq<RowView> {
    Seq::new(rows.len(), |k: int| rows[k]@)
}

/// The models of a sequence of records as read.
pub open spec fn parsed_views(rows: Seq<ParsedRow>) -> Seq<ParsedRowView> {
    Seq::new(rows.len(), |k: int| rows[k]@)
}

/// The operator under which an import records its visits.
pub open spec fn import_marker() -> Seq<char> {
    "import"@
}

/// The reading of a raw record, `now` being the current time.
pub open spec fn parse_row_model(row: RowView, now: Seq<char>) -> ParsedRowView {
    ParsedRowView {
        host: match row.member_name {
            Some(m) => Some(collapse_spaces(trimmed(m))),
            None => None,
        },
        names: match row.guest_names {
            Some(g) => split_names_model(g),
            None => Seq::<Option<Seq<char>>>::empty(),
        },
        source_row: row.source_row,
        visit: history_model(
            flag_model(row.check_in),
            flag_model(row.check_out),
            timestamp_model(row.check_in_time),
            timestamp_model(row.check_out_time),
            now,
        ),
    }
}

/// The readings of the raw records.
pub open spec fn parse_rows_model(rows: Seq<RowView>, now: Seq<char>) -> Seq<ParsedRowView> {
    Seq::new(rows.len(), |k: int| parse_row_model(rows[k], now))
}

/// The store with one more guest, which takes the next identity number.
pub open spec fn with_guest(
    s: StoreView,
    name: Seq<char>,
    host: Option<Seq<char>>,
    source_row: Option<i64>,
) -> StoreView {
    StoreView {
        guests: s.guests.push(
            GuestView {
                id: s.next_guest_id as i64,
                display_name: name,
                member_host: host,
                source_row,
            },
        ),
        next_guest_id: s.next_guest_id + 1,
        ..s
    }
}

/// Adding a guest as a function of the store: the store after it, and the
/// identity number given or the refusal.
pub open spec fn add_guest_model(
    s: StoreView,
    name: Seq<char>,
    host: Option<Seq<char>>,
    source_row: Option<i64>,
) -> (StoreView, Result<i64, StoreError>) {
    if s.has_identity(name, host) {
        (s, Err(StoreError::DuplicateGuest))
    } else if s.next_guest_id >= i64::MAX {
        (s, Err(StoreError::IdsExhausted))
    } else {
        (with_guest(s, name, host, source_row), Ok(s.next_guest_id as i64))
    }
}

/// The store with one more guest and the visit of its record, if there is
/// one. The visit is signed with the import marker, at its end only where
/// it is over.
pub open spec fn enroll_guest(
    s: StoreView,
    name: Seq<char>,
    host: Option<Seq<char>>,
    source_row: Option<i64>,
    visit: Option<VisitView>,
) -> StoreView {
    let added = with_guest(s, name, host, source_row);
    match visit {
        None => added,
        Some(v) => with_event(
            added,
            s.next_guest_id as i64,
            v.in_ts,
            v.out_ts,
            Some(import_marker()),
            if v.out_ts is Some {
                Some(import_marker())
            } else {
                None
            },
        ),
    }
}

/// The store after the first `upto` names of a record: a name that is
/// there and that no guest of the store carries, under the record's host,
/// becomes a guest.
pub open spec fn enroll_names(s: StoreView, row: ParsedRowView, upto: int) -> StoreView
    decreases upto,
{
    if upto <= 0 {
        s
    } else {
        let before = enroll_names(s, row, upto - 1);
        match row.names[upto - 1] {
            None => before,
            Some(name) => if before.has_identity(name, row.host) {
                before
            } else {
                enroll_guest(before, name, row.host, row.source_row, row.visit)
            },
        }
    }
}

/// The store after the first `upto` records.
pub open spec fn enroll_rows(s: StoreView, rows: Seq<ParsedRowView>, upto: int) -> StoreView
    decreases upto,
{
    if upto <= 0 {
        s
    } else {
        let before = enroll_rows(s, rows, upto - 1);
        enroll_names(before, rows[upto - 1], rows[upto - 1].names.len() as int)
    }
}

/// The number of names in the first `upto` records, absent ones included.
pub open spec fn name_count(rows: Seq<ParsedRowView>, upto: int) -> nat
    decreases upto,
{
    if upto <= 0 {
        0
    } else {
        name_count(rows, upto - 1) + rows[upto - 1].names.len()
    }
}

/// The store without guests and events. Identity numbers keep counting.
pub open spec fn cleared(s: StoreView) -> StoreView {
    StoreView { guests: Seq::<GuestView>::empty(), events: Seq::<EventView>::empty(), ..s }
}

/// Whether the store has an identity number left for each of `count` new
/// guests and for the visit of each.
pub open spec fn has_room(s: StoreView, count: nat) -> bool {
    s.next_guest_id + count <= i64::MAX && s.next_event_id + count <= i64::MAX
}

/// Import as a function of the store: the store after it, and what it
/// reports.
///
/// An import whose names could outrun the identity numbers is refused as a
/// whole. Otherwise the store, emptied first in `Replace` mode, takes the
/// records one by one.
pub open spec fn import_model(
    s: StoreView,
    rows: Seq<RowView>,
    mode: ImportMode,
    now: Seq<char>,
) -> (StoreView, Result<ImportSummary, StoreError>) {
    let parsed = parse_rows_model(rows, now);
    if !has_room(s, name_count(parsed, parsed.len() as int)) {
        (s, Err(StoreError::IdsExhausted))
    } else {
        let start = if mode == ImportMode::Replace {
            cleared(s)
        } else {
            s
        };
        let after = enroll_rows(start, parsed, parsed.len() as int);
        (
            after,
            Ok(
                ImportSummary {
                    inserted: (after.guests.len() - start.guests.len()) as usize,
                    total_rows: rows.len() as usize,
                },
            ),
        )
    }
}

/// The borrowed form of an optional text.
pub fn as_str_opt(text: &Option<String>) -> (out: Option<&str>)
    ensures
        str_view(out) == text_view(*text),
{
    match text {
        Some(s) => Some(s.as_str()),
        None => None,
    }
}

/// Reads one raw record, `now` being the current time.
pub fn parse_row(row: &CsvRow, now: &str) -> (out: ParsedRow)
    ensures
        out@ == parse_row_model(row@, now@),
{
    let check_in_flag = parse_import_flag(as_str_opt(&row.check_in));
    let check_out_flag = parse_import_flag(as_str_opt(&row.check_out));
    let check_in_time = parse_import_timestamp(as_str_opt(&row.check_in_time));
    let check_out_time = parse_import_timestamp(as_str_opt(&row.check_out_time));
    let host = match &row.member_name {
        Some(m) => Some(clean_whitespace(m.as_str())),
        None => None,
    };
    let names = match &row.guest_names {
        Some(g) => split_guest_names(g.as_str()),
        None => Vec::new(),
    };
    let visit = plan_import_history(
        check_in_flag,
        check_out_flag,
        check_in_time,
        check_out_time,
        now,
    );
    let out = ParsedRow { host, names, source_row: row.source_row, visit };
    assert(out@.names =~= parse_row_model(row@, now@).names);
    out
}

/// Adding a guest under a new identity keeps the rules of the store.
pub proof fn lemma_with_guest_wf(
    s: StoreView,
    name: Seq<char>,
    host: Option<Seq<char>>,
    source_row: Option<i64>,
)
    requires
        s.wf(),
        !s.has_identity(name, host),
        s.next_guest_id < i64::MAX,
    ensures
        with_guest(s, name, host, source_row).wf(),
        with_guest(s, name, host, source_row).has_guest(s.next_guest_id as i64),
        !with_guest(s, name, host, source_row).is_present(s.next_guest_id as i64),
{
    let t = with_guest(s, name, host, source_row);
    let n = s.guests.len() as int;
    assert(t.guests[n].id == s.next_guest_id);
    assert forall|i: int| 0 <= i < t.events.len() implies t.has_guest(
        (#[trigger] t.events[i]).guest_id,
    ) by {
        assert(s.has_guest(s.events[i].guest_id));
        let k = choose|k: int|
            0 <= k < s.guests.len() && #[trigger] s.guests[k].id == s.events[i].guest_id;
        assert(t.guests[k].id == s.events[i].guest_id);
    }
    assert forall|g: i64, i: int, j: int| #[trigger]
        t.open_at(g, i) && #[trigger] t.open_at(g, j) implies i == j by {
        assert(s.open_at(g, i) && s.open_at(g, j));
    }
    assert forall|i: int, j: int| 0 <= i < j < t.guests.len() implies !same_identity(
        #[trigger] t.guests[i],
        (#[trigger] t.guests[j]).display_name,
        t.guests[j].member_host,
    ) by {
        if j < n {
            assert(t.guests[i] == s.guests[i] && t.guests[j] == s.guests[j]);
        } else {
            assert(t.guests[i] == s.guests[i]);
        }
    }
    if t.is_present(s.next_guest_id as i64) {
        let i = choose|i: int| #[trigger] t.open_at(s.next_guest_id as i64, i);
        assert(s.has_guest(s.events[i].guest_id));
    }
}

impl GuestStore {
    /// Whether a guest with this name and host is in the store, ASCII
    /// letter case ignored and an absent host taken as the empty one.
    pub fn find_identity(&self, name: &str, host: &Option<String>) -> (found: bool)
        ensures
            found == self@.has_identity(name@, text_view(*host)),
    {
        let name_key = fold_text(&chars_of(name));
        let wanted_host = host_key_of(host);
        let mut i: usize = 0;
        while i < self.guests.len()
            invariant
                i <= self.guests.len(),
                name_key@ == folded(name@),
                wanted_host@ == host_key(text_view(*host)),
                forall|k: int|
                    0 <= k < i ==> !same_identity(
                        #[trigger] self@.guests[k],
                        name@,
                        text_view(*host),
                    ),
            decreases self.guests.len() - i,
        {
            let guest = &self.guests[i];
            let guest_name = fold_text(&chars_of(guest.display_name.as_str()));
            if same_text(&guest_name, &name_key) {
                let guest_host = host_key_of(&guest.member_host);
                if same_text(&guest_host, &wanted_host) {
                    assert(same_identity(self@.guests[i as int], name@, text_view(*host)));
                    return true;
                }
            }
            i += 1;
        }
        false
    }

    /// Adds a guest under the next identity number, which is returned.
    ///
    /// A guest whose name and host the store holds already is refused, and
    /// so is any guest once the identity numbers are used up.
    pub fn add_guest(
        &mut self,
        name: String,
        host: Option<String>,
        source_row: Option<i64>,
    ) -> (out: Result<i64, StoreError>)
        requires
            old(self)@.wf(),
        ensures
            final(self)@.wf(),
            final(self)@ == add_guest_model(old(self)@, name@, text_view(host), source_row).0,
            out == add_guest_model(old(self)@, name@, text_view(host), source_row).1,
    {
        if self.find_identity(name.as_str(), &host) {
            return Err(StoreError::DuplicateGuest);
        }
        if self.next_guest_id >= i64::MAX {
            return Err(StoreError::IdsExhausted);
        }
        let ghost before = self@;
        let id = self.next_guest_id;
        self.guests.push(Guest { id, display_name: name, member_host: host, source_row });
        self.next_guest_id = id + 1;
        proof {
            let after = with_guest(before, name@, text_view(host), source_row);
            assert(self@.guests =~= after.guests);
            assert(self@.events =~= after.events);
            lemma_with_guest_wf(before, name@, text_view(host), source_row);
        }
        Ok(id)
    }

    /// Drops every guest and every event. Identity numbers keep counting.
    pub fn clear(&mut self)
        requires
            old(self)@.wf(),
        ensures
            final(self)@.wf(),
            final(self)@ == cleared(old(self)@),
    {
        self.guests = Vec::new();
        self.events = Vec::new();
        assert(self@.guests =~= Seq::<GuestView>::empty());
        assert(self@.events =~= Seq::<EventView>::empty());
    }
}

/// The host under which a guest is compared with another.
fn host_key_of(host: &Option<String>) -> (out: Vec<char>)
    ensures
        out@ == host_key(text_view(*host)),
{
    match host {
        Some(h) => fold_text(&chars_of(h.as_str())),
        None => Vec::new(),
    }
}

/// A copy of a visit.
fn clone_visit(plan: &VisitPlan) -> (out: VisitPlan)
    ensures
        out@ == plan@,
{
    VisitPlan { in_ts: plan.in_ts.clone(), out_ts: clone_text(&plan.out_ts) }
}

/// Recording the visit of a record for a guest, as a function of the
/// store: the store after it, and whether the store took the visit.
///
/// Without a visit nothing changes. An open visit is refused for a guest
/// that is present; any visit is refused for a guest that the store does
/// not hold, and once the identity numbers are used up.
pub open spec fn apply_history_model(s: StoreView, guest_id: i64, visit: Option<VisitView>) -> (
    StoreView,
    Result<(), StoreError>,
) {
    match visit {
        None => (s, Ok(())),
        Some(v) => if v.out_ts is None && s.is_present(guest_id) {
            (s, Err(StoreError::AlreadyPresent))
        } else if let Some(refusal) = insert_refused(s, guest_id) {
            (s, Err(refusal))
        } else {
            (
                with_event(
                    s,
                    guest_id,
                    v.in_ts,
                    v.out_ts,
                    Some(import_marker()),
                    if v.out_ts is Some {
                        Some(import_marker())
                    } else {
                        None
                    },
                ),
                Ok(()),
            )
        },
    }
}

/// Records the visit of a record for a guest, signed with the import
/// marker.
pub fn apply_import_history(store: &mut GuestStore, guest_id: i64, visit: &Option<VisitPlan>) -> (out:
    Result<(), StoreError>)
    requires
        old(store)@.wf(),
    ensures
        final(store)@.wf(),
        final(store)@ == apply_history_model(old(store)@, guest_id, visit_view(*visit)).0,
        out == apply_history_model(old(store)@, guest_id, visit_view(*visit)).1,
{
    match visit {
        None => Ok(()),
        Some(plan) => {
            if plan.out_ts.is_none() && store.is_present(guest_id) {
                return Err(StoreError::AlreadyPresent);
            }
            let planned = clone_visit(plan);
            let out_by = if planned.out_ts.is_some() {
                Some("import".to_owned())
            } else {
                None
            };
            match store.insert_event(
                guest_id,
                planned.in_ts,
                planned.out_ts,
                Some("import".to_owned()),
                out_by,
            ) {
                Ok(_) => Ok(()),
                Err(refusal) => Err(refusal),
            }
        },
    }
}

/// The names of the first records are not more than the names of all.
pub proof fn lemma_name_count_grows(rows: Seq<ParsedRowView>, a: int, b: int)
    requires
        a <= b,
    ensures
        name_count(rows, a) <= name_count(rows, b),
    decreases b - a,
{
    if a < b {
        lemma_name_count_grows(rows, a, b - 1);
    }
}

/// Takes the names of one record into the store.
fn enroll_row(store: &mut GuestStore, row: &ParsedRow)
    requires
        old(store)@.wf(),
        has_room(old(store)@, row@.names.len()),
    ensures
        final(store)@.wf(),
        final(store)@ == enroll_names(old(store)@, row@, row@.names.len() as int),
        final(store)@.next_guest_id <= old(store)@.next_guest_id + row@.names.len(),
        final(store)@.next_event_id <= old(store)@.next_event_id + row@.names.len(),
        final(store)@.guests.len() >= old(store)@.guests.len(),
{
    let ghost before = store@;
    let mut j: usize = 0;
    while j < row.names.len()
        invariant
            j <= row.names.len(),
            store@.wf(),
            has_room(before, row@.names.len()),
            store@ == enroll_names(before, row@, j as int),
            store@.next_guest_id <= before.next_guest_id + j,
            store@.next_event_id <= before.next_event_id + j,
            store@.guests.len() >= before.guests.len(),
        decreases row.names.len() - j,
    {
        let ghost here = store@;
        assert(row@.names[j as int] == text_view(row.names@[j as int]));
        match &row.names[j] {
            None => {},
            Some(name) => {
                if !store.find_identity(name.as_str(), &row.host) {
                    proof {
                        lemma_with_guest_wf(here, name@, text_view(row.host), row.source_row);
                    }
                    match store.add_guest(name.clone(), clone_text(&row.host), row.source_row) {
                        Err(_) => {},
                        Ok(id) => {
                            // a guest just added is known and out, and room
                            // was left for its visit
                            let _ = apply_import_history(store, id, &row.visit);
                        },
                    }
                }
            },
        }
        j += 1;
    }
}

/// Merges the records into the store, `now` being the current time.
///
/// In `Replace` mode the store is emptied first. Each record is read, and
/// each of its names that no guest carries yet, under the record's host,
/// becomes a guest with the visit of the record. An import whose names
/// could outrun the identity numbers changes nothing and is refused.
pub fn import_rows_at(store: &mut GuestStore, rows: &Vec<CsvRow>, mode: ImportMode, now: &str) -> (out:
    Result<ImportSummary, StoreError>)
    requires
        old(store)@.wf(),
    ensures
        final(store)@.wf(),
        final(store)@ == import_model(old(store)@, row_views(rows@), mode, now@).0,
        out == import_model(old(store)@, row_views(rows@), mode, now@).1,
{
    let ghost before = store@;
    let mut parsed: Vec<ParsedRow> = Vec::new();
    let mut i: usize = 0;
    while i < rows.len()
        invariant
            i <= rows.len(),
            parsed@.len() == i,
            forall|k: int| 0 <= k < i ==> (#[trigger] parsed@[k])@ == parse_row_model(
                rows@[k]@,
                now@,
            ),
        decreases rows.len() - i,
    {
        parsed.push(parse_row(&rows[i], now));
        i += 1;
    }
    let ghost all = parsed_views(parsed@);
    assert(all =~= parse_rows_model(row_views(rows@), now@));
    let guest_room: u128 = (i64::MAX - store.next_guest_id) as u128;
    let event_room: u128 = (i64::MAX - store.next_event_id) as u128;
    let room: u128 = if guest_room < event_room {
        guest_room
    } else {
        event_room
    };
    let mut total: u128 = 0;
    let mut r: usize = 0;
    while r < parsed.len()
        invariant
            r <= parsed.len(),
            all == parsed_views(parsed@),
            all == parse_rows_model(row_views(rows@), now@),
            store@ == before,
            before.wf(),
            total == name_count(all, r as int),
            total <= room,
            room == i64::MAX - before.next_guest_id || room == i64::MAX - before.next_event_id,
            room <= i64::MAX - before.next_guest_id,
            room <= i64::MAX - before.next_event_id,
        decreases parsed.len() - r,
    {
        assert(all[r as int].names.len() == parsed@[r as int].names@.len());
        total = total + parsed[r].names.len() as u128;
        if total > room {
            proof {
                lemma_name_count_grows(all, r + 1, all.len() as int);
            }
            return Err(StoreError::IdsExhausted);
        }
        r += 1;
    }
    assert(has_room(before, name_count(all, all.len() as int)));
    let kept: usize = match mode {
        ImportMode::Replace => {
            store.clear();
            0
        },
        ImportMode::Append => store.guests.len(),
    };
    let ghost start = store@;
    let mut r: usize = 0;
    while r < parsed.len()
        invariant
            r <= parsed.len(),
            all == parsed_views(parsed@),
            store@.wf(),
            store@ == enroll_rows(start, all, r as int),
            store@.next_guest_id + name_count(all, all.len() as int) - name_count(all, r as int)
                <= i64::MAX,
            store@.next_event_id + name_count(all, all.len() as int) - name_count(all, r as int)
                <= i64::MAX,
            store@.guests.len() >= start.guests.len(),
            kept == start.guests.len(),
        decreases parsed.len() - r,
    {
        proof {
            lemma_name_count_grows(all, r + 1, all.len() as int);
            assert(all[r as int] == parsed@[r as int]@);
        }
        enroll_row(store, &parsed[r]);
        r += 1;
    }
    Ok(ImportSummary { inserted: store.guests.len() - kept, total_rows: rows.len() })
}

/// Merges the records into the store at the current time in Chicago.
///
/// Which time is read depends on the clock alone; whatever it is, the
/// import is the one that [`import_rows_at`] performs at that time.
pub fn import_rows(store: &mut GuestStore, rows: &Vec<CsvRow>, mode: ImportMode) -> (out: Result<
    ImportSummary,
    StoreError,
>)
    requires
        old(store)@.wf(),
    ensures
        final(store)@.wf(),
        exists|now: Seq<char>|
            final(store)@ == import_model(old(store)@, row_views(rows@), mode, now).0 && out
                == import_model(old(store)@, row_views(rows@), mode, now).1,
{
    let now = central_now_time_string();
    import_rows_at(store, rows, mode, now.as_str())
}

/// Whether `t` is `s` with guests and events added behind those of `s`,
/// all of them under identity numbers that `s` had not given yet.
pub open spec fn grown_from(t: StoreView, s: StoreView) -> bool {
    &&& s.guests.len() <= t.guests.len()
    &&& s.events.len() <= t.events.len()
    &&& s.next_guest_id <= t.next_guest_id
    &&& s.next_event_id <= t.next_event_id
    &&& forall|i: int| 0 <= i < s.guests.len() ==> #[trigger] t.guests[i] == s.guests[i]
    &&& forall|i: int| 0 <= i < s.events.len() ==> #[trigger] t.events[i] == s.events[i]
    &&& forall|i: int|
        s.guests.len() <= i < t.guests.len() ==> (#[trigger] t.guests[i]).id >= s.next_guest_id
    &&& forall|i: int|
        s.events.len() <= i < t.events.len() ==> (#[trigger] t.events[i]).id >= s.next_event_id
}

/// Whether each of the first `upto` names of the record is the name of a
/// guest of the store, under the record's host.
pub open spec fn names_known(s: StoreView, row: ParsedRowView, upto: int) -> bool {
    forall|k: int|
        0 <= k < upto && k < row.names.len() && (#[trigger] row.names[k]) is Some
            ==> s.has_identity(row.names[k]->0, row.host)
}

/// Whether each name of the first `upto` records is the name of a guest of
/// the store, under the host of its record.
pub open spec fn rows_known(s: StoreView, rows: Seq<ParsedRowView>, upto: int) -> bool {
    forall|r: int|
        0 <= r < upto && r < rows.len() ==> names_known(
            s,
            #[trigger] rows[r],
            rows[r].names.len() as int,
        )
}

/// A store that grew keeps the guests it had, so it knows every name that
/// it knew.
pub proof fn lemma_grown_keeps_identities(
    t: StoreView,
    s: StoreView,
    name: Seq<char>,
    host: Option<Seq<char>>,
)
    requires
        grown_from(t, s),
        s.has_identity(name, host),
    ensures
        t.has_identity(name, host),
{
    let i = choose|i: int|
        0 <= i < s.guests.len() && same_identity(#[trigger] s.guests[i], name, host);
    assert(same_identity(t.guests[i], name, host));
}

/// Taking one guest in keeps the rules of the store, and the store grows
/// by that guest and at most one event.
pub proof fn lemma_enroll_guest(
    s: StoreView,
    name: Seq<char>,
    host: Option<Seq<char>>,
    source_row: Option<i64>,
    visit: Option<VisitView>,
)
    requires
        s.wf(),
        !s.has_identity(name, host),
        s.next_guest_id < i64::MAX,
        s.next_event_id < i64::MAX,
    ensures
        enroll_guest(s, name, host, source_row, visit).wf(),
        grown_from(enroll_guest(s, name, host, source_row, visit), s),
        enroll_guest(s, name, host, source_row, visit).has_identity(name, host),
        enroll_guest(s, name, host, source_row, visit).guests.len() == s.guests.len() + 1,
        enroll_guest(s, name, host, source_row, visit).next_guest_id == s.next_guest_id + 1,
        enroll_guest(s, name, host, source_row, visit).next_event_id <= s.next_event_id + 1,
{
    let added = with_guest(s, name, host, source_row);
    lemma_with_guest_wf(s, name, host, source_row);
    let t = enroll_guest(s, name, host, source_row, visit);
    match visit {
        None => {},
        Some(v) => {
            lemma_with_event_wf(
                added,
                s.next_guest_id as i64,
                v.in_ts,
                v.out_ts,
                Some(import_marker()),
                if v.out_ts is Some {
                    Some(import_marker())
                } else {
                    None
                },
            );
        },
    }
    assert(same_identity(t.guests[s.guests.len() as int], name, host));
}

/// Taking the first `upto` names of a record in keeps the rules of the
/// store; the store grows, by no more guests than names, and knows each of
/// those names afterwards.
pub proof fn lemma_enroll_names(s: StoreView, row: ParsedRowView, upto: int)
    requires
        s.wf(),
        0 <= upto <= row.names.len(),
        has_room(s, upto as nat),
    ensures
        enroll_names(s, row, upto).wf(),
        grown_from(enroll_names(s, row, upto), s),
        names_known(enroll_names(s, row, upto), row, upto),
        enroll_names(s, row, upto).next_guest_id <= s.next_guest_id + upto,
        enroll_names(s, row, upto).next_event_id <= s.next_event_id + upto,
    decreases upto,
{
    if upto > 0 {
        lemma_enroll_names(s, row, upto - 1);
        let before = enroll_names(s, row, upto - 1);
        let after = enroll_names(s, row, upto);
        match row.names[upto - 1] {
            None => {},
            Some(name) => {
                if !before.has_identity(name, row.host) {
                    lemma_enroll_guest(before, name, row.host, row.source_row, row.visit);
                }
            },
        }
        assert(grown_from(after, before));
        assert forall|k: int|
            0 <= k < upto && k < row.names.len() && (#[trigger] row.names[k]) is Some implies after.has_identity(
            row.names[k]->0,
            row.host,
        ) by {
            if k < upto - 1 {
                lemma_grown_keeps_identities(after, before, row.names[k]->0, row.host);
            }
        }
    }
}

/// Taking the first `upto` records in keeps the rules of the store; the
/// store grows and knows each name of those records afterwards.
pub proof fn lemma_enroll_rows(s: StoreView, rows: Seq<ParsedRowView>, upto: int)
    requires
        s.wf(),
        0 <= upto <= rows.len(),
        has_room(s, name_count(rows, upto)),
    ensures
        enroll_rows(s, rows, upto).wf(),
        grown_from(enroll_rows(s, rows, upto), s),
        rows_known(enroll_rows(s, rows, upto), rows, upto),
        enroll_rows(s, rows, upto).next_guest_id <= s.next_guest_id + name_count(rows, upto),
        enroll_rows(s, rows, upto).next_event_id <= s.next_event_id + name_count(rows, upto),
    decreases upto,
{
    if upto > 0 {
        lemma_enroll_rows(s, rows, upto - 1);
        let before = enroll_rows(s, rows, upto - 1);
        let row = rows[upto - 1];
        lemma_enroll_names(before, row, row.names.len() as int);
        let after = enroll_rows(s, rows, upto);
        assert(grown_from(after, before));
        assert forall|r: int| 0 <= r < upto && r < rows.len() implies names_known(
            after,
            #[trigger] rows[r],
            rows[r].names.len() as int,
        ) by {
            if r < upto - 1 {
                assert(names_known(before, rows[r], rows[r].names.len() as int));
                assert forall|k: int|
                    0 <= k < rows[r].names.len() && (#[trigger] rows[r].names[k]) is Some implies after.has_identity(
                    rows[r].names[k]->0,
                    rows[r].host,
                ) by {
                    lemma_grown_keeps_identities(after, before, rows[r].names[k]->0, rows[r].host);
                }
            }
        }
    }
}

/// A record whose names the store knows changes nothing.
pub proof fn lemma_known_names_change_nothing(s: StoreView, row: ParsedRowView, upto: int)
    requires
        0 <= upto <= row.names.len(),
        names_known(s, row, upto),
    ensures
        enroll_names(s, row, upto) == s,
    decreases upto,
{
    if upto > 0 {
        lemma_known_names_change_nothing(s, row, upto - 1);
    }
}

/// Records whose names the store knows change nothing.
pub proof fn lemma_known_rows_change_nothing(s: StoreView, rows: Seq<ParsedRowView>, upto: int)
    requires
        0 <= upto <= rows.len(),
        rows_known(s, rows, upto),
    ensures
        enroll_rows(s, rows, upto) == s,
    decreases upto,
{
    if upto > 0 {
        lemma_known_rows_change_nothing(s, rows, upto - 1);
        lemma_known_names_change_nothing(s, rows[upto - 1], rows[upto - 1].names.len() as int);
    }
}

/// An import keeps the rules of the store: in particular, no two guests
/// share a name and a host afterwards.
pub proof fn law_import_keeps_rules(
    s: StoreView,
    rows: Seq<RowView>,
    mode: ImportMode,
    now: Seq<char>,
)
    requires
        s.wf(),
    ensures
        import_model(s, rows, mode, now).0.wf(),
        import_model(s, rows, mode, now).0.identities_unique(),
{
    let parsed = parse_rows_model(rows, now);
    let n = parsed.len() as int;
    if has_room(s, name_count(parsed, n)) {
        let start = if mode == ImportMode::Replace {
            cleared(s)
        } else {
            s
        };
        lemma_enroll_rows(start, parsed, n);
    }
}

/// An import reports as inserted the guests by which the store grew, and
/// as total the records that it was given.
pub proof fn law_import_counts(s: StoreView, rows: Seq<RowView>, mode: ImportMode, now: Seq<char>)
    requires
        s.wf(),
        rows.len() <= usize::MAX,
        import_model(s, rows, mode, now).0.guests.len() <= usize::MAX,
    ensures
        import_model(s, rows, mode, now).1 matches Ok(summary) ==> summary.total_rows
            == rows.len() && summary.inserted + (if mode == ImportMode::Replace {
            0
        } else {
            s.guests.len() as int
        }) == import_model(s, rows, mode, now).0.guests.len(),
{
    let parsed = parse_rows_model(rows, now);
    let n = parsed.len() as int;
    if has_room(s, name_count(parsed, n)) {
        let start = if mode == ImportMode::Replace {
            cleared(s)
        } else {
            s
        };
        lemma_enroll_rows(start, parsed, n);
    }
}

/// An import in `Append` mode touches no guest and no event that the store
/// held: they stand where they stood, and what the import adds stands
/// behind them.
pub proof fn law_append_keeps_records(s: StoreView, rows: Seq<RowView>, now: Seq<char>)
    requires
        s.wf(),
    ensures
        grown_from(import_model(s, rows, ImportMode::Append, now).0, s),
{
    let parsed = parse_rows_model(rows, now);
    let n = parsed.len() as int;
    if has_room(s, name_count(parsed, n)) {
        lemma_enroll_rows(s, parsed, n);
    }
}

/// Importing the same records a second time, in `Append` mode, inserts
/// nothing: the store stays as the first import left it, whatever the time
/// of either import.
pub proof fn law_import_twice(
    s: StoreView,
    rows: Seq<RowView>,
    mode: ImportMode,
    first_now: Seq<char>,
    second_now: Seq<char>,
)
    requires
        s.wf(),
        rows.len() <= usize::MAX,
        import_model(s, rows, mode, first_now).1 is Ok,
        import_model(
            import_model(s, rows, mode, first_now).0,
            rows,
            ImportMode::Append,
            second_now,
        ).1 is Ok,
    ensures
        import_model(
            import_model(s, rows, mode, first_now).0,
            rows,
            ImportMode::Append,
            second_now,
        ) == (
            import_model(s, rows, mode, first_now).0,
            Ok::<ImportSummary, StoreError>(
                ImportSummary { inserted: 0, total_rows: rows.len() as usize },
            ),
        ),
{
    let first = parse_rows_model(rows, first_now);
    let second = parse_rows_model(rows, second_now);
    let n = rows.len() as int;
    let start = if mode == ImportMode::Replace {
        cleared(s)
    } else {
        s
    };
    lemma_enroll_rows(start, first, n);
    let after = enroll_rows(start, first, n);
    assert forall|r: int| 0 <= r < n implies names_known(
        after,
        #[trigger] second[r],
        second[r].names.len() as int,
    ) by {
        assert(names_known(after, first[r], first[r].names.len() as int));
        assert(second[r].names == first[r].names);
        assert(second[r].host == first[r].host);
    }
    lemma_known_rows_change_nothing(after, second, n);
}

/// An import in `Replace` mode leaves none of the guests and none of the
/// events that the store held: every guest and every event afterwards
/// carries an identity number that the store had not given before. The
/// outcome is that of the same import, in `Append` mode, into the emptied
/// store.
pub proof fn law_replace_clears(s: StoreView, rows: Seq<RowView>, now: Seq<char>)
    requires
        s.wf(),
        import_model(s, rows, ImportMode::Replace, now).1 is Ok,
    ensures
        import_model(s, rows, ImportMode::Replace, now) == import_model(
            cleared(s),
            rows,
            ImportMode::Append,
            now,
        ),
        forall|i: int|
            0 <= i < import_model(s, rows, ImportMode::Replace, now).0.guests.len() ==> (
            #[trigger] import_model(s, rows, ImportMode::Replace, now).0.guests[i]).id
                >= s.next_guest_id,
        forall|i: int|
            0 <= i < import_model(s, rows, ImportMode::Replace, now).0.events.len() ==> (
            #[trigger] import_model(s, rows, ImportMode::Replace, now).0.events[i]).id
                >= s.next_event_id,
        forall|i: int|
            0 <= i < s.guests.len() ==> !import_model(
                s,
                rows,
                ImportMode::Replace,
                now,
            ).0.has_guest((#[trigger] s.guests[i]).id),
{
    let parsed = parse_rows_model(rows, now);
    let n = parsed.len() as int;
    lemma_enroll_rows(cleared(s), parsed, n);
    let after = enroll_rows(cleared(s), parsed, n);
    assert(after == import_model(s, rows, ImportMode::Replace, now).0);
    assert forall|i: int| 0 <= i < s.guests.len() implies !after.has_guest(
        (#[trigger] s.guests[i]).id,
    ) by {
        if after.has_guest(s.guests[i].id) {
            let k = choose|k: int|
                0 <= k < after.guests.len() && #[trigger] after.guests[k].id == s.guests[i].id;
            assert(after.guests[k].id >= s.next_guest_id);
        }
    }
}

} // verus!

//! Building a store from records kept elsewhere: the records are taken
//! only if they keep every rule of the store.

use vstd::prelude::*;
use crate::store::{CheckinEvent, EventView, Guest, GuestStore, GuestView, StoreError, StoreView,
    event_views, guest_views, host_key, same_identity};
use crate::text::{chars_of, fold_text, folded, same_text};

verus! {

/// The identity number that follows those of the sequence, which stand in
/// rising order: one more than the last, or 1 for an empty sequence.
pub open spec fn next_after(ids: Seq<i64>) -> int {
    if ids.len() == 0 {
        1
    } else {
        ids.last() + 1
    }
}

/// The identity numbers of a sequence of guests.
pub open spec fn ids_of_guests(guests: Seq<GuestView>) -> Seq<i64> {
    Seq::new(guests.len(), |i: int| guests[i].id)
}

/// The identity numbers of a sequence of events.
pub open spec fn ids_of_events(events: Seq<EventView>) -> Seq<i64> {
    Seq::new(events.len(), |i: int| events[i].id)
}

/// The store that holds exactly these records and gives these identity
/// numbers next.
pub open spec fn restored_model(
    guests: Seq<GuestView>,
    events: Seq<EventView>,
    next_guest_id: i64,
    next_event_id: i64,
) -> StoreView {
    StoreView {
        guests,
        events,
        next_guest_id: next_guest_id as int,
        next_event_id: next_event_id as int,
    }
}

/// The store that holds exactly these records and goes on counting behind
/// the last of them.
pub open spec fn records_model(guests: Seq<GuestView>, events: Seq<EventView>) -> StoreView {
    StoreView {
        guests,
        events,
        next_guest_id: next_after(ids_of_guests(guests)),
        next_event_id: next_after(ids_of_events(events)),
    }
}

/// Whether the numbers are positive, rise strictly, and stay below `next`,
/// which is itself a number that can be given.
pub open spec fn ids_rise(ids: Seq<i64>, next: int) -> bool {
    &&& 1 <= next <= i64::MAX
    &&& forall|i: int| 0 <= i < ids.len() ==> 0 < #[trigger] ids[i] < next
    &&& forall|i: int, j: int| 0 <= i < j < ids.len() ==> #[trigger] ids[i] < #[trigger] ids[j]
}

/// Whether the numbers are positive, rise strictly, and stay below `next`.
fn check_ids(ids: &Vec<i64>, next: i64) -> (ok: bool)
    ensures
        ok == ids_rise(ids@, next as int),
{
    if next < 1 {
        return false;
    }
    let mut last: i64 = 0;
    let mut i: usize = 0;
    while i < ids.len()
        invariant
            i <= ids.len(),
            1 <= next,
            i == 0 ==> last == 0,
            i > 0 ==> last == ids@[i - 1],
            forall|k: int| 0 <= k < i ==> 0 < #[trigger] ids@[k] <= last,
            forall|a: int, b: int| 0 <= a < b < i ==> #[trigger] ids@[a] < #[trigger] ids@[b],
        decreases ids.len() - i,
    {
        if ids[i] <= last {
            proof {
                if i > 0 {
                    assert(!(ids@[i - 1] < ids@[i as int]));
                } else {
                    assert(!(0 < ids@[0]));
                }
            }
            return false;
        }
        last = ids[i];
        i += 1;
    }
    if last >= next {
        assert(ids@.len() > 0 && !(ids@[ids@.len() - 1] < next));
        return false;
    }
    true
}

/// The identity number that follows those of the sequence, where there is
/// one.
fn next_id(ids: &Vec<i64>) -> (out: Option<i64>)
    ensures
        out matches Some(next) ==> next == next_after(ids@),
        out is None ==> next_after(ids@) > i64::MAX,
{
    if ids.len() == 0 {
        Some(1)
    } else {
        let last = ids[ids.len() - 1];
        if last == i64::MAX {
            None
        } else {
            Some(last + 1)
        }
    }
}

impl GuestStore {
    /// Whether an earlier guest has the name and the host of the guest at
    /// `j`.
    fn identity_taken(&self, j: usize) -> (taken: bool)
        requires
            j < self@.guests.len(),
        ensures
            taken == exists|i: int|
                0 <= i < j && same_identity(
                    #[trigger] self@.guests[i],
                    self@.guests[j as int].display_name,
                    self@.guests[j as int].member_host,
                ),
    {
        let name = fold_text(&chars_of(self.guests[j].display_name.as_str()));
        let host = match &self.guests[j].member_host {
            Some(h) => fold_text(&chars_of(h.as_str())),
            None => Vec::new(),
        };
        let mut i: usize = 0;
        while i < j
            invariant
                i <= j < self@.guests.len(),
                name@ == folded(self@.guests[j as int].display_name),
                host@ == host_key(self@.guests[j as int].member_host),
                forall|k: int|
                    0 <= k < i ==> !same_identity(
                        #[trigger] self@.guests[k],
                        self@.guests[j as int].display_name,
                        self@.guests[j as int].member_host,
                    ),
            decreases j - i,
        {
            let other = &self.guests[i];
            if same_text(&fold_text(&chars_of(other.display_name.as_str())), &name) {
                let other_host = match &other.member_host {
                    Some(h) => fold_text(&chars_of(h.as_str())),
                    None => Vec::new(),
                };
                if same_text(&other_host, &host) {
                    assert(same_identity(
                        self@.guests[i as int],
                        self@.guests[j as int].display_name,
                        self@.guests[j as int].member_host,
                    ));
                    return true;
                }
            }
            i += 1;
        }
        false
    }

    /// Whether an earlier event of the same guest is open.
    fn open_before(&self, j: usize) -> (found: bool)
        requires
            j < self@.events.len(),
        ensures
            found == exists|i: int|
                0 <= i < j && #[trigger] self@.open_at(self@.events[j as int].guest_id, i),
    {
        let guest_id = self.events[j].guest_id;
        let mut i: usize = 0;
        while i < j
            invariant
                i <= j < self@.events.len(),
                guest_id == self@.events[j as int].guest_id,
                forall|k: int| 0 <= k < i ==> !self@.open_at(guest_id, k),
            decreases j - i,
        {
            if self.events[i].guest_id == guest_id && self.events[i].out_ts.is_none() {
                assert(self@.open_at(guest_id, i as int));
                return true;
            }
            i += 1;
        }
        false
    }

    /// Whether the guests keep the rule that no two share a name and a
    /// host.
    fn check_identities(&self) -> (ok: bool)
        ensures
            ok == self@.identities_unique(),
    {
        let mut j: usize = 0;
        while j < self.guests.len()
            invariant
                j <= self.guests.len(),
                forall|a: int, b: int|
                    0 <= a < b < j ==> !same_identity(
                        #[trigger] self@.guests[a],
                        (#[trigger] self@.guests[b]).display_name,
                        self@.guests[b].member_host,
                    ),
            decreases self.guests.len() - j,
        {
            if self.identity_taken(j) {
                return false;
            }
            j += 1;
        }
        true
    }

    /// Whether the events keep the rules that are theirs: each belongs to
    /// a guest, no guest has two open ones, and an open one names nobody
    /// who closed it.
    fn check_events(&self) -> (ok: bool)
        ensures
            ok == (self@.events_owned() && self@.at_most_one_open()
                && self@.open_events_unsigned()),
    {
        let mut j: usize = 0;
        while j < self.events.len()
            invariant
                j <= self.events.len(),
                forall|k: int|
                    0 <= k < j ==> self@.has_guest((#[trigger] self@.events[k]).guest_id),
                forall|k: int|
                    0 <= k < j && (#[trigger] self@.events[k]).out_ts is None
                        ==> self@.events[k].out_by is None,
                forall|g: i64, a: int, b: int|
                    0 <= a < j && 0 <= b < j && #[trigger] self@.open_at(g, a)
                        && #[trigger] self@.open_at(g, b) ==> a == b,
            decreases self.events.len() - j,
        {
            let event = &self.events[j];
            if !self.has_guest(event.guest_id) {
                assert(!self@.has_guest(self@.events[j as int].guest_id));
                return false;
            }
            if event.out_ts.is_none() {
                if event.out_by.is_some() {
                    assert(self@.events[j as int].out_ts is None);
                    return false;
                }
                if self.open_before(j) {
                    proof {
                        let g = self@.events[j as int].guest_id;
                        let i = choose|i: int| 0 <= i < j && #[trigger] self@.open_at(g, i);
                        assert(self@.open_at(g, j as int));
                    }
                    return false;
                }
            }
            j += 1;
        }
        proof {
            assert forall|g: i64, a: int, b: int| #[trigger]
                self@.open_at(g, a) && #[trigger] self@.open_at(g, b) implies a == b by {}
        }
        true
    }

    /// A store of these records, which gives these identity numbers next.
    ///
    /// The records are taken if and only if, with these numbers, they keep
    /// every rule of the store; otherwise `Inconsistent` is returned.
    pub fn restore(
        guests: Vec<Guest>,
        events: Vec<CheckinEvent>,
        next_guest_id: i64,
        next_event_id: i64,
    ) -> (out: Result<GuestStore, StoreError>)
        ensures
            out is Ok <==> restored_model(
                guest_views(guests@),
                event_views(events@),
                next_guest_id,
                next_event_id,
            ).wf(),
            out matches Ok(store) ==> store@ == restored_model(
                guest_views(guests@),
                event_views(events@),
                next_guest_id,
                next_event_id,
            ),
            out matches Err(refusal) ==> refusal == StoreError::Inconsistent,
    {
        let ghost model = restored_model(
            guest_views(guests@),
            event_views(events@),
            next_guest_id,
            next_event_id,
        );
        let guest_ids = ids_of(&guests);
        let event_ids = event_ids_of(&events);
        proof {
            lemma_ordered_ids_rise(model);
        }
        if !check_ids(&guest_ids, next_guest_id) {
            return Err(StoreError::Inconsistent);
        }
        if !check_ids(&event_ids, next_event_id) {
            return Err(StoreError::Inconsistent);
        }
        let store = GuestStore { guests, events, next_guest_id, next_event_id };
        assert(store@ == model);
        if !store.check_events() {
            return Err(StoreError::Inconsistent);
        }
        if !store.check_identities() {
            return Err(StoreError::Inconsistent);
        }
        Ok(store)
    }

    /// A store of these records, which goes on counting behind the last of
    /// them.
    ///
    /// The records are taken if and only if they keep every rule of the
    /// store; otherwise `Inconsistent` is returned.
    pub fn from_records(guests: Vec<Guest>, events: Vec<CheckinEvent>) -> (out: Result<
        GuestStore,
        StoreError,
    >)
        ensures
            out is Ok <==> records_model(guest_views(guests@), event_views(events@)).wf(),
            out matches Ok(store) ==> store@ == records_model(
                guest_views(guests@),
                event_views(events@),
            ),
            out matches Err(refusal) ==> refusal == StoreError::Inconsistent,
    {
        let next_guest_id = next_id(&ids_of(&guests));
        let next_event_id = next_id(&event_ids_of(&events));
        match (next_guest_id, next_event_id) {
            (Some(next_guest), Some(next_event)) => GuestStore::restore(
                guests,
                events,
                next_guest,
                next_event,
            ),
            _ => Err(StoreError::Inconsistent),
        }
    }

    /// The identity number that the next guest takes.
    pub fn next_guest_id(&self) -> (next: i64)
        ensures
            next == self@.next_guest_id,
    {
        self.next_guest_id
    }

    /// The identity number that the next event takes.
    pub fn next_event_id(&self) -> (next: i64)
        ensures
            next == self@.next_event_id,
    {
        self.next_event_id
    }
}

/// The identity numbers of the guests.
fn ids_of(guests: &Vec<Guest>) -> (ids: Vec<i64>)
    ensures
        ids@ == ids_of_guests(guest_views(guests@)),
{
    let mut ids: Vec<i64> = Vec::new();
    let mut i: usize = 0;
    while i < guests.len()
        invariant
            i <= guests.len(),
            ids@.len() == i,
            forall|k: int| 0 <= k < i ==> ids@[k] == guests@[k].id,
        decreases guests.len() - i,
    {
        ids.push(guests[i].id);
        i += 1;
    }
    assert(ids@ =~= ids_of_guests(guest_views(guests@)));
    ids
}

/// The identity numbers of the events.
fn event_ids_of(events: &Vec<CheckinEvent>) -> (ids: Vec<i64>)
    ensures
        ids@ == ids_of_events(event_views(events@)),
{
    let mut ids: Vec<i64> = Vec::new();
    let mut i: usize = 0;
    while i < events.len()
        invariant
            i <= events.len(),
            ids@.len() == i,
            forall|k: int| 0 <= k < i ==> ids@[k] == events@[k].id,
        decreases events.len() - i,
    {
        ids.push(events[i].id);
        i += 1;
    }
    assert(ids@ =~= ids_of_events(event_views(events@)));
    ids
}

/// The identity numbers of a store rise exactly when its guests and its
/// events are ordered.
pub proof fn lemma_ordered_ids_rise(s: StoreView)
    ensures
        s.guest_ids_ordered() <==> ids_rise(ids_of_guests(s.guests), s.next_guest_id),
        s.event_ids_ordered() <==> ids_rise(ids_of_events(s.events), s.next_event_id),
{
    let g = ids_of_guests(s.guests);
    if s.guest_ids_ordered() {
        assert forall|i: int| 0 <= i < g.len() implies 0 < #[trigger] g[i] < s.next_guest_id by {
            assert(0 < s.guests[i].id);
        }
        assert forall|i: int, j: int| 0 <= i < j < g.len() implies #[trigger] g[i]
            < #[trigger] g[j] by {
            assert(s.guests[i].id < s.guests[j].id);
        }
    }
    if ids_rise(g, s.next_guest_id) {
        assert forall|i: int| 0 <= i < s.guests.len() implies 0 < (#[trigger] s.guests[i]).id
            < s.next_guest_id by {
            assert(0 < g[i]);
        }
        assert forall|i: int, j: int| 0 <= i < j < s.guests.len() implies (
        #[trigger] s.guests[i]).id < (#[trigger] s.guests[j]).id by {
            assert(g[i] < g[j]);
        }
    }
    let e = ids_of_events(s.events);
    if s.event_ids_ordered() {
        assert forall|i: int| 0 <= i < e.len() implies 0 < #[trigger] e[i] < s.next_event_id by {
            assert(0 < s.events[i].id);
        }
        assert forall|i: int, j: int| 0 <= i < j < e.len() implies #[trigger] e[i]
            < #[trigger] e[j] by {
            assert(s.events[i].id < s.events[j].id);
        }
    }
    if ids_rise(e, s.next_event_id) {
        assert forall|i: int| 0 <= i < s.events.len() implies 0 < (#[trigger] s.events[i]).id
            < s.next_event_id by {
            assert(0 < e[i]);
        }
        assert forall|i: int, j: int| 0 <= i < j < s.events.len() implies (
        #[trigger] s.events[i]).id < (#[trigger] s.events[j]).id by {
            assert(e[i] < e[j]);
        }
    }
}

} // verus!

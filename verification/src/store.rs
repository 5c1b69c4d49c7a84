//! The guest store: the guests of an event and the log of their visits.
//!
//! The store is modelled by a [`StoreView`]: two sequences of plain records
//! and the two identities that the next insertions will use. Every rule of
//! the store is a predicate over that model, gathered in
//! [`StoreView::wf`].

use vstd::prelude::*;
use crate::text::folded;

verus! {

/// A guest of the event.
#[derive(Debug, Clone, PartialEq, Eq)]
pub struct Guest {
    pub id: i64,
    pub display_name: String,
    pub member_host: Option<String>,
    pub source_row: Option<i64>,
}

/// One visit of a guest: the guest is present while `out_ts` is absent.
#[derive(Debug, Clone, PartialEq, Eq)]
pub struct CheckinEvent {
    pub id: i64,
    pub guest_id: i64,
    pub in_ts: String,
    pub out_ts: Option<String>,
    pub in_by: Option<String>,
    pub out_by: Option<String>,
}

/// The model of a [`Guest`].
pub struct GuestView {
    pub id: i64,
    pub display_name: Seq<char>,
    pub member_host: Option<Seq<char>>,
    pub source_row: Option<i64>,
}

/// The model of a [`CheckinEvent`].
pub struct EventView {
    pub id: i64,
    pub guest_id: i64,
    pub in_ts: Seq<char>,
    pub out_ts: Option<Seq<char>>,
    pub in_by: Option<Seq<char>>,
    pub out_by: Option<Seq<char>>,
}

/// The model of a [`GuestStore`].
pub struct StoreView {
    pub guests: Seq<GuestView>,
    pub events: Seq<EventView>,
    pub next_guest_id: int,
    pub next_event_id: int,
}

/// Why the store refused a change.
#[derive(Debug, Clone, Copy, PartialEq, Eq, Structural)]
pub enum StoreError {
    /// An event was to be recorded for a guest that the store does not hold.
    UnknownGuest,
    /// No identity is left for a new record.
    IdsExhausted,
    /// An event was to be reopened while its guest is present through
    /// another one.
    AlreadyPresent,
    /// A guest was to be added whose name and host the store holds already.
    DuplicateGuest,
    /// The records handed over break a rule of the store.
    Inconsistent,
}

/// The guests of an event and the log of their visits.
pub struct GuestStore {
    pub(crate) guests: Vec<Guest>,
    pub(crate) events: Vec<CheckinEvent>,
    pub(crate) next_guest_id: i64,
    pub(crate) next_event_id: i64,
}

/// The model of an optional text.
pub open spec fn text_view(text: Option<String>) -> Option<Seq<char>> {
    match text {
        Some(s) => Some(s@),
        None => None,
    }
}

/// The host under which a guest is compared with another: an absent host
/// counts as the empty one, and ASCII letter case is ignored.
pub open spec fn host_key(host: Option<Seq<char>>) -> Seq<char> {
    match host {
        Some(h) => folded(h),
        None => Seq::<char>::empty(),
    }
}

/// Whether a guest is the one that `name` and `host` describe: the names
/// and the hosts agree when ASCII letter case is ignored.
pub open spec fn same_identity(g: GuestView, name: Seq<char>, host: Option<Seq<char>>) -> bool {
    folded(g.display_name) == folded(name) && host_key(g.member_host) == host_key(host)
}

impl View for Guest {
    type V = GuestView;

    open spec fn view(&self) -> GuestView {
        GuestView {
            id: self.id,
            display_name: self.display_name@,
            member_host: text_view(self.member_host),
            source_row: self.source_row,
        }
    }
}

impl View for CheckinEvent {
    type V = EventView;

    open spec fn view(&self) -> EventView {
        EventView {
            id: self.id,
            guest_id: self.guest_id,
            in_ts: self.in_ts@,
            out_ts: text_view(self.out_ts),
            in_by: text_view(self.in_by),
            out_by: text_view(self.out_by),
        }
    }
}

/// The models of a sequence of guests.
pub open spec fn guest_views(guests: Seq<Guest>) -> Seq<GuestView> {
    Seq::new(guests.len(), |i: int| guests[i]@)
}

/// The models of a sequence of events.
pub open spec fn event_views(events: Seq<CheckinEvent>) -> Seq<EventView> {
    Seq::new(events.len(), |i: int| events[i]@)
}

impl View for GuestStore {
    type V = StoreView;

    open(crate) spec fn view(&self) -> StoreView {
        StoreView {
            guests: guest_views(self.guests@),
            events: event_views(self.events@),
            next_guest_id: self.next_guest_id as int,
            next_event_id: self.next_event_id as int,
        }
    }
}

impl StoreView {
    /// The store without any record.
    pub open spec fn empty() -> StoreView {
        StoreView {
            guests: Seq::<GuestView>::empty(),
            events: Seq::<EventView>::empty(),
            next_guest_id: 1,
            next_event_id: 1,
        }
    }

    /// Whether the store holds a guest with this identity number.
    pub open spec fn has_guest(self, guest_id: i64) -> bool {
        exists|i: int| 0 <= i < self.guests.len() && #[trigger] self.guests[i].id == guest_id
    }

    /// Whether the store holds an event with this identity number.
    pub open spec fn has_event(self, event_id: i64) -> bool {
        exists|i: int| 0 <= i < self.events.len() && #[trigger] self.events[i].id == event_id
    }

    /// Whether the event at `i` is an open event of the guest.
    pub open spec fn open_at(self, guest_id: i64, i: int) -> bool {
        0 <= i < self.events.len() && self.events[i].guest_id == guest_id
            && self.events[i].out_ts is None
    }

    /// Whether the guest is present: one of its events is open.
    pub open spec fn is_present(self, guest_id: i64) -> bool {
        exists|i: int| self.open_at(guest_id, i)
    }

    /// Whether the guest has any event, open or closed.
    pub open spec fn has_history(self, guest_id: i64) -> bool {
        exists|i: int|
            0 <= i < self.events.len() && #[trigger] self.events[i].guest_id == guest_id
    }

    /// Whether a guest with this name and host is in the store.
    pub open spec fn has_identity(self, name: Seq<char>, host: Option<Seq<char>>) -> bool {
        exists|i: int|
            0 <= i < self.guests.len() && same_identity(#[trigger] self.guests[i], name, host)
    }

    /// The guests stand in the order of their identity numbers, which are
    /// positive and below the next one to be given.
    pub open spec fn guest_ids_ordered(self) -> bool {
        &&& 1 <= self.next_guest_id <= i64::MAX
        &&& forall|i: int|
            0 <= i < self.guests.len() ==> 0 < (#[trigger] self.guests[i]).id
                < self.next_guest_id
        &&& forall|i: int, j: int|
            0 <= i < j < self.guests.len() ==> (#[trigger] self.guests[i]).id
                < (#[trigger] self.guests[j]).id
    }

    /// The events stand in the order of their identity numbers, which are
    /// positive and below the next one to be given.
    pub open spec fn event_ids_ordered(self) -> bool {
        &&& 1 <= self.next_event_id <= i64::MAX
        &&& forall|i: int|
            0 <= i < self.events.len() ==> 0 < (#[trigger] self.events[i]).id
                < self.next_event_id
        &&& forall|i: int, j: int|
            0 <= i < j < self.events.len() ==> (#[trigger] self.events[i]).id
                < (#[trigger] self.events[j]).id
    }

    /// Every event belongs to a guest of the store.
    pub open spec fn events_owned(self) -> bool {
        forall|i: int|
            0 <= i < self.events.len() ==> self.has_guest((#[trigger] self.events[i]).guest_id)
    }

    /// No guest has two open events.
    pub open spec fn at_most_one_open(self) -> bool {
        forall|g: i64, i: int, j: int|
            #[trigger] self.open_at(g, i) && #[trigger] self.open_at(g, j) ==> i == j
    }

    /// No two guests share a name and a host, ASCII letter case ignored.
    pub open spec fn identities_unique(self) -> bool {
        forall|i: int, j: int|
            0 <= i < j < self.guests.len() ==> !same_identity(
                #[trigger] self.guests[i],
                (#[trigger] self.guests[j]).display_name,
                self.guests[j].member_host,
            )
    }

    /// An open event names nobody who closed it.
    pub open spec fn open_events_unsigned(self) -> bool {
        forall|i: int|
            0 <= i < self.events.len() && (#[trigger] self.events[i]).out_ts is None
                ==> self.events[i].out_by is None
    }

    /// The rules of the store, all of them.
    pub open spec fn wf(self) -> bool {
        &&& self.guest_ids_ordered()
        &&& self.event_ids_ordered()
        &&& self.events_owned()
        &&& self.at_most_one_open()
        &&& self.open_events_unsigned()
        &&& self.identities_unique()
    }
}

impl GuestStore {
    /// A store without any record.
    pub fn new() -> (store: GuestStore)
        ensures
            store@ == StoreView::empty(),
            store@.wf(),
    {
        let store = GuestStore {
            guests: Vec::new(),
            events: Vec::new(),
            next_guest_id: 1,
            next_event_id: 1,
        };
        assert(store@.guests =~= Seq::<GuestView>::empty());
        assert(store@.events =~= Seq::<EventView>::empty());
        store
    }

    /// The guests, in the order of their identity numbers.
    pub fn guests(&self) -> (out: &Vec<Guest>)
        ensures
            guest_views(out@) == self@.guests,
    {
        &self.guests
    }

    /// The events, in the order of their identity numbers.
    pub fn events(&self) -> (out: &Vec<CheckinEvent>)
        ensures
            event_views(out@) == self@.events,
    {
        &self.events
    }
}

} // verus!
